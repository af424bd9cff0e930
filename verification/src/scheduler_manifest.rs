//! What is known of each scheduler that can be built.

use vstd::prelude::*;

use crate::sched_config::GlobalValue;

verus! {

/// A change made to a scheduler's source before it is compiled.
#[derive(Clone, Copy, Debug, PartialEq, Eq, Structural)]
pub enum Codegen {
    /// A division is guarded against zero.
    CosmosDivZeroGuard,
}

/// A value for a global variable of a scheduler.
#[derive(Clone, Copy, Debug, PartialEq, Eq, Structural)]
pub enum ConfigValue {
    Bool(bool),
    U32(u32),
    U64(u64),
    /// The number of simulated CPUs.
    NumCpus,
}

/// The value that is written on a machine of `nr_cpus` CPUs.
pub open spec fn value_on(v: ConfigValue, nr_cpus: u32) -> GlobalValue {
    match v {
        ConfigValue::Bool(b) => GlobalValue::Bool(b),
        ConfigValue::U32(n) => GlobalValue::U32(n),
        ConfigValue::U64(n) => GlobalValue::U64(n),
        ConfigValue::NumCpus => GlobalValue::U32(nr_cpus),
    }
}

impl ConfigValue {
    /// The value that is written on a machine of `nr_cpus` CPUs.
    pub fn resolve(self, nr_cpus: u32) -> (r: GlobalValue)
        ensures
            r == value_on(self, nr_cpus),
    {
        match self {
            ConfigValue::Bool(b) => GlobalValue::Bool(b),
            ConfigValue::U32(n) => GlobalValue::U32(n),
            ConfigValue::U64(n) => GlobalValue::U64(n),
            ConfigValue::NumCpus => GlobalValue::U32(nr_cpus),
        }
    }
}

/// What is set up before a scheduler runs.
pub struct SchedulerRuntime {
    /// The global variables to write.
    pub rodata: Vec<(&'static str, ConfigValue)>,
}

/// Global variables as contracts see them.
pub open spec fn rodata_views(v: Seq<(&'static str, ConfigValue)>) -> Seq<
    (Seq<char>, ConfigValue),
> {
    v.map_values(|g: (&'static str, ConfigValue)| (g.0@, g.1))
}

impl SchedulerRuntime {
    /// Nothing to set up.
    pub fn empty() -> (r: SchedulerRuntime)
        ensures
            rodata_views(r.rodata@) == Seq::<(Seq<char>, ConfigValue)>::empty(),
    {
        let r = SchedulerRuntime { rodata: Vec::new() };
        proof {
            assert(rodata_views(r.rodata@) =~= Seq::<(Seq<char>, ConfigValue)>::empty());
        }
        r
    }
}

/// What is known of a scheduler.
pub struct SchedulerManifest {
    pub name: &'static str,
    /// Its globals are made writable.
    pub strip_const: bool,
    /// Its sources stand with the other schedulers'.
    pub scx_bpf_dir: bool,
    /// It keeps a source in its own directory.
    pub extra_local_include: bool,
    pub codegen: Option<Codegen>,
    pub runtime: SchedulerRuntime,
}

/// A scheduler as contracts see it.
#[verifier::ext_equal]
pub struct ManifestView {
    pub name: Seq<char>,
    pub strip_const: bool,
    pub scx_bpf_dir: bool,
    pub extra_local_include: bool,
    pub codegen: Option<Codegen>,
    pub rodata: Seq<(Seq<char>, ConfigValue)>,
}

impl View for SchedulerManifest {
    type V = ManifestView;

    open spec fn view(&self) -> ManifestView {
        ManifestView {
            name: self.name@,
            strip_const: self.strip_const,
            scx_bpf_dir: self.scx_bpf_dir,
            extra_local_include: self.extra_local_include,
            codegen: self.codegen,
            rodata: rodata_views(self.runtime.rodata@),
        }
    }
}

/// What mitosis is given.
pub open spec fn mitosis_rodata() -> Seq<(Seq<char>, ConfigValue)> {
    seq![
        ("nr_possible_cpus"@, ConfigValue::NumCpus),
        ("smt_enabled"@, ConfigValue::Bool(false)),
        ("slice_ns"@, ConfigValue::U64(20_000_000)),
        ("root_cgid"@, ConfigValue::U64(1)),
        ("debug_events_enabled"@, ConfigValue::Bool(false)),
        ("exiting_task_workaround_enabled"@, ConfigValue::Bool(false)),
        ("cpu_controller_disabled"@, ConfigValue::Bool(true)),
        ("reject_multicpu_pinning"@, ConfigValue::Bool(false)),
    ]
}

/// What tickless is given.
pub open spec fn tickless_rodata() -> Seq<(Seq<char>, ConfigValue)> {
    seq![
        ("nr_cpu_ids"@, ConfigValue::NumCpus),
        ("smt_enabled"@, ConfigValue::Bool(false)),
        ("slice_ns"@, ConfigValue::U64(20_000_000)),
        ("tick_freq"@, ConfigValue::U64(250)),
    ]
}

/// The schedulers.
pub open spec fn manifests() -> Seq<ManifestView> {
    seq![
        ManifestView {
            name: "cosmos"@,
            strip_const: true,
            scx_bpf_dir: true,
            extra_local_include: true,
            codegen: Some(Codegen::CosmosDivZeroGuard),
            rodata: Seq::empty(),
        },
        ManifestView {
            name: "lavd"@,
            strip_const: true,
            scx_bpf_dir: true,
            extra_local_include: true,
            codegen: None,
            rodata: Seq::empty(),
        },
        ManifestView {
            name: "mitosis"@,
            strip_const: true,
            scx_bpf_dir: true,
            extra_local_include: false,
            codegen: None,
            rodata: mitosis_rodata(),
        },
        ManifestView {
            name: "simple"@,
            strip_const: false,
            scx_bpf_dir: false,
            extra_local_include: false,
            codegen: None,
            rodata: Seq::empty(),
        },
        ManifestView {
            name: "tickless"@,
            strip_const: true,
            scx_bpf_dir: true,
            extra_local_include: false,
            codegen: None,
            rodata: tickless_rodata(),
        },
    ]
}

fn mitosis_runtime() -> (r: SchedulerRuntime)
    ensures
        rodata_views(r.rodata@) == mitosis_rodata(),
{
    let mut v: Vec<(&'static str, ConfigValue)> = Vec::new();
    v.push(("nr_possible_cpus", ConfigValue::NumCpus));
    v.push(("smt_enabled", ConfigValue::Bool(false)));
    v.push(("slice_ns", ConfigValue::U64(20_000_000)));
    v.push(("root_cgid", ConfigValue::U64(1)));
    v.push(("debug_events_enabled", ConfigValue::Bool(false)));
    v.push(("exiting_task_workaround_enabled", ConfigValue::Bool(false)));
    v.push(("cpu_controller_disabled", ConfigValue::Bool(true)));
    v.push(("reject_multicpu_pinning", ConfigValue::Bool(false)));
    proof {
        assert(rodata_views(v@) =~= mitosis_rodata());
    }
    SchedulerRuntime { rodata: v }
}

fn tickless_runtime() -> (r: SchedulerRuntime)
    ensures
        rodata_views(r.rodata@) == tickless_rodata(),
{
    let mut v: Vec<(&'static str, ConfigValue)> = Vec::new();
    v.push(("nr_cpu_ids", ConfigValue::NumCpus));
    v.push(("smt_enabled", ConfigValue::Bool(false)));
    v.push(("slice_ns", ConfigValue::U64(20_000_000)));
    v.push(("tick_freq", ConfigValue::U64(250)));
    proof {
        assert(rodata_views(v@) =~= tickless_rodata());
    }
    SchedulerRuntime { rodata: v }
}

/// The schedulers.
pub fn schedulers() -> (r: Vec<SchedulerManifest>)
    ensures
        r@.map_values(|m: SchedulerManifest| m@) == manifests(),
{
    let mut v: Vec<SchedulerManifest> = Vec::new();
    v.push(
        SchedulerManifest {
            name: "cosmos",
            strip_const: true,
            scx_bpf_dir: true,
            extra_local_include: true,
            codegen: Some(Codegen::CosmosDivZeroGuard),
            runtime: SchedulerRuntime::empty(),
        },
    );
    v.push(
        SchedulerManifest {
            name: "lavd",
            strip_const: true,
            scx_bpf_dir: true,
            extra_local_include: true,
            codegen: None,
            runtime: SchedulerRuntime::empty(),
        },
    );
    v.push(
        SchedulerManifest {
            name: "mitosis",
            strip_const: true,
            scx_bpf_dir: true,
            extra_local_include: false,
            codegen: None,
            runtime: mitosis_runtime(),
        },
    );
    v.push(
        SchedulerManifest {
            name: "simple",
            strip_const: false,
            scx_bpf_dir: false,
            extra_local_include: false,
            codegen: None,
            runtime: SchedulerRuntime::empty(),
        },
    );
    v.push(
        SchedulerManifest {
            name: "tickless",
            strip_const: true,
            scx_bpf_dir: true,
            extra_local_include: false,
            codegen: None,
            runtime: tickless_runtime(),
        },
    );
    proof {
        assert(v@.map_values(|m: SchedulerManifest| m@) =~= manifests());
    }
    v
}

/// A value is written as it is and with its type, whatever the machine; only the number of
/// CPUs is the machine's.
pub proof fn law_values_are_written_as_they_are(b: bool, n: u32, m: u64, nr_cpus: u32, other: u32)
    ensures
        value_on(ConfigValue::Bool(b), nr_cpus) == GlobalValue::Bool(b),
        value_on(ConfigValue::U32(n), nr_cpus) == GlobalValue::U32(n),
        value_on(ConfigValue::U64(m), nr_cpus) == GlobalValue::U64(m),
        value_on(ConfigValue::NumCpus, nr_cpus) == GlobalValue::U32(nr_cpus),
        value_on(ConfigValue::NumCpus, nr_cpus) == value_on(ConfigValue::NumCpus, other) <==> nr_cpus
            == other,
{
}

/// The schedulers that there are, by name. All but the simple one stand with the others
/// and have their globals made writable; two keep a source of their own; one is guarded
/// against a division by zero; two are given values before they run.
pub proof fn law_schedulers_by_name(i: int)
    requires
        0 <= i < manifests().len(),
    ensures
        ({
            let m = manifests()[i];
            &&& manifests().len() == 5
            &&& m.name == "cosmos"@ || m.name == "lavd"@ || m.name == "mitosis"@ || m.name
                == "simple"@ || m.name == "tickless"@
            &&& m.strip_const <==> i != 3
            &&& m.scx_bpf_dir == m.strip_const
            &&& m.extra_local_include <==> i == 0 || i == 1
            &&& m.codegen is Some <==> i == 0
            &&& m.rodata.len() > 0 <==> i == 2 || i == 4
        }),
        manifests()[0].name == "cosmos"@ && manifests()[1].name == "lavd"@,
        manifests()[2].name == "mitosis"@ && manifests()[3].name == "simple"@,
        manifests()[4].name == "tickless"@,
{
}

/// What the schedulers are given that are given anything: the number of CPUs, a slice of
/// twenty milliseconds, and no more than one thread to a core.
pub proof fn law_schedulers_are_told_of_the_machine()
    ensures
        mitosis_rodata().contains(("nr_possible_cpus"@, ConfigValue::NumCpus)),
        mitosis_rodata().contains(("smt_enabled"@, ConfigValue::Bool(false))),
        mitosis_rodata().contains(("slice_ns"@, ConfigValue::U64(20_000_000))),
        mitosis_rodata().contains(("root_cgid"@, ConfigValue::U64(1))),
        mitosis_rodata().contains(("debug_events_enabled"@, ConfigValue::Bool(false))),
        mitosis_rodata().contains(("exiting_task_workaround_enabled"@, ConfigValue::Bool(false))),
        mitosis_rodata().contains(("cpu_controller_disabled"@, ConfigValue::Bool(true))),
        mitosis_rodata().contains(("reject_multicpu_pinning"@, ConfigValue::Bool(false))),
        mitosis_rodata().len() == 8,
        tickless_rodata().contains(("nr_cpu_ids"@, ConfigValue::NumCpus)),
        tickless_rodata().contains(("smt_enabled"@, ConfigValue::Bool(false))),
        tickless_rodata().contains(("slice_ns"@, ConfigValue::U64(20_000_000))),
        tickless_rodata().contains(("tick_freq"@, ConfigValue::U64(250))),
        tickless_rodata().len() == 4,
        manifests()[2].rodata == mitosis_rodata(),
        manifests()[4].rodata == tickless_rodata(),
{
    let m = mitosis_rodata();
    assert(m[0].1 is NumCpus && m[1].0 == "smt_enabled"@ && m[2].0 == "slice_ns"@ && m[3].0
        == "root_cgid"@ && m[4].0 == "debug_events_enabled"@ && m[5].0
        == "exiting_task_workaround_enabled"@ && m[6].0 == "cpu_controller_disabled"@ && m[7].0
        == "reject_multicpu_pinning"@);
    let t = tickless_rodata();
    assert(t[0].1 is NumCpus && t[1].0 == "smt_enabled"@ && t[2].0 == "slice_ns"@ && t[3].0
        == "tick_freq"@);
}

} // verus!
