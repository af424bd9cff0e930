//! Replay of recorded preemptions, and comparison of two runs.

use vstd::prelude::*;

use crate::run_options::PreemptModeArg;
use crate::scenario::{Phase, PmuEvent, PreemptiveConfig, RepeatMode, Scenario, TaskBehavior, TaskDef};
use crate::text::{dec, decimal, hex, plus, prefixed_hex, same_text};
use crate::types::{CpuId, Pid, TimeNs};

verus! {

/// What a recording says of the run that it was made in.
pub struct TraceMetadata {
    pub nr_cpus: Option<u32>,
    pub nr_tasks: Option<u32>,
    pub seed: Option<u32>,
    pub duration_ns: Option<TimeNs>,
    pub scheduler: Option<String>,
    pub timeslice_min: Option<u64>,
    pub timeslice_max: Option<u64>,
    /// A hash of the scheduler's file.
    pub so_hash: Option<u64>,
    pub so_path: Option<String>,
}

/// What a replay needs to know.
#[derive(Clone, Copy, Debug, PartialEq, Eq, Structural)]
pub struct ReplayParams {
    pub nr_cpus: u32,
    pub nr_tasks: u32,
    pub seed: u32,
    pub duration_ns: TimeNs,
    pub timeslice_min: u64,
    pub timeslice_max: u64,
}

/// The first thing that a replay needs and a recording does not say.
pub open spec fn first_missing(m: TraceMetadata) -> Option<Seq<char>> {
    if m.nr_cpus is None {
        Some("nr_cpus"@)
    } else if m.nr_tasks is None {
        Some("nr_tasks"@)
    } else if m.seed is None {
        Some("seed"@)
    } else if m.duration_ns is None {
        Some("duration_ns"@)
    } else if m.timeslice_min is None {
        Some("timeslice_min"@)
    } else if m.timeslice_max is None {
        Some("timeslice_max"@)
    } else {
        None
    }
}

/// What a recording says, where it says all that a replay needs.
pub open spec fn params_in(m: TraceMetadata) -> ReplayParams {
    ReplayParams {
        nr_cpus: m.nr_cpus->0,
        nr_tasks: m.nr_tasks->0,
        seed: m.seed->0,
        duration_ns: m.duration_ns->0,
        timeslice_min: m.timeslice_min->0,
        timeslice_max: m.timeslice_max->0,
    }
}

fn missing(what: &str) -> (r: String)
    ensures
        r@ == "trace file missing required metadata: "@ + what@,
{
    plus("trace file missing required metadata: ".to_string(), what)
}

/// Reads what a replay needs.
pub fn replay_params(m: &TraceMetadata) -> (r: Result<ReplayParams, String>)
    ensures
        match r {
            Ok(p) => first_missing(*m) is None && p == params_in(*m),
            Err(e) => first_missing(*m) is Some && e@ == "trace file missing required metadata: "@
                + first_missing(*m)->0,
        },
{
    let nr_cpus = match m.nr_cpus {
        Some(v) => v,
        None => {
            return Err(missing("nr_cpus"));
        },
    };
    let nr_tasks = match m.nr_tasks {
        Some(v) => v,
        None => {
            return Err(missing("nr_tasks"));
        },
    };
    let seed = match m.seed {
        Some(v) => v,
        None => {
            return Err(missing("seed"));
        },
    };
    let duration_ns = match m.duration_ns {
        Some(v) => v,
        None => {
            return Err(missing("duration_ns"));
        },
    };
    let timeslice_min = match m.timeslice_min {
        Some(v) => v,
        None => {
            return Err(missing("timeslice_min"));
        },
    };
    let timeslice_max = match m.timeslice_max {
        Some(v) => v,
        None => {
            return Err(missing("timeslice_max"));
        },
    };
    Ok(ReplayParams { nr_cpus, nr_tasks, seed, duration_ns, timeslice_min, timeslice_max })
}

/// What is recorded of a run. A hash of zero stands for none.
pub open spec fn metadata_of(
    s: Scenario,
    scheduler: String,
    so_hash: u64,
    so_path: Option<String>,
) -> TraceMetadata {
    TraceMetadata {
        nr_cpus: Some(s.nr_cpus),
        nr_tasks: Some(s.tasks@.len() as u32),
        seed: Some(s.seed),
        duration_ns: Some(s.duration_ns),
        scheduler: Some(scheduler),
        timeslice_min: match s.preemptive {
            Some(p) => Some(p.timeslice_min),
            None => None,
        },
        timeslice_max: match s.preemptive {
            Some(p) => Some(p.timeslice_max),
            None => None,
        },
        so_hash: if so_hash == 0 {
            None
        } else {
            Some(so_hash)
        },
        so_path,
    }
}

/// What is recorded of a run.
pub fn scenario_metadata(
    s: &Scenario,
    scheduler: String,
    so_hash: u64,
    so_path: Option<String>,
) -> (r: TraceMetadata)
    ensures
        r == metadata_of(*s, scheduler, so_hash, so_path),
{
    let (timeslice_min, timeslice_max) = match s.preemptive {
        Some(p) => (Some(p.timeslice_min), Some(p.timeslice_max)),
        None => (None, None),
    };
    TraceMetadata {
        nr_cpus: Some(s.nr_cpus),
        nr_tasks: Some(#[verifier::truncate] (s.tasks.len() as u32)),
        seed: Some(s.seed),
        duration_ns: Some(s.duration_ns),
        scheduler: Some(scheduler),
        timeslice_min,
        timeslice_max,
        so_hash: if so_hash == 0 {
            None
        } else {
            Some(so_hash)
        },
        so_path,
    }
}

/// The compute phase of a replayed task.
pub const REPLAY_PHASE_NS: TimeNs = 10_000_000;

/// Whether a task is the one with an index in a replay: a task of its own that
/// computes forever.
pub open spec fn is_replay_task(t: TaskDef, i: int) -> bool {
    &&& t.pid == Pid((i + 1) as i32)
    &&& t.name@ == "task-"@ + decimal(i as nat)
    &&& t.nice == 0
    &&& t.behavior.phases@ == seq![Phase::Run(REPLAY_PHASE_NS)]
    &&& t.behavior.repeat == RepeatMode::Forever
    &&& t.start_time_ns == 0
    &&& t.allowed_cpus is None
    &&& t.parent_pid is None
    &&& t.cgroup_name is None
}

fn replay_tasks(n: u32) -> (r: Vec<TaskDef>)
    requires
        n < 0x7FFF_FFFF,
    ensures
        r@.len() == n,
        forall|i: int| 0 <= i < n ==> is_replay_task(#[trigger] r@[i], i),
{
    let mut tasks: Vec<TaskDef> = Vec::new();
    let mut i: u32 = 0;
    while i < n
        invariant
            i <= n,
            n < 0x7FFF_FFFF,
            tasks@.len() == i,
            forall|k: int| 0 <= k < i ==> is_replay_task(#[trigger] tasks@[k], k),
        decreases n - i,
    {
        let mut phases: Vec<Phase> = Vec::new();
        phases.push(Phase::Run(REPLAY_PHASE_NS));
        proof {
            assert(phases@ =~= seq![Phase::Run(REPLAY_PHASE_NS)]);
        }
        tasks.push(
            TaskDef {
                pid: Pid((i + 1) as i32),
                name: plus("task-".to_string(), dec(i as u64).as_str()),
                nice: 0,
                behavior: TaskBehavior { phases, repeat: RepeatMode::Forever },
                start_time_ns: 0,
                allowed_cpus: None,
                parent_pid: None,
                cgroup_name: None,
            },
        );
        i = i + 1;
    }
    tasks
}

/// The scenario of a replay: as many tasks as the recording had, each of which
/// computes forever, preempted as recorded.
pub fn replay_scenario(
    base: Scenario,
    p: &ReplayParams,
    break_on: PmuEvent,
    mode: PreemptModeArg,
    no_pmu_signal: bool,
    wait_debugger: bool,
) -> (r: Scenario)
    requires
        p.nr_tasks < 0x7FFF_FFFF,
    ensures
        r == (Scenario {
            nr_cpus: p.nr_cpus,
            seed: p.seed,
            duration_ns: p.duration_ns,
            tasks: r.tasks,
            preemptive: Some(
                PreemptiveConfig {
                    timeslice_min: p.timeslice_min,
                    timeslice_max: p.timeslice_max,
                    cooperative_only: false,
                    break_on,
                    preempt_mode: mode.spec_mode(),
                },
            ),
            interleave: true,
            no_pmu_signal,
            wait_debugger: base.wait_debugger || wait_debugger,
            ..base
        }),
        r.tasks@.len() == p.nr_tasks,
        forall|i: int| 0 <= i < p.nr_tasks ==> is_replay_task(#[trigger] r.tasks@[i], i),
{
    Scenario {
        nr_cpus: p.nr_cpus,
        seed: p.seed,
        duration_ns: p.duration_ns,
        tasks: replay_tasks(p.nr_tasks),
        preemptive: Some(
            PreemptiveConfig {
                timeslice_min: p.timeslice_min,
                timeslice_max: p.timeslice_max,
                cooperative_only: false,
                break_on,
                preempt_mode: mode.to_preempt_mode(),
            },
        ),
        interleave: true,
        no_pmu_signal,
        wait_debugger: base.wait_debugger || wait_debugger,
        ..base
    }
}

/// A recording of a preemptive run says all that its replay needs, and the
/// replay is asked for what the run had.
pub proof fn law_recordings_can_be_replayed(
    s: Scenario,
    scheduler: String,
    so_hash: u64,
    so_path: Option<String>,
)
    requires
        s.preemptive is Some,
        s.tasks@.len() <= u32::MAX,
    ensures
        first_missing(metadata_of(s, scheduler, so_hash, so_path)) is None,
        params_in(metadata_of(s, scheduler, so_hash, so_path)) == (ReplayParams {
            nr_cpus: s.nr_cpus,
            nr_tasks: s.tasks@.len() as u32,
            seed: s.seed,
            duration_ns: s.duration_ns,
            timeslice_min: (s.preemptive->0).timeslice_min,
            timeslice_max: (s.preemptive->0).timeslice_max,
        }),
{
}

/// How a replay gets at its scheduler.
#[derive(Clone, Copy, Debug, PartialEq, Eq, Structural)]
pub struct ReplaySteps {
    /// Share the counter with the scheduler before it is loaded.
    pub map_counter: bool,
    /// Share the targets with the scheduler before it is loaded.
    pub map_targets: bool,
    /// Load the instrumented variant of the scheduler recorded.
    pub derive_variant: bool,
    /// Instrument the scheduler at the instructions recorded.
    pub create_variant: bool,
}

/// How a replay gets at its scheduler. Only the instrumented scheduler shares
/// anything; a recording by instructions needs one made for it, another one the
/// ready variant, unless a scheduler is given.
pub fn plan_replay(mode: PreemptModeArg, break_on: PmuEvent, given: bool) -> (r: ReplaySteps)
    ensures
        r.map_counter == (mode is E9patch),
        r.map_targets == (mode is E9patch && break_on is InstructionsRetired),
        r.create_variant == r.map_targets,
        r.derive_variant == (mode is E9patch && !(break_on is InstructionsRetired) && !given),
{
    let e9 = matches!(mode, PreemptModeArg::E9patch);
    let by_instruction = e9 && matches!(break_on, PmuEvent::InstructionsRetired);
    ReplaySteps {
        map_counter: e9,
        map_targets: by_instruction,
        derive_variant: e9 && !by_instruction && !given,
        create_variant: by_instruction,
    }
}

/// The offsets of the first `n` addresses that lie in the scheduler.
pub open spec fn offsets_in(rips: Seq<u64>, so_base: u64, n: nat) -> Seq<u64>
    decreases n,
{
    if n == 0 {
        Seq::empty()
    } else {
        let before = offsets_in(rips, so_base, (n - 1) as nat);
        if so_base > 0 && rips[n - 1] >= so_base {
            before.push((rips[n - 1] - so_base) as u64)
        } else {
            before
        }
    }
}

/// Where in the scheduler's file the instructions of a recording stand.
pub fn rip_offsets(rips: &Vec<u64>, so_base: u64) -> (r: Result<Vec<u64>, String>)
    ensures
        match r {
            Ok(v) => v@.len() > 0 && v@ == offsets_in(rips@, so_base, rips@.len()),
            Err(e) => if rips@.len() == 0 {
                e@
                    == "e9patch RIP mode: no non-zero RIPs found in trace. Cannot create RIP-patched .so."@
            } else {
                offsets_in(rips@, so_base, rips@.len()).len() == 0 && e@
                    == "e9patch RIP mode: no RIPs within the scheduler .so range. The trace may have been recorded with a different scheduler."@
            },
        },
{
    if rips.len() == 0 {
        return Err(
            "e9patch RIP mode: no non-zero RIPs found in trace. Cannot create RIP-patched .so.".to_string(),
        );
    }
    let mut out: Vec<u64> = Vec::new();
    let mut i: usize = 0;
    while i < rips.len()
        invariant
            i <= rips@.len(),
            out@ == offsets_in(rips@, so_base, i as nat),
        decreases rips@.len() - i,
    {
        if so_base > 0 && rips[i] >= so_base {
            out.push(rips[i] - so_base);
        }
        i = i + 1;
    }
    if out.len() == 0 {
        return Err(
            "e9patch RIP mode: no RIPs within the scheduler .so range. The trace may have been recorded with a different scheduler.".to_string(),
        );
    }
    Ok(out)
}

/// Where a run stood at one moment.
pub struct DeterminismCheckpoint {
    pub event: String,
    pub cpu_id: CpuId,
    pub instruction_pointer: u64,
    pub rbc_count: u64,
    pub memory_hash: u64,
}

/// Where two runs first differ.
pub struct CheckpointDivergence {
    pub checkpoint_index: u64,
    pub expected: DeterminismCheckpoint,
    pub actual: DeterminismCheckpoint,
}

/// Whether two numbers agree, in words.
pub open spec fn verdict(same: bool) -> Seq<char> {
    if same {
        "match"@
    } else {
        "MISMATCH"@
    }
}

fn say_verdict(same: bool) -> (r: &'static str)
    ensures
        r@ == verdict(same),
{
    if same {
        "match"
    } else {
        "MISMATCH"
    }
}

/// What is said of two texts.
pub open spec fn versus(
    what: Seq<char>,
    a: Seq<char>,
    b: Seq<char>,
    same: bool,
) -> Seq<char> {
    "    "@ + what + ": "@ + a + " vs "@ + b + " ("@ + verdict(same) + ")\n"@
}

fn say_versus(what: &str, a: &str, b: &str, same: bool) -> (r: String)
    ensures
        r@ == versus(what@, a@, b@, same),
{
    plus(
        plus(
            plus(
                plus(
                    plus(plus(plus(plus("    ".to_string(), what), ": "), a), " vs "),
                    b,
                ),
                " (",
            ),
            say_verdict(same),
        ),
        ")\n",
    )
}

/// What is said where two runs differ. The event and the CPU are told only
/// where they differ.
pub open spec fn divergence_text(seed: Seq<char>, d: CheckpointDivergence) -> Seq<char> {
    let e = d.expected;
    let a = d.actual;
    "DETERMINISM FAILURE at seed "@ + seed + ":\n  Divergence at checkpoint "@ + decimal(
        d.checkpoint_index as nat,
    ) + " ("@ + e.event@ + " event):\n"@ + versus(
        "RIP"@,
        prefixed_hex(e.instruction_pointer as nat),
        prefixed_hex(a.instruction_pointer as nat),
        e.instruction_pointer == a.instruction_pointer,
    ) + versus(
        "RBC"@,
        decimal(e.rbc_count as nat),
        decimal(a.rbc_count as nat),
        e.rbc_count == a.rbc_count,
    ) + versus(
        "Memory hash"@,
        prefixed_hex(e.memory_hash as nat),
        prefixed_hex(a.memory_hash as nat),
        e.memory_hash == a.memory_hash,
    ) + (if e.event@ == a.event@ {
        Seq::empty()
    } else {
        versus("Event"@, e.event@, a.event@, false)
    }) + (if e.cpu_id == a.cpu_id {
        Seq::empty()
    } else {
        versus("CPU"@, decimal(e.cpu_id.0 as nat), decimal(a.cpu_id.0 as nat), false)
    })
}

/// What is said where two runs differ.
pub fn print_determinism_failure(seed: &str, d: &CheckpointDivergence) -> (r: String)
    ensures
        r@ == divergence_text(seed@, *d),
{
    let e = &d.expected;
    let a = &d.actual;
    let head = plus(
        plus(
            plus(
                plus(
                    plus(
                        plus("DETERMINISM FAILURE at seed ".to_string(), seed),
                        ":\n  Divergence at checkpoint ",
                    ),
                    dec(d.checkpoint_index).as_str(),
                ),
                " (",
            ),
            e.event.as_str(),
        ),
        " event):\n",
    );
    let rip = say_versus(
        "RIP",
        hex(e.instruction_pointer).as_str(),
        hex(a.instruction_pointer).as_str(),
        e.instruction_pointer == a.instruction_pointer,
    );
    let rbc = say_versus(
        "RBC",
        dec(e.rbc_count).as_str(),
        dec(a.rbc_count).as_str(),
        e.rbc_count == a.rbc_count,
    );
    let hash = say_versus(
        "Memory hash",
        hex(e.memory_hash).as_str(),
        hex(a.memory_hash).as_str(),
        e.memory_hash == a.memory_hash,
    );
    let event = if same_text(e.event.as_str(), a.event.as_str()) {
        String::new()
    } else {
        say_versus("Event", e.event.as_str(), a.event.as_str(), false)
    };
    let cpu = if e.cpu_id == a.cpu_id {
        String::new()
    } else {
        say_versus(
            "CPU",
            dec(e.cpu_id.0 as u64).as_str(),
            dec(a.cpu_id.0 as u64).as_str(),
            false,
        )
    };
    plus(
        plus(plus(plus(plus(head, rip.as_str()), rbc.as_str()), hash.as_str()), event.as_str()),
        cpu.as_str(),
    )
}

/// A recording can be replayed exactly if nothing that a replay needs is missing; what it
/// then asks for is what the recording says. The first thing missing is named.
pub proof fn law_what_is_missing_is_named(m: TraceMetadata)
    ensures
        first_missing(m) is None <==> m.nr_cpus is Some && m.nr_tasks is Some && m.seed is Some
            && m.duration_ns is Some && m.timeslice_min is Some && m.timeslice_max is Some,
        m.nr_cpus is None ==> first_missing(m) == Some("nr_cpus"@),
        m.nr_cpus is Some && m.nr_tasks is None ==> first_missing(m) == Some("nr_tasks"@),
        m.nr_cpus is Some && m.nr_tasks is Some && m.seed is None ==> first_missing(m) == Some(
            "seed"@,
        ),
        m.nr_cpus is Some && m.nr_tasks is Some && m.seed is Some && m.duration_ns is None
            ==> first_missing(m) == Some("duration_ns"@),
        m.nr_cpus is Some && m.nr_tasks is Some && m.seed is Some && m.duration_ns is Some
            && m.timeslice_min is None ==> first_missing(m) == Some("timeslice_min"@),
        m.nr_cpus is Some && m.nr_tasks is Some && m.seed is Some && m.duration_ns is Some
            && m.timeslice_min is Some && m.timeslice_max is None ==> first_missing(m) == Some(
            "timeslice_max"@,
        ),
        first_missing(m) is None ==> {
            let p = params_in(m);
            &&& m.nr_cpus == Some(p.nr_cpus) && m.nr_tasks == Some(p.nr_tasks)
            &&& m.seed == Some(p.seed) && m.duration_ns == Some(p.duration_ns)
            &&& m.timeslice_min == Some(p.timeslice_min) && m.timeslice_max == Some(
                p.timeslice_max,
            )
        },
{
}

/// A run that is not preempted is recorded without timeslices; the scheduler is recorded
/// with its name and its file, and with its hash unless that is zero.
pub proof fn law_recordings_name_their_scheduler(
    s: Scenario,
    scheduler: String,
    so_hash: u64,
    so_path: Option<String>,
)
    ensures
        ({
            let m = metadata_of(s, scheduler, so_hash, so_path);
            &&& m.scheduler == Some(scheduler) && m.so_path == so_path
            &&& so_hash != 0 ==> m.so_hash == Some(so_hash)
            &&& so_hash == 0 ==> m.so_hash is None
            &&& s.preemptive is None ==> m.timeslice_min is None && m.timeslice_max is None
        }),
{
}

/// A replayed task computes in whole phases of ten milliseconds, forever, from the start,
/// on any CPU; its number is one above its index.
pub proof fn law_replayed_tasks_compute(t: TaskDef, i: int)
    requires
        is_replay_task(t, i),
        0 <= i < 0x7FFF_FFFF,
    ensures
        t.pid.0 == i + 1,
        t.behavior.phases@.len() == 1,
        t.behavior.phases@[0] == Phase::Run(10_000_000),
        t.behavior.repeat is Forever,
        t.start_time_ns == 0 && t.nice == 0,
        t.allowed_cpus is None && t.parent_pid is None && t.cgroup_name is None,
{
}

/// The offsets are those of the addresses that lie in the scheduler, in order: an offset
/// and the scheduler's base are an address, every address at or above the base has its
/// offset, and without a base there are none.
pub proof fn law_offsets_lead_back_to_their_addresses(
    rips: Seq<u64>,
    so_base: u64,
    n: nat,
    i: int,
)
    requires
        n <= rips.len(),
    ensures
        ({
            let all = offsets_in(rips, so_base, n);
            &&& all.len() <= n
            &&& so_base == 0 ==> all.len() == 0
            &&& 0 <= i < all.len() ==> exists|k: int|
                0 <= k < n && #[trigger] rips[k] == all[i] + so_base
            &&& 0 <= i < n && so_base > 0 && rips[i] >= so_base ==> exists|k: int|
                0 <= k < all.len() && #[trigger] all[k] + so_base == rips[i]
            &&& so_base > 0 && (forall|k: int| 0 <= k < n ==> #[trigger] rips[k] >= so_base)
                ==> all.len() == n && (0 <= i < n ==> all[i] + so_base == rips[i])
        }),
    decreases n,
{
    if n > 0 {
        let m = (n - 1) as nat;
        let before = offsets_in(rips, so_base, m);
        let all = offsets_in(rips, so_base, n);
        law_offsets_lead_back_to_their_addresses(rips, so_base, m, i);
        if 0 <= i < all.len() {
            if i < before.len() {
                assert(all[i] == before[i]);
            } else {
                assert(rips[n - 1] == all[i] + so_base);
            }
        }
        if 0 <= i < n && so_base > 0 && rips[i] >= so_base {
            if i < m {
                let k = choose|k: int|
                    0 <= k < before.len() && #[trigger] before[k] + so_base == rips[i];
                assert(all[k] + so_base == rips[i]);
            } else {
                assert(all[before.len() as int] + so_base == rips[i]);
            }
        }
        if so_base > 0 && (forall|k: int| 0 <= k < n ==> #[trigger] rips[k] >= so_base) {
            assert(rips[n - 1] >= so_base);
        }
    }
}

/// Two runs are said to match in a number exactly if they do.
pub proof fn law_verdicts_tell_the_truth(same: bool)
    ensures
        verdict(same) == "match"@ <==> same,
        verdict(same) == "MISMATCH"@ <==> !same,
{
    reveal_strlit("match");
    reveal_strlit("MISMATCH");
    assert("match"@[0] == 'm' && "MISMATCH"@[0] == 'M');
}

/// Where two runs differ, each number is told as the one expected against the one found,
/// with whether they match; the event and the CPU only where they do not.
pub proof fn law_differences_are_told_side_by_side(
    seed: Seq<char>,
    d: CheckpointDivergence,
    what: Seq<char>,
    x: Seq<char>,
    y: Seq<char>,
)
    ensures
        versus(what, x, y, true) == "    "@ + what + ": "@ + x + " vs "@ + y + " ("@ + "match"@
            + ")\n"@,
        versus(what, x, y, false) == "    "@ + what + ": "@ + x + " vs "@ + y + " ("@ + "MISMATCH"@
            + ")\n"@,
        ({
            let (e, a) = (d.expected, d.actual);
            let told = "DETERMINISM FAILURE at seed "@ + seed + ":\n  Divergence at checkpoint "@
                + decimal(d.checkpoint_index as nat) + " ("@ + e.event@ + " event):\n"@ + versus(
                "RIP"@,
                prefixed_hex(e.instruction_pointer as nat),
                prefixed_hex(a.instruction_pointer as nat),
                e.instruction_pointer == a.instruction_pointer,
            ) + versus(
                "RBC"@,
                decimal(e.rbc_count as nat),
                decimal(a.rbc_count as nat),
                e.rbc_count == a.rbc_count,
            ) + versus(
                "Memory hash"@,
                prefixed_hex(e.memory_hash as nat),
                prefixed_hex(a.memory_hash as nat),
                e.memory_hash == a.memory_hash,
            );
            &&& e.event@ == a.event@ && e.cpu_id == a.cpu_id ==> divergence_text(seed, d) == told
            &&& e.event@ != a.event@ && e.cpu_id == a.cpu_id ==> divergence_text(seed, d) == told
                + versus("Event"@, e.event@, a.event@, false)
            &&& e.event@ == a.event@ && e.cpu_id != a.cpu_id ==> divergence_text(seed, d) == told
                + versus(
                "CPU"@,
                decimal(e.cpu_id.0 as nat),
                decimal(a.cpu_id.0 as nat),
                false,
            )
        }),
{
    let t = divergence_text(seed, d);
    assert(t =~= t + Seq::<char>::empty());
}

} // verus!
