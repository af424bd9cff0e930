//! Runs that stress the scheduler's bandwidth control.

use vstd::prelude::*;

use crate::scenario::{
    BandwidthDef, CgroupCreateEvent, CgroupDef, CgroupDestroyEvent, CgroupMigrateEvent, IrqEvent,
    IrqType, NativeConcurrentConfig, NoiseConfig, Phase, PmuEvent, PreemptMode, PreemptiveConfig,
    RepeatMode, Scenario, TaskBehavior, TaskDef,
};
use crate::text::{
    dec, decimal, parse_u32, parse_u64, plus, quoted, same_text, shown_quoted, u32_error, u64_error,
    unsigned_value, why_no_u32, why_no_u64,
};
use crate::types::{CpuId, Pid, TimeNs};

verus! {

/// How callbacks are interleaved.
#[derive(Clone, Copy, Debug, PartialEq, Eq, Structural)]
pub enum ChaosMode {
    Off,
    Cooperative,
    NativeConcurrent,
    Preemptive,
}

/// What a run does.
#[derive(Clone, Copy, Debug, PartialEq, Eq, Structural)]
pub enum ScenarioKind {
    /// Tasks that compute under a tight limit.
    Throttle,
    /// The same, with tasks that move between groups and interrupts.
    R3Like,
    /// Tasks that move around between many groups.
    Churn,
    /// Groups that come and go.
    Lifecycle,
    /// More groups than there is room for.
    Enomem,
}

/// What a run is asked for.
#[derive(Clone, Copy, Debug, PartialEq, Eq, Structural)]
pub struct Args {
    pub scenario: ScenarioKind,
    pub mode: ChaosMode,
    pub seed: u32,
    pub cpus: u32,
    pub tasks: u32,
    pub duration_ms: u64,
    pub window_ns: u64,
    pub timeslice_min: u64,
    pub timeslice_max: u64,
    pub break_on: PmuEvent,
    pub fixed_priority: bool,
    pub tick_jitter_stddev_ns: u64,
    pub initial_tick_skew_ns: u64,
    pub run_jitter_cv_ppm: u64,
    pub max_cgroups: u32,
    pub expect_cgroup_exhausted: bool,
}

/// What a run is asked for where nothing is said.
pub open spec fn default_args() -> Args {
    Args {
        scenario: ScenarioKind::Throttle,
        mode: ChaosMode::Off,
        seed: 42,
        cpus: 4,
        tasks: 8,
        duration_ms: 100,
        window_ns: 10_000_000,
        timeslice_min: 300,
        timeslice_max: 1500,
        break_on: PmuEvent::RetiredBranchConditional,
        fixed_priority: false,
        tick_jitter_stddev_ns: 2_000,
        initial_tick_skew_ns: 0,
        run_jitter_cv_ppm: 200_000,
        max_cgroups: 10_000,
        expect_cgroup_exhausted: false,
    }
}

/// Why a command line cannot be used.
pub enum ChaosError {
    MissingValue(String),
    /// The value of a flag is no number that fits, and why.
    BadValue { flag: String, value: String, why: String },
    UnknownScenario(String),
    UnknownMode(String),
    UnknownBreakOn(String),
    UnknownFlag(String),
    /// The longest timeslice is shorter than the shortest.
    BadTimeslices,
}

/// An error as contracts see it.
pub enum ChaosErrorView {
    MissingValue(Seq<char>),
    BadValue { flag: Seq<char>, value: Seq<char>, why: Seq<char> },
    UnknownScenario(Seq<char>),
    UnknownMode(Seq<char>),
    UnknownBreakOn(Seq<char>),
    UnknownFlag(Seq<char>),
    BadTimeslices,
}

impl View for ChaosError {
    type V = ChaosErrorView;

    open spec fn view(&self) -> ChaosErrorView {
        match self {
            ChaosError::MissingValue(f) => ChaosErrorView::MissingValue(f@),
            ChaosError::BadValue { flag, value, why } => ChaosErrorView::BadValue {
                flag: flag@,
                value: value@,
                why: why@,
            },
            ChaosError::UnknownScenario(v) => ChaosErrorView::UnknownScenario(v@),
            ChaosError::UnknownMode(v) => ChaosErrorView::UnknownMode(v@),
            ChaosError::UnknownBreakOn(v) => ChaosErrorView::UnknownBreakOn(v@),
            ChaosError::UnknownFlag(v) => ChaosErrorView::UnknownFlag(v@),
            ChaosError::BadTimeslices => ChaosErrorView::BadTimeslices,
        }
    }
}

/// What an error says.
pub open spec fn chaos_error_text(e: ChaosErrorView) -> Seq<char> {
    match e {
        ChaosErrorView::MissingValue(f) => f + " requires a value"@,
        ChaosErrorView::BadValue { flag, value, why } => flag + ": failed to parse "@
            + shown_quoted(value) + ": "@ + why,
        ChaosErrorView::UnknownScenario(v) => "unknown scenario: "@ + v,
        ChaosErrorView::UnknownMode(v) => "unknown mode: "@ + v,
        ChaosErrorView::UnknownBreakOn(v) => "unknown --break-on value: "@ + v,
        ChaosErrorView::UnknownFlag(v) => "unknown flag: "@ + v,
        ChaosErrorView::BadTimeslices => "--timeslice-max must be >= --timeslice-min"@,
    }
}

impl ChaosError {
    /// What the error says.
    pub fn text(&self) -> (r: String)
        ensures
            r@ == chaos_error_text(self@),
    {
        match self {
            ChaosError::MissingValue(f) => plus(f.clone(), " requires a value"),
            ChaosError::BadValue { flag, value, why } => plus(
                plus(
                    plus(
                        plus(flag.clone(), ": failed to parse "),
                        quoted(value.as_str()).as_str(),
                    ),
                    ": ",
                ),
                why.as_str(),
            ),
            ChaosError::UnknownScenario(v) => plus("unknown scenario: ".to_string(), v.as_str()),
            ChaosError::UnknownMode(v) => plus("unknown mode: ".to_string(), v.as_str()),
            ChaosError::UnknownBreakOn(v) => plus(
                "unknown --break-on value: ".to_string(),
                v.as_str(),
            ),
            ChaosError::UnknownFlag(v) => plus("unknown flag: ".to_string(), v.as_str()),
            ChaosError::BadTimeslices => "--timeslice-max must be >= --timeslice-min".to_string(),
        }
    }
}

/// What a command line asks for.
#[derive(Clone, Copy, Debug, PartialEq, Eq, Structural)]
pub enum ChaosRequest {
    Help,
    Run(Args),
}

/// The scenario with a name.
pub open spec fn scenario_named(v: Seq<char>) -> Option<ScenarioKind> {
    if v == "throttle"@ {
        Some(ScenarioKind::Throttle)
    } else if v == "r3-like"@ {
        Some(ScenarioKind::R3Like)
    } else if v == "churn"@ {
        Some(ScenarioKind::Churn)
    } else if v == "lifecycle"@ {
        Some(ScenarioKind::Lifecycle)
    } else if v == "enomem"@ {
        Some(ScenarioKind::Enomem)
    } else {
        None
    }
}

/// The scenario with a name.
pub fn parse_scenario(v: &str) -> (r: Option<ScenarioKind>)
    ensures
        r == scenario_named(v@),
{
    if same_text(v, "throttle") {
        Some(ScenarioKind::Throttle)
    } else if same_text(v, "r3-like") {
        Some(ScenarioKind::R3Like)
    } else if same_text(v, "churn") {
        Some(ScenarioKind::Churn)
    } else if same_text(v, "lifecycle") {
        Some(ScenarioKind::Lifecycle)
    } else if same_text(v, "enomem") {
        Some(ScenarioKind::Enomem)
    } else {
        None
    }
}

/// The mode with a name.
pub open spec fn mode_named(v: Seq<char>) -> Option<ChaosMode> {
    if v == "off"@ {
        Some(ChaosMode::Off)
    } else if v == "cooperative"@ {
        Some(ChaosMode::Cooperative)
    } else if v == "native-concurrent"@ {
        Some(ChaosMode::NativeConcurrent)
    } else if v == "preemptive"@ {
        Some(ChaosMode::Preemptive)
    } else {
        None
    }
}

/// The mode with a name.
pub fn parse_mode(v: &str) -> (r: Option<ChaosMode>)
    ensures
        r == mode_named(v@),
{
    if same_text(v, "off") {
        Some(ChaosMode::Off)
    } else if same_text(v, "cooperative") {
        Some(ChaosMode::Cooperative)
    } else if same_text(v, "native-concurrent") {
        Some(ChaosMode::NativeConcurrent)
    } else if same_text(v, "preemptive") {
        Some(ChaosMode::Preemptive)
    } else {
        None
    }
}

/// The name of what preemption counts.
pub open spec fn event_name(e: PmuEvent) -> Seq<char> {
    match e {
        PmuEvent::RetiredBranchConditional => "rbc"@,
        PmuEvent::InstructionsRetired => "insn"@,
    }
}

/// The name of what preemption counts.
pub fn break_on_name(e: PmuEvent) -> (r: &'static str)
    ensures
        r@ == event_name(e),
{
    match e {
        PmuEvent::RetiredBranchConditional => "rbc",
        PmuEvent::InstructionsRetired => "insn",
    }
}

/// What preemption counts, by its name.
pub open spec fn event_named(v: Seq<char>) -> Option<PmuEvent> {
    if v == "rbc"@ {
        Some(PmuEvent::RetiredBranchConditional)
    } else if v == "insn"@ {
        Some(PmuEvent::InstructionsRetired)
    } else {
        None
    }
}

/// What preemption counts, by its name.
pub fn parse_break_on(v: &str) -> (r: Option<PmuEvent>)
    ensures
        r == event_named(v@),
{
    if same_text(v, "rbc") {
        Some(PmuEvent::RetiredBranchConditional)
    } else if same_text(v, "insn") {
        Some(PmuEvent::InstructionsRetired)
    } else {
        None
    }
}

/// What preemption counts survives being written down.
pub proof fn law_events_survive_their_names(e: PmuEvent)
    ensures
        event_named(event_name(e)) == Some(e),
{
    reveal_strlit("rbc");
    reveal_strlit("insn");
    assert("rbc"@.len() == 3);
    assert("insn"@.len() == 4);
}

/// A number that fits in 32 bits.
pub open spec fn small_number(v: Seq<char>) -> Option<u32> {
    match unsigned_value(v) {
        Some(n) => if n <= u32::MAX {
            Some(n as u32)
        } else {
            None
        },
        None => None,
    }
}

/// A number that fits in 64 bits.
pub open spec fn number(v: Seq<char>) -> Option<u64> {
    match unsigned_value(v) {
        Some(n) => if n <= u64::MAX {
            Some(n as u64)
        } else {
            None
        },
        None => None,
    }
}

/// Whether a flag takes a value.
pub open spec fn takes_value(flag: Seq<char>) -> bool {
    flag == "--scenario"@ || flag == "--mode"@ || flag == "--break-on"@
        || flag == "--seed"@
        || flag == "--cpus"@
        || flag == "--tasks"@
        || flag == "--max-cgroups"@
        || flag == "--duration-ms"@
        || flag == "--window-ns"@
        || flag == "--timeslice-min"@
        || flag == "--timeslice-max"@
        || flag == "--tick-jitter-stddev-ns"@
        || flag == "--initial-tick-skew-ns"@
        || flag == "--run-jitter-cv-ppm"@
}

/// What is asked for once a flag has a value.
pub open spec fn with_value(a: Args, flag: Seq<char>, v: Seq<char>) -> Result<Args, ChaosErrorView> {
    let bad_small = Err(ChaosErrorView::BadValue { flag, value: v, why: u32_error(v) });
    let bad = Err(ChaosErrorView::BadValue { flag, value: v, why: u64_error(v) });
    if flag == "--scenario"@ {
        match scenario_named(v) {
            Some(scenario) => Ok(Args { scenario, ..a }),
            None => Err(ChaosErrorView::UnknownScenario(v)),
        }
    } else if flag == "--mode"@ {
        match mode_named(v) {
            Some(mode) => Ok(Args { mode, ..a }),
            None => Err(ChaosErrorView::UnknownMode(v)),
        }
    } else if flag == "--break-on"@ {
        match event_named(v) {
            Some(break_on) => Ok(Args { break_on, ..a }),
            None => Err(ChaosErrorView::UnknownBreakOn(v)),
        }
    } else if flag == "--seed"@ {
        match small_number(v) {
            Some(seed) => Ok(Args { seed, ..a }),
            None => bad_small,
        }
    } else if flag == "--cpus"@ {
        match small_number(v) {
            Some(cpus) => Ok(Args { cpus, ..a }),
            None => bad_small,
        }
    } else if flag == "--tasks"@ {
        match small_number(v) {
            Some(tasks) => Ok(Args { tasks, ..a }),
            None => bad_small,
        }
    } else if flag == "--max-cgroups"@ {
        match small_number(v) {
            Some(max_cgroups) => Ok(Args { max_cgroups, ..a }),
            None => bad_small,
        }
    } else if flag == "--duration-ms"@ {
        match number(v) {
            Some(duration_ms) => Ok(Args { duration_ms, ..a }),
            None => bad,
        }
    } else if flag == "--window-ns"@ {
        match number(v) {
            Some(window_ns) => Ok(Args { window_ns, ..a }),
            None => bad,
        }
    } else if flag == "--timeslice-min"@ {
        match number(v) {
            Some(timeslice_min) => Ok(Args { timeslice_min, ..a }),
            None => bad,
        }
    } else if flag == "--timeslice-max"@ {
        match number(v) {
            Some(timeslice_max) => Ok(Args { timeslice_max, ..a }),
            None => bad,
        }
    } else if flag == "--tick-jitter-stddev-ns"@ {
        match number(v) {
            Some(tick_jitter_stddev_ns) => Ok(Args { tick_jitter_stddev_ns, ..a }),
            None => bad,
        }
    } else if flag == "--initial-tick-skew-ns"@ {
        match number(v) {
            Some(initial_tick_skew_ns) => Ok(Args { initial_tick_skew_ns, ..a }),
            None => bad,
        }
    } else {
        match number(v) {
            Some(run_jitter_cv_ppm) => Ok(Args { run_jitter_cv_ppm, ..a }),
            None => bad,
        }
    }
}

/// What a command line asks for from a position on. Help wins over whatever
/// follows it.
pub open spec fn parsed(raw: Seq<String>, i: int, a: Args) -> Result<ChaosRequest, ChaosErrorView>
    decreases raw.len() - i,
{
    if i < 0 || i >= raw.len() {
        if a.timeslice_max < a.timeslice_min {
            Err(ChaosErrorView::BadTimeslices)
        } else {
            Ok(ChaosRequest::Run(a))
        }
    } else {
        let flag = raw[i]@;
        if flag == "--fixed-priority"@ {
            parsed(raw, i + 1, Args { fixed_priority: true, ..a })
        } else if flag == "--expect-cgroup-exhausted"@ {
            parsed(raw, i + 1, Args { expect_cgroup_exhausted: true, ..a })
        } else if flag == "--help"@ || flag == "-h"@ {
            Ok(ChaosRequest::Help)
        } else if takes_value(flag) {
            if i + 1 >= raw.len() {
                Err(ChaosErrorView::MissingValue(flag))
            } else {
                match with_value(a, flag, raw[i + 1]@) {
                    Ok(next) => parsed(raw, i + 2, next),
                    Err(e) => Err(e),
                }
            }
        } else {
            Err(ChaosErrorView::UnknownFlag(flag))
        }
    }
}

/// Whether a result is another as contracts see it.
pub open spec fn same_result<T>(r: Result<T, ChaosError>, s: Result<T, ChaosErrorView>) -> bool {
    match r {
        Ok(v) => s == Ok::<T, ChaosErrorView>(v),
        Err(e) => s == Err::<T, ChaosErrorView>(e@),
    }
}

fn does_take_value(flag: &str) -> (r: bool)
    ensures
        r == takes_value(flag@),
{
    same_text(flag, "--scenario") || same_text(flag, "--mode") || same_text(flag, "--break-on")
        || same_text(flag, "--seed")
        || same_text(flag, "--cpus")
        || same_text(flag, "--tasks")
        || same_text(flag, "--max-cgroups")
        || same_text(flag, "--duration-ms")
        || same_text(flag, "--window-ns")
        || same_text(flag, "--timeslice-min")
        || same_text(flag, "--timeslice-max")
        || same_text(flag, "--tick-jitter-stddev-ns")
        || same_text(flag, "--initial-tick-skew-ns")
        || same_text(flag, "--run-jitter-cv-ppm")
}

fn read_small(flag: &str, v: &str) -> (r: Result<u32, ChaosError>)
    ensures
        match r {
            Ok(n) => small_number(v@) == Some(n),
            Err(e) => small_number(v@) is None && e@ == (ChaosErrorView::BadValue {
                flag: flag@,
                value: v@,
                why: u32_error(v@),
            }),
        },
{
    match parse_u32(v) {
        Some(n) => Ok(n),
        None => Err(
            ChaosError::BadValue {
                flag: flag.to_string(),
                value: v.to_string(),
                why: why_no_u32(v),
            },
        ),
    }
}

fn read_number(flag: &str, v: &str) -> (r: Result<u64, ChaosError>)
    ensures
        match r {
            Ok(n) => number(v@) == Some(n),
            Err(e) => number(v@) is None && e@ == (ChaosErrorView::BadValue {
                flag: flag@,
                value: v@,
                why: u64_error(v@),
            }),
        },
{
    match parse_u64(v) {
        Some(n) => Ok(n),
        None => Err(
            ChaosError::BadValue {
                flag: flag.to_string(),
                value: v.to_string(),
                why: why_no_u64(v),
            },
        ),
    }
}

fn take_value(a: Args, flag: &str, v: &str) -> (r: Result<Args, ChaosError>)
    requires
        takes_value(flag@),
    ensures
        same_result(r, with_value(a, flag@, v@)),
{
    if same_text(flag, "--scenario") {
        match parse_scenario(v) {
            Some(scenario) => Ok(Args { scenario, ..a }),
            None => Err(ChaosError::UnknownScenario(v.to_string())),
        }
    } else if same_text(flag, "--mode") {
        match parse_mode(v) {
            Some(mode) => Ok(Args { mode, ..a }),
            None => Err(ChaosError::UnknownMode(v.to_string())),
        }
    } else if same_text(flag, "--break-on") {
        match parse_break_on(v) {
            Some(break_on) => Ok(Args { break_on, ..a }),
            None => Err(ChaosError::UnknownBreakOn(v.to_string())),
        }
    } else if same_text(flag, "--seed") {
        match read_small(flag, v) {
            Ok(seed) => Ok(Args { seed, ..a }),
            Err(e) => Err(e),
        }
    } else if same_text(flag, "--cpus") {
        match read_small(flag, v) {
            Ok(cpus) => Ok(Args { cpus, ..a }),
            Err(e) => Err(e),
        }
    } else if same_text(flag, "--tasks") {
        match read_small(flag, v) {
            Ok(tasks) => Ok(Args { tasks, ..a }),
            Err(e) => Err(e),
        }
    } else if same_text(flag, "--max-cgroups") {
        match read_small(flag, v) {
            Ok(max_cgroups) => Ok(Args { max_cgroups, ..a }),
            Err(e) => Err(e),
        }
    } else if same_text(flag, "--duration-ms") {
        match read_number(flag, v) {
            Ok(duration_ms) => Ok(Args { duration_ms, ..a }),
            Err(e) => Err(e),
        }
    } else if same_text(flag, "--window-ns") {
        match read_number(flag, v) {
            Ok(window_ns) => Ok(Args { window_ns, ..a }),
            Err(e) => Err(e),
        }
    } else if same_text(flag, "--timeslice-min") {
        match read_number(flag, v) {
            Ok(timeslice_min) => Ok(Args { timeslice_min, ..a }),
            Err(e) => Err(e),
        }
    } else if same_text(flag, "--timeslice-max") {
        match read_number(flag, v) {
            Ok(timeslice_max) => Ok(Args { timeslice_max, ..a }),
            Err(e) => Err(e),
        }
    } else if same_text(flag, "--tick-jitter-stddev-ns") {
        match read_number(flag, v) {
            Ok(tick_jitter_stddev_ns) => Ok(Args { tick_jitter_stddev_ns, ..a }),
            Err(e) => Err(e),
        }
    } else if same_text(flag, "--initial-tick-skew-ns") {
        match read_number(flag, v) {
            Ok(initial_tick_skew_ns) => Ok(Args { initial_tick_skew_ns, ..a }),
            Err(e) => Err(e),
        }
    } else {
        match read_number(flag, v) {
            Ok(run_jitter_cv_ppm) => Ok(Args { run_jitter_cv_ppm, ..a }),
            Err(e) => Err(e),
        }
    }
}

/// Reads a command line.
pub fn parse_args(raw: &Vec<String>) -> (r: Result<ChaosRequest, ChaosError>)
    ensures
        same_result(r, parsed(raw@, 0, default_args())),
{
    let mut a = Args {
        scenario: ScenarioKind::Throttle,
        mode: ChaosMode::Off,
        seed: 42,
        cpus: 4,
        tasks: 8,
        duration_ms: 100,
        window_ns: 10_000_000,
        timeslice_min: 300,
        timeslice_max: 1500,
        break_on: PmuEvent::RetiredBranchConditional,
        fixed_priority: false,
        tick_jitter_stddev_ns: 2_000,
        initial_tick_skew_ns: 0,
        run_jitter_cv_ppm: 200_000,
        max_cgroups: 10_000,
        expect_cgroup_exhausted: false,
    };
    let mut i: usize = 0;
    while i < raw.len()
        invariant
            i <= raw@.len(),
            parsed(raw@, 0, default_args()) == parsed(raw@, i as int, a),
        decreases raw@.len() - i,
    {
        let flag = raw[i].as_str();
        if same_text(flag, "--fixed-priority") {
            a = Args { fixed_priority: true, ..a };
            i = i + 1;
        } else if same_text(flag, "--expect-cgroup-exhausted") {
            a = Args { expect_cgroup_exhausted: true, ..a };
            i = i + 1;
        } else if same_text(flag, "--help") || same_text(flag, "-h") {
            return Ok(ChaosRequest::Help);
        } else if does_take_value(flag) {
            if raw.len() - i < 2 {
                return Err(ChaosError::MissingValue(flag.to_string()));
            }
            match take_value(a, flag, raw[i + 1].as_str()) {
                Ok(next) => {
                    a = next;
                },
                Err(e) => {
                    return Err(e);
                },
            }
            i = i + 2;
        } else {
            return Err(ChaosError::UnknownFlag(flag.to_string()));
        }
    }
    if a.timeslice_max < a.timeslice_min {
        return Err(ChaosError::BadTimeslices);
    }
    Ok(ChaosRequest::Run(a))
}

/// Whoever is not refused has a timeslice to choose: the longest is not shorter
/// than the shortest.
pub proof fn law_accepted_timeslices_are_ordered(raw: Seq<String>, i: int, a: Args)
    ensures
        parsed(raw, i, a) matches Ok(ChaosRequest::Run(b)) ==> b.timeslice_min <= b.timeslice_max,
    decreases raw.len() - i,
{
    if 0 <= i < raw.len() {
        let flag = raw[i]@;
        if flag == "--fixed-priority"@ {
            law_accepted_timeslices_are_ordered(raw, i + 1, Args { fixed_priority: true, ..a });
        } else if flag == "--expect-cgroup-exhausted"@ {
            law_accepted_timeslices_are_ordered(
                raw,
                i + 1,
                Args { expect_cgroup_exhausted: true, ..a },
            );
        } else if takes_value(flag) && i + 1 < raw.len() {
            match with_value(a, flag, raw[i + 1]@) {
                Ok(next) => law_accepted_timeslices_are_ordered(raw, i + 2, next),
                Err(_) => {},
            }
        }
    }
}

/// What a run came to.
pub fn classify(expect_cgroup_exhausted: bool, exit: &crate::trace::ExitKind) -> (r: &'static str)
    ensures
        r@ == if expect_cgroup_exhausted && exit is ErrorCgroupExhausted {
            "expected_cgroup_exhausted"@
        } else if exit is Normal {
            "pass"@
        } else {
            "sim_error"@
        },
{
    let exhausted = match exit {
        crate::trace::ExitKind::ErrorCgroupExhausted { .. } => true,
        _ => false,
    };
    if expect_cgroup_exhausted && exhausted {
        "expected_cgroup_exhausted"
    } else if exit.is_error() {
        "sim_error"
    } else {
        "pass"
    }
}

/// A task as contracts see it.
#[verifier::ext_equal]
pub struct TaskView {
    pub pid: Pid,
    pub name: Seq<char>,
    pub nice: i8,
    pub phases: Seq<Phase>,
    pub repeat: RepeatMode,
    pub start_time_ns: TimeNs,
    pub restricted: bool,
    pub parent_pid: Option<Pid>,
    pub cgroup_name: Option<Seq<char>>,
}

/// What contracts see of a task.
pub open spec fn task_view(t: TaskDef) -> TaskView {
    TaskView {
        pid: t.pid,
        name: t.name@,
        nice: t.nice,
        phases: t.behavior.phases@,
        repeat: t.behavior.repeat,
        start_time_ns: t.start_time_ns,
        restricted: t.allowed_cpus is Some,
        parent_pid: t.parent_pid,
        cgroup_name: match t.cgroup_name {
            Some(n) => Some(n@),
            None => None,
        },
    }
}

/// A task that repeats its phases forever, the one with an index.
pub open spec fn forever_task(i: int, name: Seq<char>, phases: Seq<Phase>, group: Option<Seq<char>>) -> TaskView {
    TaskView {
        pid: Pid((i + 1) as i32),
        name,
        nice: 0,
        phases,
        repeat: RepeatMode::Forever,
        start_time_ns: 0,
        restricted: false,
        parent_pid: None,
        cgroup_name: group,
    }
}

fn make_task(i: u32, name: String, phases: Vec<Phase>, group: Option<String>) -> (r: TaskDef)
    requires
        i < 0x7FFF_FFFF,
    ensures
        task_view(r) == forever_task(
            i as int,
            name@,
            phases@,
            match group {
                Some(g) => Some(g@),
                None => None,
            },
        ),
{
    TaskDef {
        pid: Pid((i + 1) as i32),
        name,
        nice: 0,
        behavior: TaskBehavior { phases, repeat: RepeatMode::Forever },
        start_time_ns: 0,
        allowed_cpus: None,
        parent_pid: None,
        cgroup_name: group,
    }
}

/// A group as contracts see it.
#[verifier::ext_equal]
pub struct GroupView {
    pub name: Seq<char>,
    pub parent_name: Option<Seq<char>>,
    pub cpuset: Option<Seq<CpuId>>,
    pub bandwidth: Option<BandwidthDef>,
}

/// What contracts see of a group.
pub open spec fn group_view(g: CgroupDef) -> GroupView {
    GroupView {
        name: g.name@,
        parent_name: match g.parent_name {
            Some(n) => Some(n@),
            None => None,
        },
        cpuset: match g.cpuset {
            Some(c) => Some(c@),
            None => None,
        },
        bandwidth: g.bandwidth,
    }
}

/// The first `n` CPUs.
pub open spec fn first_cpus(n: u32) -> Seq<CpuId> {
    Seq::new(n as nat, |i: int| CpuId(i as u32))
}

/// A group on all CPUs.
pub open spec fn group_on_all(name: Seq<char>, cpus: u32, bandwidth: Option<BandwidthDef>) -> GroupView {
    GroupView { name, parent_name: None, cpuset: Some(first_cpus(cpus)), bandwidth }
}

fn all_cpus(n: u32) -> (r: Vec<CpuId>)
    ensures
        r@ == first_cpus(n),
{
    let mut v: Vec<CpuId> = Vec::new();
    let mut i: u32 = 0;
    while i < n
        invariant
            i <= n,
            v@ == first_cpus(i),
        decreases n - i,
    {
        v.push(CpuId(i));
        i = i + 1;
        proof {
            assert(v@ =~= first_cpus(i));
        }
    }
    v
}

fn make_group(name: String, cpus: u32, bandwidth: Option<BandwidthDef>) -> (r: CgroupDef)
    ensures
        group_view(r) == group_on_all(name@, cpus, bandwidth),
{
    CgroupDef { name, parent_name: None, cpuset: Some(all_cpus(cpus)), bandwidth }
}

/// A move between groups as contracts see it.
#[verifier::ext_equal]
pub struct MoveView {
    pub at_ns: TimeNs,
    pub pid: Pid,
    pub from: Seq<char>,
    pub to: Seq<char>,
}

/// What contracts see of a move.
pub open spec fn move_view(m: CgroupMigrateEvent) -> MoveView {
    MoveView { at_ns: m.at_ns, pid: m.pid, from: m.from_cgroup@, to: m.to_cgroup@ }
}

/// What contracts see of moves.
pub open spec fn move_views(v: Seq<CgroupMigrateEvent>) -> Seq<MoveView> {
    v.map_values(|m: CgroupMigrateEvent| move_view(m))
}

fn add_move(v: &mut Vec<CgroupMigrateEvent>, at_ns: TimeNs, pid: Pid, from: String, to: String)
    ensures
        move_views(final(v)@) == move_views(old(v)@).push(
            MoveView { at_ns, pid, from: from@, to: to@ },
        ),
{
    let ghost before = v@;
    let m = CgroupMigrateEvent { at_ns, pid, from_cgroup: from, to_cgroup: to };
    let ghost view = move_view(m);
    v.push(m);
    proof {
        assert(move_views(v@) =~= move_views(before).push(view));
    }
}

/// Tasks as contracts see them.
pub open spec fn task_views(v: Seq<TaskDef>) -> Seq<TaskView> {
    v.map_values(|t: TaskDef| task_view(t))
}

fn add_task(v: &mut Vec<TaskDef>, t: TaskDef)
    ensures
        task_views(final(v)@) == task_views(old(v)@).push(task_view(t)),
        final(v)@.len() == old(v)@.len() + 1,
{
    let ghost before = v@;
    let ghost view = task_view(t);
    v.push(t);
    proof {
        assert(task_views(v@) =~= task_views(before).push(view));
    }
}

/// Groups as contracts see them.
pub open spec fn group_views(v: Seq<CgroupDef>) -> Seq<GroupView> {
    v.map_values(|g: CgroupDef| group_view(g))
}

fn add_group(v: &mut Vec<CgroupDef>, g: CgroupDef)
    ensures
        group_views(final(v)@) == group_views(old(v)@).push(group_view(g)),
{
    let ghost before = v@;
    let ghost view = group_view(g);
    v.push(g);
    proof {
        assert(group_views(v@) =~= group_views(before).push(view));
    }
}

/// The greater of two numbers.
pub open spec fn at_least(a: u32, b: u32) -> u32 {
    if a < b {
        b
    } else {
        a
    }
}

/// The lesser of two numbers.
pub open spec fn at_most(a: u32, b: u32) -> u32 {
    if a > b {
        b
    } else {
        a
    }
}

fn floor_at(a: u32, b: u32) -> (r: u32)
    ensures
        r == at_least(a, b),
{
    if a < b {
        b
    } else {
        a
    }
}

fn cap_at(a: u32, b: u32) -> (r: u32)
    ensures
        r == at_most(a, b),
{
    if a > b {
        b
    } else {
        a
    }
}

/// How long a run takes.
pub open spec fn duration_of(a: Args) -> TimeNs {
    (a.duration_ms * 1_000_000) as u64
}

/// Into how many groups a churning run spreads its tasks.
pub open spec fn churn_groups(a: Args) -> u32 {
    at_most(at_least(a.tasks / 4, 4), 32)
}

/// The first `n` tasks of a run.
pub open spec fn tasks_of(a: Args, n: nat) -> Seq<TaskView> {
    let busy = seq![Phase::Run(duration_of(a))];
    Seq::new(
        n,
        |i: int|
            match a.scenario {
                ScenarioKind::Throttle => forever_task(
                    i,
                    "hog-"@ + decimal(i as nat),
                    busy,
                    Some("limited"@),
                ),
                ScenarioKind::R3Like => forever_task(
                    i,
                    "yes-like-"@ + decimal(i as nat),
                    busy,
                    Some("limited"@),
                ),
                ScenarioKind::Churn => forever_task(
                    i,
                    "task-"@ + decimal(i as nat),
                    busy,
                    Some("group_"@ + decimal((i as u32 % churn_groups(a)) as nat)),
                ),
                ScenarioKind::Lifecycle => forever_task(
                    i,
                    "worker"@,
                    seq![Phase::Run(500_000), Phase::Sleep(500_000)],
                    None,
                ),
                ScenarioKind::Enomem => forever_task(
                    i,
                    "worker"@,
                    seq![Phase::Run(1_000_000), Phase::Sleep(1_000_000)],
                    None,
                ),
            },
    )
}

/// How many tasks a run has.
pub open spec fn task_count(a: Args) -> u32 {
    match a.scenario {
        ScenarioKind::Throttle => at_least(a.tasks, 2),
        ScenarioKind::R3Like => a.tasks,
        ScenarioKind::Churn => a.tasks,
        ScenarioKind::Lifecycle => 1,
        ScenarioKind::Enomem => 1,
    }
}

fn busy_phases(ns: TimeNs) -> (r: Vec<Phase>)
    ensures
        r@ == seq![Phase::Run(ns)],
{
    let mut v: Vec<Phase> = Vec::new();
    v.push(Phase::Run(ns));
    proof {
        assert(v@ =~= seq![Phase::Run(ns)]);
    }
    v
}

fn worker_phases(ns: TimeNs) -> (r: Vec<Phase>)
    ensures
        r@ == seq![Phase::Run(ns), Phase::Sleep(ns)],
{
    let mut v: Vec<Phase> = Vec::new();
    v.push(Phase::Run(ns));
    v.push(Phase::Sleep(ns));
    proof {
        assert(v@ =~= seq![Phase::Run(ns), Phase::Sleep(ns)]);
    }
    v
}

fn numbered(head: &str, n: u32) -> (r: String)
    ensures
        r@ == head@ + decimal(n as nat),
{
    plus(head.to_string(), dec(n as u64).as_str())
}

fn count_groups(a: &Args) -> (r: u32)
    ensures
        r == churn_groups(*a),
        4 <= r <= 32,
{
    cap_at(floor_at(a.tasks / 4, 4), 32)
}

fn one_task(a: &Args, i: u32) -> (r: TaskDef)
    requires
        a.duration_ms * 1_000_000 <= u64::MAX,
        i < 0x7FFF_FFFF,
    ensures
        task_view(r) == tasks_of(*a, (i + 1) as nat)[i as int],
{
    let ns = a.duration_ms * 1_000_000;
    match a.scenario {
        ScenarioKind::Throttle => make_task(
            i,
            numbered("hog-", i),
            busy_phases(ns),
            Some("limited".to_string()),
        ),
        ScenarioKind::R3Like => make_task(
            i,
            numbered("yes-like-", i),
            busy_phases(ns),
            Some("limited".to_string()),
        ),
        ScenarioKind::Churn => {
            let groups = count_groups(a);
            make_task(
                i,
                numbered("task-", i),
                busy_phases(ns),
                Some(numbered("group_", i % groups)),
            )
        },
        ScenarioKind::Lifecycle => make_task(i, "worker".to_string(), worker_phases(500_000), None),
        ScenarioKind::Enomem => make_task(
            i,
            "worker".to_string(),
            worker_phases(1_000_000),
            None,
        ),
    }
}

fn build_tasks(a: &Args) -> (r: Vec<TaskDef>)
    requires
        a.duration_ms * 1_000_000 <= u64::MAX,
        a.tasks < 0x7FFF_FFFF,
    ensures
        task_views(r@) == tasks_of(*a, task_count(*a) as nat),
{
    let n = match a.scenario {
        ScenarioKind::Throttle => floor_at(a.tasks, 2),
        ScenarioKind::R3Like => a.tasks,
        ScenarioKind::Churn => a.tasks,
        ScenarioKind::Lifecycle => 1,
        ScenarioKind::Enomem => 1,
    };
    let mut tasks: Vec<TaskDef> = Vec::new();
    let mut i: u32 = 0;
    proof {
        assert(task_views(tasks@) =~= tasks_of(*a, 0));
    }
    while i < n
        invariant
            i <= n,
            n < 0x7FFF_FFFF,
            a.duration_ms * 1_000_000 <= u64::MAX,
            task_views(tasks@) == tasks_of(*a, i as nat),
        decreases n - i,
    {
        let t = one_task(a, i);
        add_task(&mut tasks, t);
        proof {
            assert(tasks_of(*a, i as nat).push(tasks_of(*a, (i + 1) as nat)[i as int])
                =~= tasks_of(*a, (i + 1) as nat));
        }
        i = i + 1;
    }
    tasks
}

/// The limit of a group.
pub open spec fn limit(period_us: u64, quota_us: u64, burst_us: u64) -> Option<BandwidthDef> {
    Some(BandwidthDef { period_us, quota_us, burst_us })
}

/// The groups of a run.
pub open spec fn groups_of(a: Args) -> Seq<GroupView> {
    match a.scenario {
        ScenarioKind::Throttle => seq![
            group_on_all("limited"@, a.cpus, limit(10_000, 2_000, 0)),
        ],
        ScenarioKind::R3Like => seq![
            group_on_all("limited"@, a.cpus, limit(10_000, 3_000, 0)),
            group_on_all("unlimited"@, a.cpus, None),
        ],
        ScenarioKind::Churn => Seq::new(
            churn_groups(a) as nat,
            |i: int|
                group_on_all("group_"@ + decimal(i as nat), a.cpus, limit(100_000, 80_000, 10_000)),
        ),
        ScenarioKind::Lifecycle => Seq::empty(),
        ScenarioKind::Enomem => Seq::empty(),
    }
}

fn build_groups(a: &Args) -> (r: Vec<CgroupDef>)
    ensures
        group_views(r@) == groups_of(*a),
{
    let mut groups: Vec<CgroupDef> = Vec::new();
    proof {
        assert(group_views(groups@) =~= Seq::<GroupView>::empty());
    }
    match a.scenario {
        ScenarioKind::Throttle => {
            add_group(
                &mut groups,
                make_group(
                    "limited".to_string(),
                    a.cpus,
                    Some(BandwidthDef { period_us: 10_000, quota_us: 2_000, burst_us: 0 }),
                ),
            );
        },
        ScenarioKind::R3Like => {
            add_group(
                &mut groups,
                make_group(
                    "limited".to_string(),
                    a.cpus,
                    Some(BandwidthDef { period_us: 10_000, quota_us: 3_000, burst_us: 0 }),
                ),
            );
            add_group(&mut groups, make_group("unlimited".to_string(), a.cpus, None));
        },
        ScenarioKind::Churn => {
            let n = count_groups(a);
            let ghost goal = groups_of(*a);
            let mut i: u32 = 0;
            proof {
                assert(goal.take(0) =~= Seq::<GroupView>::empty());
            }
            while i < n
                invariant
                    i <= n,
                    n == churn_groups(*a),
                    a.scenario is Churn,
                    goal == groups_of(*a),
                    group_views(groups@) == goal.take(i as int),
                decreases n - i,
            {
                add_group(
                    &mut groups,
                    make_group(
                        numbered("group_", i),
                        a.cpus,
                        Some(
                            BandwidthDef { period_us: 100_000, quota_us: 80_000, burst_us: 10_000 },
                        ),
                    ),
                );
                proof {
                    assert(goal.take(i as int).push(goal[i as int]) =~= goal.take(i + 1));
                }
                i = i + 1;
            }
            proof {
                assert(goal.take(i as int) =~= goal);
            }
        },
        ScenarioKind::Lifecycle => {},
        ScenarioKind::Enomem => {},
    }
    proof {
        assert(group_views(groups@) =~= groups_of(*a));
    }
    groups
}

/// The moves of the first `n` tasks out of their group and back.
pub open spec fn round_trips(n: nat) -> Seq<MoveView>
    decreases n,
{
    if n == 0 {
        Seq::empty()
    } else {
        let pid = Pid(n as i32);
        round_trips((n - 1) as nat).push(
            MoveView {
                at_ns: (25_000_000 + n * 50_000) as u64,
                pid,
                from: "limited"@,
                to: "unlimited"@,
            },
        ).push(
            MoveView {
                at_ns: (45_000_000 + n * 50_000) as u64,
                pid,
                from: "unlimited"@,
                to: "limited"@,
            },
        )
    }
}

/// The moves of the first `n` tasks of a churning run in a round: each to the
/// next group.
pub open spec fn shifts(moves: Seq<MoveView>, groups: u32, round: nat, n: nat) -> Seq<MoveView>
    decreases n,
{
    if n == 0 {
        moves
    } else {
        shifts(moves, groups, round, (n - 1) as nat).push(
            MoveView {
                at_ns: (10_000_000 + round * 5_000_000) as u64,
                pid: Pid(n as i32),
                from: "group_"@ + decimal(((n - 1 + round) % groups as int) as nat),
                to: "group_"@ + decimal(((n - 1 + round + 1) % groups as int) as nat),
            },
        )
    }
}

/// The moves of the first `r` rounds of a churning run.
pub open spec fn all_shifts(groups: u32, n: nat, r: nat) -> Seq<MoveView>
    decreases r,
{
    if r == 0 {
        Seq::empty()
    } else {
        shifts(all_shifts(groups, n, (r - 1) as nat), groups, (r - 1) as nat, n)
    }
}

/// How many rounds a churning run has.
pub const CHURN_ROUNDS: u32 = 20;

/// The moves of a run.
pub open spec fn moves_of(a: Args) -> Seq<MoveView> {
    match a.scenario {
        ScenarioKind::R3Like => round_trips(at_most(a.tasks, 64) as nat),
        ScenarioKind::Churn => all_shifts(
            churn_groups(a),
            at_most(a.tasks, 32) as nat,
            CHURN_ROUNDS as nat,
        ),
        _ => Seq::empty(),
    }
}

fn build_moves(a: &Args) -> (r: Vec<CgroupMigrateEvent>)
    ensures
        move_views(r@) == moves_of(*a),
{
    let mut moves: Vec<CgroupMigrateEvent> = Vec::new();
    proof {
        assert(move_views(moves@) =~= Seq::<MoveView>::empty());
    }
    match a.scenario {
        ScenarioKind::R3Like => {
            let n = cap_at(a.tasks, 64);
            let mut i: u32 = 0;
            while i < n
                invariant
                    i <= n,
                    n <= 64,
                    move_views(moves@) == round_trips(i as nat),
                decreases n - i,
            {
                i = i + 1;
                let offset = i as u64 * 50_000;
                add_move(
                    &mut moves,
                    25_000_000 + offset,
                    Pid(i as i32),
                    "limited".to_string(),
                    "unlimited".to_string(),
                );
                add_move(
                    &mut moves,
                    45_000_000 + offset,
                    Pid(i as i32),
                    "unlimited".to_string(),
                    "limited".to_string(),
                );
            }
        },
        ScenarioKind::Churn => {
            let groups = count_groups(a);
            let n = cap_at(a.tasks, 32);
            let mut round: u32 = 0;
            while round < CHURN_ROUNDS
                invariant
                    round <= CHURN_ROUNDS,
                    n <= 32,
                    4 <= groups <= 32,
                    move_views(moves@) == all_shifts(groups, n as nat, round as nat),
                decreases CHURN_ROUNDS - round,
            {
                let ghost start = move_views(moves@);
                let at_ns = 10_000_000 + round as u64 * 5_000_000;
                let mut i: u32 = 0;
                while i < n
                    invariant
                        i <= n,
                        n <= 32,
                        round < CHURN_ROUNDS,
                        4 <= groups <= 32,
                        at_ns == 10_000_000 + round * 5_000_000,
                        move_views(moves@) == shifts(start, groups, round as nat, i as nat),
                    decreases n - i,
                {
                    add_move(
                        &mut moves,
                        at_ns,
                        Pid((i + 1) as i32),
                        numbered("group_", (i + round) % groups),
                        numbered("group_", (i + round + 1) % groups),
                    );
                    i = i + 1;
                }
                round = round + 1;
            }
        },
        _ => {},
    }
    moves
}

/// An interrupt as contracts see it.
#[verifier::ext_equal]
pub struct IrqView {
    pub at_ns: TimeNs,
    pub cpu: CpuId,
    pub irq_type: IrqType,
    pub duration_ns: TimeNs,
    pub wake_pids: Seq<Pid>,
}

/// What contracts see of an interrupt.
pub open spec fn irq_view(e: IrqEvent) -> IrqView {
    IrqView {
        at_ns: e.at_ns,
        cpu: e.cpu,
        irq_type: e.irq_type,
        duration_ns: e.duration_ns,
        wake_pids: e.wake_pids@,
    }
}

/// What contracts see of interrupts.
pub open spec fn irq_views(v: Seq<IrqEvent>) -> Seq<IrqView> {
    v.map_values(|e: IrqEvent| irq_view(e))
}

/// Interrupts on a CPU from a time on, one in each period, while the run lasts.
pub open spec fn periodic(
    irqs: Seq<IrqView>,
    cpu: u32,
    at: int,
    period: int,
    duration: TimeNs,
    end: TimeNs,
) -> Seq<IrqView>
    decreases
        if at < end {
            end - at
        } else {
            0
        },
{
    if period <= 0 || at >= end {
        irqs
    } else {
        periodic(
            irqs.push(
                IrqView {
                    at_ns: at as u64,
                    cpu: CpuId(cpu),
                    irq_type: IrqType::SoftIrq,
                    duration_ns: duration,
                    wake_pids: Seq::empty(),
                },
            ),
            cpu,
            at + period,
            period,
            duration,
            end,
        )
    }
}

/// The interrupts on the first `n` CPUs.
pub open spec fn irqs_on(end: TimeNs, n: nat) -> Seq<IrqView>
    decreases n,
{
    if n == 0 {
        Seq::empty()
    } else {
        let cpu = (n - 1) as u32;
        periodic(
            irqs_on(end, (n - 1) as nat),
            cpu,
            5_000_000 + cpu * 250_000,
            2_000_000,
            25_000,
            end,
        )
    }
}

/// The interrupts of a run.
pub open spec fn irqs_of(a: Args) -> Seq<IrqView> {
    match a.scenario {
        ScenarioKind::R3Like => irqs_on(duration_of(a), at_most(a.cpus, 8) as nat),
        _ => Seq::empty(),
    }
}

fn add_periodic(
    irqs: &mut Vec<IrqEvent>,
    cpu: u32,
    start: TimeNs,
    period: TimeNs,
    duration: TimeNs,
    end: TimeNs,
)
    requires
        period > 0,
    ensures
        irq_views(final(irqs)@) == periodic(
            irq_views(old(irqs)@),
            cpu,
            start as int,
            period as int,
            duration,
            end,
        ),
{
    let ghost goal = periodic(
        irq_views(irqs@),
        cpu,
        start as int,
        period as int,
        duration,
        end,
    );
    let mut at = start;
    while at < end
        invariant
            period > 0,
            goal == periodic(
                irq_views(old(irqs)@),
                cpu,
                start as int,
                period as int,
                duration,
                end,
            ),
            goal == periodic(irq_views(irqs@), cpu, at as int, period as int, duration, end),
        decreases
            if at < end {
                end - at
            } else {
                0
            },
    {
        let ghost before = irqs@;
        let e = IrqEvent {
            at_ns: at,
            cpu: CpuId(cpu),
            irq_type: IrqType::SoftIrq,
            duration_ns: duration,
            wake_pids: Vec::new(),
        };
        let ghost view = irq_view(e);
        irqs.push(e);
        proof {
            assert(irq_views(irqs@) =~= irq_views(before).push(view));
            assert(view.wake_pids =~= Seq::<Pid>::empty());
        }
        match at.checked_add(period) {
            Some(next) => {
                at = next;
            },
            None => {
                proof {
                    assert(periodic(
                        irq_views(irqs@),
                        cpu,
                        at + period,
                        period as int,
                        duration,
                        end,
                    ) == irq_views(irqs@));
                }
                return;
            },
        }
    }
}

fn build_irqs(a: &Args) -> (r: Vec<IrqEvent>)
    requires
        a.duration_ms * 1_000_000 <= u64::MAX,
    ensures
        irq_views(r@) == irqs_of(*a),
{
    let mut irqs: Vec<IrqEvent> = Vec::new();
    proof {
        assert(irq_views(irqs@) =~= Seq::<IrqView>::empty());
    }
    if matches!(a.scenario, ScenarioKind::R3Like) {
        let end = a.duration_ms * 1_000_000;
        let n = cap_at(a.cpus, 8);
        let mut cpu: u32 = 0;
        while cpu < n
            invariant
                cpu <= n,
                n <= 8,
                irq_views(irqs@) == irqs_on(end, cpu as nat),
            decreases n - cpu,
        {
            add_periodic(&mut irqs, cpu, 5_000_000 + cpu as u64 * 250_000, 2_000_000, 25_000, end);
            cpu = cpu + 1;
        }
    }
    irqs
}

/// The birth or the end of a group as contracts see it.
pub type GroupEventView = (TimeNs, Seq<char>);

/// The name of a short-lived group.
pub open spec fn cycle_name(cycle: nat, i: nat) -> Seq<char> {
    "cycle"@ + decimal(cycle) + "_"@ + decimal(i)
}

/// The births in the first `n` cycles, or the ends with a delay: four in each
/// cycle.
pub open spec fn cycle_events(n: nat, delay: int) -> Seq<GroupEventView>
    decreases n,
{
    if n == 0 {
        Seq::empty()
    } else {
        let c = (n - 1) as nat;
        let base = c * 15_000_000 + delay;
        cycle_events(c, delay).push((base as u64, cycle_name(c, 0))).push(
            ((base + 1_000_000) as u64, cycle_name(c, 1)),
        ).push(((base + 2_000_000) as u64, cycle_name(c, 2))).push(
            ((base + 3_000_000) as u64, cycle_name(c, 3)),
        )
    }
}

/// The births of the first `n` groups of a run without room for all.
pub open spec fn containers(n: nat) -> Seq<GroupEventView>
    decreases n,
{
    if n == 0 {
        Seq::empty()
    } else {
        containers((n - 1) as nat).push(
            (((n - 1) * 1_000_000) as u64, "container_"@ + decimal((n - 1) as nat)),
        )
    }
}

/// How many cycles a run has.
pub open spec fn cycle_count(a: Args) -> u32 {
    (at_most(at_least(a.tasks, 8), 64) / 4) as u32
}

/// The births of a run's groups.
pub open spec fn births_of(a: Args) -> Seq<GroupEventView> {
    match a.scenario {
        ScenarioKind::Lifecycle => cycle_events(cycle_count(a) as nat, 0),
        ScenarioKind::Enomem => containers(at_least(a.tasks, 20) as nat),
        _ => Seq::empty(),
    }
}

/// The ends of a run's groups.
pub open spec fn ends_of(a: Args) -> Seq<GroupEventView> {
    match a.scenario {
        ScenarioKind::Lifecycle => cycle_events(cycle_count(a) as nat, 8_000_000),
        _ => Seq::empty(),
    }
}

/// What contracts see of births. A group is born without a parent and without
/// CPUs of its own.
pub open spec fn birth_views(v: Seq<CgroupCreateEvent>) -> Seq<GroupEventView> {
    v.map_values(|e: CgroupCreateEvent| (e.at_ns, e.name@))
}

/// Whether births are plain: without a parent and without CPUs of their own.
pub open spec fn are_plain(v: Seq<CgroupCreateEvent>) -> bool {
    forall|i: int|
        0 <= i < v.len() ==> (#[trigger] v[i]).parent_name is None && v[i].cpuset is None
}

/// What contracts see of ends.
pub open spec fn end_views(v: Seq<CgroupDestroyEvent>) -> Seq<GroupEventView> {
    v.map_values(|e: CgroupDestroyEvent| (e.at_ns, e.name@))
}

fn add_birth(v: &mut Vec<CgroupCreateEvent>, at_ns: TimeNs, name: String)
    requires
        are_plain(old(v)@),
    ensures
        birth_views(final(v)@) == birth_views(old(v)@).push((at_ns, name@)),
        are_plain(final(v)@),
{
    let ghost before = v@;
    let ghost view = (at_ns, name@);
    v.push(CgroupCreateEvent { at_ns, name, parent_name: None, cpuset: None });
    proof {
        assert(birth_views(v@) =~= birth_views(before).push(view));
    }
}

fn add_end(v: &mut Vec<CgroupDestroyEvent>, at_ns: TimeNs, name: String)
    ensures
        end_views(final(v)@) == end_views(old(v)@).push((at_ns, name@)),
{
    let ghost before = v@;
    let ghost view = (at_ns, name@);
    v.push(CgroupDestroyEvent { at_ns, name });
    proof {
        assert(end_views(v@) =~= end_views(before).push(view));
    }
}

fn name_cycle(cycle: u32, i: u32) -> (r: String)
    ensures
        r@ == cycle_name(cycle as nat, i as nat),
{
    plus(
        plus(plus("cycle".to_string(), dec(cycle as u64).as_str()), "_"),
        dec(i as u64).as_str(),
    )
}

fn count_cycles(a: &Args) -> (r: u32)
    ensures
        r == cycle_count(*a),
        r <= 16,
{
    cap_at(floor_at(a.tasks, 8), 64) / 4
}

fn build_births(a: &Args) -> (r: Vec<CgroupCreateEvent>)
    ensures
        birth_views(r@) == births_of(*a),
        are_plain(r@),
{
    let mut v: Vec<CgroupCreateEvent> = Vec::new();
    proof {
        assert(birth_views(v@) =~= Seq::<GroupEventView>::empty());
    }
    match a.scenario {
        ScenarioKind::Lifecycle => {
            let n = count_cycles(a);
            let mut c: u32 = 0;
            while c < n
                invariant
                    c <= n,
                    n <= 16,
                    are_plain(v@),
                    birth_views(v@) == cycle_events(c as nat, 0),
                decreases n - c,
            {
                let base = c as u64 * 15_000_000;
                add_birth(&mut v, base, name_cycle(c, 0));
                add_birth(&mut v, base + 1_000_000, name_cycle(c, 1));
                add_birth(&mut v, base + 2_000_000, name_cycle(c, 2));
                add_birth(&mut v, base + 3_000_000, name_cycle(c, 3));
                c = c + 1;
            }
        },
        ScenarioKind::Enomem => {
            let n = floor_at(a.tasks, 20);
            let mut i: u32 = 0;
            while i < n
                invariant
                    i <= n,
                    are_plain(v@),
                    birth_views(v@) == containers(i as nat),
                decreases n - i,
            {
                add_birth(&mut v, i as u64 * 1_000_000, numbered("container_", i));
                i = i + 1;
            }
        },
        _ => {},
    }
    v
}

fn build_ends(a: &Args) -> (r: Vec<CgroupDestroyEvent>)
    ensures
        end_views(r@) == ends_of(*a),
{
    let mut v: Vec<CgroupDestroyEvent> = Vec::new();
    proof {
        assert(end_views(v@) =~= Seq::<GroupEventView>::empty());
    }
    match a.scenario {
        ScenarioKind::Lifecycle => {
            let n = count_cycles(a);
            let mut c: u32 = 0;
            while c < n
                invariant
                    c <= n,
                    n <= 16,
                    end_views(v@) == cycle_events(c as nat, 8_000_000),
                decreases n - c,
            {
                let base = c as u64 * 15_000_000 + 8_000_000;
                add_end(&mut v, base, name_cycle(c, 0));
                add_end(&mut v, base + 1_000_000, name_cycle(c, 1));
                add_end(&mut v, base + 2_000_000, name_cycle(c, 2));
                add_end(&mut v, base + 3_000_000, name_cycle(c, 3));
                c = c + 1;
            }
        },
        _ => {},
    }
    v
}

/// How a run's callbacks are interleaved.
pub open spec fn chaos_preemptive(base: Option<PreemptiveConfig>, a: Args) -> Option<PreemptiveConfig> {
    if a.mode is Preemptive {
        Some(
            PreemptiveConfig {
                timeslice_min: a.timeslice_min,
                timeslice_max: a.timeslice_max,
                cooperative_only: false,
                break_on: a.break_on,
                preempt_mode: PreemptMode::Pmu,
            },
        )
    } else {
        base
    }
}

fn choose_preemptive(base: Option<PreemptiveConfig>, a: &Args) -> (r: Option<PreemptiveConfig>)
    ensures
        r == chaos_preemptive(base, *a),
{
    if matches!(a.mode, ChaosMode::Preemptive) {
        Some(
            PreemptiveConfig {
                timeslice_min: a.timeslice_min,
                timeslice_max: a.timeslice_max,
                cooperative_only: false,
                break_on: a.break_on,
                preempt_mode: PreemptMode::Pmu,
            },
        )
    } else {
        base
    }
}

/// How a run's dispatch runs natively.
pub open spec fn chaos_native(base: Option<NativeConcurrentConfig>, a: Args) -> Option<
    NativeConcurrentConfig,
> {
    if a.mode is NativeConcurrent {
        Some(NativeConcurrentConfig { window_ns: a.window_ns })
    } else {
        base
    }
}

fn choose_native(base: Option<NativeConcurrentConfig>, a: &Args) -> (r: Option<
    NativeConcurrentConfig,
>)
    ensures
        r == chaos_native(base, *a),
{
    if matches!(a.mode, ChaosMode::NativeConcurrent) {
        Some(NativeConcurrentConfig { window_ns: a.window_ns })
    } else {
        base
    }
}

/// How many groups a run has room for.
pub open spec fn room_for(a: Args) -> u32 {
    if a.scenario is Enomem {
        at_most(a.max_cgroups, 16)
    } else {
        a.max_cgroups
    }
}

/// The random variation of a run's timing.
pub open spec fn noise_of(base: NoiseConfig, a: Args) -> NoiseConfig {
    NoiseConfig {
        run_jitter_cv_ppm: a.run_jitter_cv_ppm,
        tick_jitter_stddev_ns: a.tick_jitter_stddev_ns,
        initial_tick_skew_ns: a.initial_tick_skew_ns,
        ..base
    }
}

/// The random variation of a run's timing.
pub fn noise_config(base: NoiseConfig, a: &Args) -> (r: NoiseConfig)
    ensures
        r == noise_of(base, *a),
{
    NoiseConfig {
        run_jitter_cv_ppm: a.run_jitter_cv_ppm,
        tick_jitter_stddev_ns: a.tick_jitter_stddev_ns,
        initial_tick_skew_ns: a.initial_tick_skew_ns,
        ..base
    }
}

/// The watchdog of a run.
pub const CHAOS_WATCHDOG_NS: TimeNs = 500_000_000;

/// The scenario of a run, on top of a plain one.
pub fn build_scenario(base: Scenario, a: &Args) -> (r: Scenario)
    requires
        a.duration_ms * 1_000_000 <= u64::MAX,
        a.tasks < 0x7FFF_FFFF,
    ensures
        r == (Scenario {
            nr_cpus: a.cpus,
            seed: a.seed,
            fixed_priority: a.fixed_priority,
            noise: noise_of(base.noise, *a),
            max_cgroups: room_for(*a),
            ignore_bpf_errors: false,
            watchdog_timeout_ns: Some(CHAOS_WATCHDOG_NS),
            duration_ns: duration_of(*a),
            interleave: base.interleave || !(a.mode is Off),
            preemptive: chaos_preemptive(base.preemptive, *a),
            native_concurrent: chaos_native(base.native_concurrent, *a),
            tasks: r.tasks,
            cgroups: r.cgroups,
            cgroup_migrate_events: r.cgroup_migrate_events,
            cgroup_create_events: r.cgroup_create_events,
            cgroup_destroy_events: r.cgroup_destroy_events,
            irq_events: r.irq_events,
            ..base
        }),
        task_views(r.tasks@) == tasks_of(*a, task_count(*a) as nat),
        group_views(r.cgroups@) == groups_of(*a),
        move_views(r.cgroup_migrate_events@) == moves_of(*a),
        birth_views(r.cgroup_create_events@) == births_of(*a),
        are_plain(r.cgroup_create_events@),
        end_views(r.cgroup_destroy_events@) == ends_of(*a),
        irq_views(r.irq_events@) == irqs_of(*a),
{
    let max_cgroups = match a.scenario {
        ScenarioKind::Enomem => cap_at(a.max_cgroups, 16),
        _ => a.max_cgroups,
    };
    let off = match a.mode {
        ChaosMode::Off => true,
        _ => false,
    };
    Scenario {
        nr_cpus: a.cpus,
        seed: a.seed,
        fixed_priority: a.fixed_priority,
        noise: noise_config(base.noise, a),
        max_cgroups,
        ignore_bpf_errors: false,
        watchdog_timeout_ns: Some(CHAOS_WATCHDOG_NS),
        duration_ns: a.duration_ms * 1_000_000,
        interleave: base.interleave || !off,
        preemptive: choose_preemptive(base.preemptive, a),
        native_concurrent: choose_native(base.native_concurrent, a),
        tasks: build_tasks(a),
        cgroups: build_groups(a),
        cgroup_migrate_events: build_moves(a),
        cgroup_create_events: build_births(a),
        cgroup_destroy_events: build_ends(a),
        irq_events: build_irqs(a),
        ..base
    }
}

/// A run without room for all its groups asks for more groups than it has room
/// for.
pub proof fn law_enomem_asks_for_too_much(a: Args)
    requires
        a.scenario is Enomem,
    ensures
        births_of(a).len() > room_for(a),
{
    lemma_containers(at_least(a.tasks, 20) as nat);
}

proof fn lemma_containers(n: nat)
    ensures
        containers(n).len() == n,
    decreases n,
{
    if n > 0 {
        lemma_containers((n - 1) as nat);
    }
}

/// Every short-lived group ends after its birth: the lists of births and ends
/// name the same groups in the same order, each end eight milliseconds later.
pub proof fn law_cycles_end_what_they_begin(n: nat)
    requires
        n <= 16,
    ensures
        cycle_events(n, 0).len() == cycle_events(n, 8_000_000).len(),
        forall|i: int|
            0 <= i < cycle_events(n, 0).len() ==> (#[trigger] cycle_events(n, 0)[i]).1
                == cycle_events(n, 8_000_000)[i].1 && cycle_events(n, 8_000_000)[i].0
                == cycle_events(n, 0)[i].0 + 8_000_000,
    decreases n,
{
    if n > 0 {
        law_cycles_end_what_they_begin((n - 1) as nat);
    }
}

/// Each scenario and each mode goes by one name, and no other name stands for one.
pub proof fn law_names_stand_for_one_thing(v: Seq<char>)
    ensures
        scenario_named(v) == Some(ScenarioKind::Throttle) <==> v == "throttle"@,
        scenario_named(v) == Some(ScenarioKind::R3Like) <==> v == "r3-like"@,
        scenario_named(v) == Some(ScenarioKind::Churn) <==> v == "churn"@,
        scenario_named(v) == Some(ScenarioKind::Lifecycle) <==> v == "lifecycle"@,
        scenario_named(v) == Some(ScenarioKind::Enomem) <==> v == "enomem"@,
        mode_named(v) == Some(ChaosMode::Off) <==> v == "off"@,
        mode_named(v) == Some(ChaosMode::Cooperative) <==> v == "cooperative"@,
        mode_named(v) == Some(ChaosMode::NativeConcurrent) <==> v == "native-concurrent"@,
        mode_named(v) == Some(ChaosMode::Preemptive) <==> v == "preemptive"@,
        event_named(v) == Some(PmuEvent::RetiredBranchConditional) <==> v == "rbc"@,
        event_named(v) == Some(PmuEvent::InstructionsRetired) <==> v == "insn"@,
{
    reveal_strlit("throttle");
    reveal_strlit("r3-like");
    reveal_strlit("churn");
    reveal_strlit("lifecycle");
    reveal_strlit("enomem");
    reveal_strlit("off");
    reveal_strlit("cooperative");
    reveal_strlit("native-concurrent");
    reveal_strlit("preemptive");
    reveal_strlit("rbc");
    reveal_strlit("insn");
    assert("throttle"@[0] == 't' && "r3-like"@[0] == 'r' && "churn"@[0] == 'c' && "lifecycle"@[0]
        == 'l' && "enomem"@[0] == 'e');
    assert("off"@[0] == 'o' && "cooperative"@[0] == 'c' && "native-concurrent"@[0] == 'n'
        && "preemptive"@[0] == 'p');
    assert("rbc"@[0] == 'r' && "insn"@[0] == 'i');
}

proof fn lemma_flags_differ()
    ensures
        "--scenario"@.len() == 10 && "--scenario"@[2] == 's',
        "--mode"@.len() == 6 && "--mode"@[2] == 'm',
        "--break-on"@.len() == 10 && "--break-on"@[2] == 'b',
        "--seed"@.len() == 6 && "--seed"@[2] == 's',
        "--cpus"@.len() == 6 && "--cpus"@[2] == 'c',
        "--tasks"@.len() == 7,
        "--max-cgroups"@.len() == 13 && "--max-cgroups"@[2] == 'm',
        "--duration-ms"@.len() == 13 && "--duration-ms"@[2] == 'd',
        "--window-ns"@.len() == 11,
        "--timeslice-min"@.len() == 15 && "--timeslice-min"@[13] == 'i',
        "--timeslice-max"@.len() == 15 && "--timeslice-max"@[13] == 'a',
        "--tick-jitter-stddev-ns"@.len() == 23,
        "--initial-tick-skew-ns"@.len() == 22,
        "--run-jitter-cv-ppm"@.len() == 19,
        "--fixed-priority"@.len() == 16,
        "--expect-cgroup-exhausted"@.len() == 25,
        "--help"@.len() == 6 && "--help"@[2] == 'h',
        "-h"@.len() == 2,
{
    reveal_strlit("--scenario");
    reveal_strlit("--mode");
    reveal_strlit("--break-on");
    reveal_strlit("--seed");
    reveal_strlit("--cpus");
    reveal_strlit("--tasks");
    reveal_strlit("--max-cgroups");
    reveal_strlit("--duration-ms");
    reveal_strlit("--window-ns");
    reveal_strlit("--timeslice-min");
    reveal_strlit("--timeslice-max");
    reveal_strlit("--tick-jitter-stddev-ns");
    reveal_strlit("--initial-tick-skew-ns");
    reveal_strlit("--run-jitter-cv-ppm");
    reveal_strlit("--fixed-priority");
    reveal_strlit("--expect-cgroup-exhausted");
    reveal_strlit("--help");
    reveal_strlit("-h");
}

/// A flag with a number sets what it names to that number and leaves the rest; a number
/// that does not fit is refused with the flag and the value.
pub proof fn law_flags_set_what_they_name(a: Args, v: Seq<char>, n: u32, m: u64)
    ensures
        ({
            let fits = unsigned_value(v) == Some(n as nat);
            let fits_wide = unsigned_value(v) == Some(m as nat);
            &&& fits ==> {
                &&& with_value(a, "--seed"@, v) == Ok::<Args, ChaosErrorView>(Args { seed: n, ..a })
                &&& with_value(a, "--cpus"@, v) == Ok::<Args, ChaosErrorView>(Args { cpus: n, ..a })
                &&& with_value(a, "--tasks"@, v) == Ok::<Args, ChaosErrorView>(
                    Args { tasks: n, ..a },
                )
                &&& with_value(a, "--max-cgroups"@, v) == Ok::<Args, ChaosErrorView>(
                    Args { max_cgroups: n, ..a },
                )
            }
            &&& fits_wide ==> {
                &&& with_value(a, "--duration-ms"@, v) == Ok::<Args, ChaosErrorView>(
                    Args { duration_ms: m, ..a },
                )
                &&& with_value(a, "--window-ns"@, v) == Ok::<Args, ChaosErrorView>(
                    Args { window_ns: m, ..a },
                )
                &&& with_value(a, "--timeslice-min"@, v) == Ok::<Args, ChaosErrorView>(
                    Args { timeslice_min: m, ..a },
                )
                &&& with_value(a, "--timeslice-max"@, v) == Ok::<Args, ChaosErrorView>(
                    Args { timeslice_max: m, ..a },
                )
                &&& with_value(a, "--tick-jitter-stddev-ns"@, v) == Ok::<Args, ChaosErrorView>(
                    Args { tick_jitter_stddev_ns: m, ..a },
                )
                &&& with_value(a, "--initial-tick-skew-ns"@, v) == Ok::<Args, ChaosErrorView>(
                    Args { initial_tick_skew_ns: m, ..a },
                )
                &&& with_value(a, "--run-jitter-cv-ppm"@, v) == Ok::<Args, ChaosErrorView>(
                    Args { run_jitter_cv_ppm: m, ..a },
                )
            }
            &&& unsigned_value(v) is None || unsigned_value(v)->0 > u32::MAX ==> (with_value(
                a,
                "--seed"@,
                v,
            ) matches Err(ChaosErrorView::BadValue { flag, value, why }) && flag == "--seed"@
                && value == v)
            &&& unsigned_value(v) is None || unsigned_value(v)->0 > u64::MAX ==> (with_value(
                a,
                "--duration-ms"@,
                v,
            ) matches Err(ChaosErrorView::BadValue { flag, value, why }) && flag
                == "--duration-ms"@ && value == v)
        }),
{
    lemma_flags_differ();
}

/// A flag with a name sets what it names to what the name stands for; a name that stands
/// for nothing is refused as what it was meant to be.
pub proof fn law_named_flags_set_what_they_name(a: Args, v: Seq<char>)
    ensures
        scenario_named(v) is Some ==> with_value(a, "--scenario"@, v) == Ok::<
            Args,
            ChaosErrorView,
        >(Args { scenario: scenario_named(v)->0, ..a }),
        mode_named(v) is Some ==> with_value(a, "--mode"@, v) == Ok::<Args, ChaosErrorView>(
            Args { mode: mode_named(v)->0, ..a },
        ),
        event_named(v) is Some ==> with_value(a, "--break-on"@, v) == Ok::<Args, ChaosErrorView>(
            Args { break_on: event_named(v)->0, ..a },
        ),
        scenario_named(v) is None ==> with_value(a, "--scenario"@, v) == Err::<
            Args,
            ChaosErrorView,
        >(ChaosErrorView::UnknownScenario(v)),
        mode_named(v) is None ==> with_value(a, "--mode"@, v) == Err::<Args, ChaosErrorView>(
            ChaosErrorView::UnknownMode(v),
        ),
        event_named(v) is None ==> with_value(a, "--break-on"@, v) == Err::<Args, ChaosErrorView>(
            ChaosErrorView::UnknownBreakOn(v),
        ),
{
    lemma_flags_differ();
}

/// A command line is read from left to right. A switch turns on what it names; help is
/// given at once; a flag that takes a value takes the next word, which must be there; and
/// a word that is no flag is refused.
pub proof fn law_command_lines_are_read_from_left_to_right(raw: Seq<String>, i: int, a: Args)
    requires
        0 <= i < raw.len(),
    ensures
        ({
            let f = raw[i]@;
            let r = parsed(raw, i, a);
            &&& f == "--fixed-priority"@ ==> r == parsed(
                raw,
                i + 1,
                Args { fixed_priority: true, ..a },
            )
            &&& f == "--expect-cgroup-exhausted"@ ==> r == parsed(
                raw,
                i + 1,
                Args { expect_cgroup_exhausted: true, ..a },
            )
            &&& f == "--help"@ || f == "-h"@ ==> r == Ok::<ChaosRequest, ChaosErrorView>(
                ChaosRequest::Help,
            )
            &&& takes_value(f) && i + 1 == raw.len() ==> r == Err::<ChaosRequest, ChaosErrorView>(
                ChaosErrorView::MissingValue(f),
            )
            &&& takes_value(f) && i + 1 < raw.len() ==> {
                let next = with_value(a, f, raw[i + 1]@);
                &&& next is Ok ==> r == parsed(raw, i + 2, next->Ok_0)
                &&& next is Err ==> r == Err::<ChaosRequest, ChaosErrorView>(next->Err_0)
            }
            &&& !takes_value(f) && f != "--fixed-priority"@ && f
                != "--expect-cgroup-exhausted"@ && f != "--help"@ && f != "-h"@ ==> r == Err::<
                ChaosRequest,
                ChaosErrorView,
            >(ChaosErrorView::UnknownFlag(f))
        }),
        a.timeslice_min <= a.timeslice_max ==> parsed(raw, raw.len() as int, a) == Ok::<
            ChaosRequest,
            ChaosErrorView,
        >(ChaosRequest::Run(a)),
{
    lemma_flags_differ();
}

/// Which flags take a value.
pub proof fn law_flags_that_take_a_value()
    ensures
        takes_value("--scenario"@) && takes_value("--mode"@) && takes_value("--break-on"@),
        takes_value("--seed"@) && takes_value("--cpus"@) && takes_value("--tasks"@),
        takes_value("--max-cgroups"@) && takes_value("--duration-ms"@) && takes_value(
            "--window-ns"@,
        ),
        takes_value("--timeslice-min"@) && takes_value("--timeslice-max"@),
        takes_value("--tick-jitter-stddev-ns"@) && takes_value("--initial-tick-skew-ns"@)
            && takes_value("--run-jitter-cv-ppm"@),
        !takes_value("--fixed-priority"@) && !takes_value("--expect-cgroup-exhausted"@),
        !takes_value("--help"@) && !takes_value("-h"@),
{
    lemma_flags_differ();
}

/// What an error is about stands in what it says.
pub proof fn law_errors_say_what_they_are_about(v: Seq<char>, flag: Seq<char>, why: Seq<char>)
    ensures
        chaos_error_text(ChaosErrorView::MissingValue(v)) == v + " requires a value"@,
        chaos_error_text(ChaosErrorView::BadValue { flag, value: v, why }) == flag
            + ": failed to parse "@ + shown_quoted(v) + ": "@ + why,
        chaos_error_text(ChaosErrorView::UnknownScenario(v)) == "unknown scenario: "@ + v,
        chaos_error_text(ChaosErrorView::UnknownMode(v)) == "unknown mode: "@ + v,
        chaos_error_text(ChaosErrorView::UnknownBreakOn(v)) == "unknown --break-on value: "@ + v,
        chaos_error_text(ChaosErrorView::UnknownFlag(v)) == "unknown flag: "@ + v,
        chaos_error_text(ChaosErrorView::BadTimeslices)
            == "--timeslice-max must be >= --timeslice-min"@,
{
}

/// The tasks of a run are numbered from one, start at once, may use every CPU and go on
/// forever. Under a limit they compute for as long as the run lasts, in the group that the
/// run puts them in; otherwise they compute and sleep in turn, in none.
pub proof fn law_tasks_of_a_run(a: Args, n: nat, i: int)
    requires
        0 <= i < n,
        n < 0x7FFF_FFFF,
        a.duration_ms * 1_000_000 <= u64::MAX,
    ensures
        ({
            let t = tasks_of(a, n)[i];
            let busy = t.phases.len() == 1 && t.phases[0] == Phase::Run(
                (a.duration_ms * 1_000_000) as u64,
            );
            let works = |ns: u64|
                t.phases.len() == 2 && t.phases[0] == Phase::Run(ns) && t.phases[1]
                    == Phase::Sleep(ns);
            &&& tasks_of(a, n).len() == n
            &&& t.pid.0 == i + 1
            &&& t.repeat is Forever && t.start_time_ns == 0 && t.nice == 0 && !t.restricted
                && t.parent_pid is None
            &&& a.scenario is Throttle ==> busy && t.cgroup_name == Some("limited"@) && t.name
                == "hog-"@ + decimal(i as nat)
            &&& a.scenario is R3Like ==> busy && t.cgroup_name == Some("limited"@) && t.name
                == "yes-like-"@ + decimal(i as nat)
            &&& a.scenario is Churn ==> busy && t.name == "task-"@ + decimal(i as nat)
            &&& a.scenario is Lifecycle ==> works(500_000) && t.cgroup_name is None && t.name
                == "worker"@
            &&& a.scenario is Enomem ==> works(1_000_000) && t.cgroup_name is None && t.name
                == "worker"@
        }),
{
}

/// How many tasks, groups and cycles a run has.
pub proof fn law_how_much_there_is_of_a_run(a: Args)
    ensures
        a.scenario is Throttle ==> task_count(a) >= 2 && task_count(a) >= a.tasks && (
        task_count(a) == 2 || task_count(a) == a.tasks),
        a.scenario is R3Like || a.scenario is Churn ==> task_count(a) == a.tasks,
        a.scenario is Lifecycle || a.scenario is Enomem ==> task_count(a) == 1,
        4 <= churn_groups(a) <= 32,
        16 <= a.tasks <= 128 ==> churn_groups(a) == a.tasks / 4,
        a.tasks < 16 ==> churn_groups(a) == 4,
        a.tasks > 128 ==> churn_groups(a) == 32,
        2 <= cycle_count(a) <= 16,
        8 <= a.tasks <= 64 ==> cycle_count(a) == a.tasks / 4,
        a.tasks < 8 ==> cycle_count(a) == 2,
        a.tasks > 64 ==> cycle_count(a) == 16,
        a.scenario is Enomem ==> room_for(a) <= 16 && room_for(a) <= a.max_cgroups && (room_for(a)
            == 16 || room_for(a) == a.max_cgroups),
        !(a.scenario is Enomem) ==> room_for(a) == a.max_cgroups,
{
}

/// The groups of a run stand under the root and may use every CPU. A run that throttles
/// has one limited group; the one like it has another without a limit; a churning run has
/// one for every few tasks, each with a limit and a burst; the others start with none.
pub proof fn law_groups_of_a_run(a: Args, i: int)
    requires
        0 <= i < groups_of(a).len(),
    ensures
        ({
            let g = groups_of(a)[i];
            let cpus = g.cpuset->0;
            &&& g.parent_name is None && g.cpuset is Some && cpus.len() == a.cpus
            &&& forall|c: int| 0 <= c < a.cpus ==> (#[trigger] cpus[c]).0 == c
            &&& a.scenario is Throttle ==> groups_of(a).len() == 1 && g.name == "limited"@
                && g.bandwidth == Some(
                BandwidthDef { period_us: 10_000, quota_us: 2_000, burst_us: 0 },
            )
            &&& a.scenario is R3Like ==> groups_of(a).len() == 2
            &&& a.scenario is R3Like && i == 0 ==> g.name == "limited"@ && g.bandwidth == Some(
                BandwidthDef { period_us: 10_000, quota_us: 3_000, burst_us: 0 },
            )
            &&& a.scenario is R3Like && i == 1 ==> g.name == "unlimited"@ && g.bandwidth is None
            &&& a.scenario is Churn ==> groups_of(a).len() == churn_groups(a) && g.name
                == "group_"@ + decimal(i as nat) && g.bandwidth == Some(
                BandwidthDef { period_us: 100_000, quota_us: 80_000, burst_us: 10_000 },
            )
        }),
        !(a.scenario is Lifecycle || a.scenario is Enomem),
{
}

/// Every task of the first that move leaves its limited group, one after the other, and
/// comes back to it twenty milliseconds later.
pub proof fn law_tasks_leave_and_come_back(n: nat, k: int)
    requires
        n <= 64,
        0 <= k < n,
    ensures
        ({
            let all = round_trips(n);
            let (out, back) = (all[2 * k], all[2 * k + 1]);
            &&& all.len() == 2 * n
            &&& out.pid.0 == k + 1 && back.pid.0 == k + 1
            &&& out.from == "limited"@ && out.to == "unlimited"@
            &&& back.from == out.to && back.to == out.from
            &&& out.at_ns == 25_000_000 + (k + 1) * 50_000
            &&& back.at_ns == out.at_ns + 20_000_000
        }),
    decreases n,
{
    if n > 1 && k < n - 1 {
        law_tasks_leave_and_come_back((n - 1) as nat, k);
    } else if n > 1 {
        law_tasks_leave_and_come_back((n - 1) as nat, 0);
    } else {
        assert(round_trips(0).len() == 0);
    }
}

/// In a churning run every task that moves does so once in every round, five milliseconds
/// after the round before, to the group after the one that it is in.
pub proof fn law_tasks_move_on_in_every_round(groups: u32, n: nat, r: nat, q: int, k: int)
    requires
        4 <= groups <= 32,
        n <= 32,
        r <= 20,
        0 <= q < r,
        0 <= k < n,
    ensures
        ({
            let m = all_shifts(groups, n, r)[q * n + k];
            &&& all_shifts(groups, n, r).len() == r * n
            &&& m.pid.0 == k + 1
            &&& m.at_ns == 10_000_000 + q * 5_000_000
            &&& m.from == "group_"@ + decimal(((k + q) % groups as int) as nat)
            &&& m.to == "group_"@ + decimal(((k + q + 1) % groups as int) as nat)
        }),
    decreases r,
{
    let before = all_shifts(groups, n, (r - 1) as nat);
    lemma_shift_lengths(groups, n, (r - 1) as nat);
    lemma_shifts(before, groups, (r - 1) as nat, n);
    lemma_shift_lengths(groups, n, r);
    if q < r - 1 {
        law_tasks_move_on_in_every_round(groups, n, (r - 1) as nat, q, k);
        assert(q * n + k < (r - 1) * n) by (nonlinear_arith)
            requires
                0 <= q < r - 1,
                0 <= k < n,
        ;
        assert(0 <= q * n + k) by (nonlinear_arith)
            requires
                0 <= q,
                0 <= k < n,
        ;
    } else {
        assert(q * n == (r - 1) * n);
    }
}

proof fn lemma_shift_lengths(groups: u32, n: nat, r: nat)
    ensures
        all_shifts(groups, n, r).len() == r * n,
    decreases r,
{
    if r > 0 {
        lemma_shift_lengths(groups, n, (r - 1) as nat);
        lemma_shifts(all_shifts(groups, n, (r - 1) as nat), groups, (r - 1) as nat, n);
        assert((r - 1) * n + n == r * n) by (nonlinear_arith);
    } else {
        assert(r * n == 0) by (nonlinear_arith)
            requires
                r == 0,
        ;
    }
}

proof fn lemma_shifts(moves: Seq<MoveView>, groups: u32, round: nat, n: nat)
    ensures
        ({
            let all = shifts(moves, groups, round, n);
            &&& all.len() == moves.len() + n
            &&& forall|j: int| 0 <= j < moves.len() ==> all[j] == moves[j]
            &&& forall|k: int|
                0 <= k < n ==> #[trigger] all[moves.len() + k] == (MoveView {
                    at_ns: (10_000_000 + round * 5_000_000) as u64,
                    pid: Pid((k + 1) as i32),
                    from: "group_"@ + decimal(((k + round) % groups as int) as nat),
                    to: "group_"@ + decimal(((k + round + 1) % groups as int) as nat),
                })
        }),
    decreases n,
{
    if n > 0 {
        lemma_shifts(moves, groups, round, (n - 1) as nat);
        let before = shifts(moves, groups, round, (n - 1) as nat);
        let all = shifts(moves, groups, round, n);
        assert forall|k: int| 0 <= k < n implies #[trigger] all[moves.len() + k] == (MoveView {
            at_ns: (10_000_000 + round * 5_000_000) as u64,
            pid: Pid((k + 1) as i32),
            from: "group_"@ + decimal(((k + round) % groups as int) as nat),
            to: "group_"@ + decimal(((k + round + 1) % groups as int) as nat),
        }) by {
            if k < n - 1 {
                assert(all[moves.len() + k] == before[moves.len() + k]);
            }
        }
    }
}

/// Which tasks move in a run, and how often.
pub proof fn law_moves_of_a_run(a: Args)
    ensures
        a.scenario is R3Like && a.tasks <= 64 ==> moves_of(a) == round_trips(a.tasks as nat),
        a.scenario is R3Like && a.tasks > 64 ==> moves_of(a) == round_trips(64),
        a.scenario is Churn && a.tasks <= 32 ==> moves_of(a) == all_shifts(
            churn_groups(a),
            a.tasks as nat,
            20,
        ),
        a.scenario is Churn && a.tasks > 32 ==> moves_of(a) == all_shifts(
            churn_groups(a),
            32,
            20,
        ),
        a.scenario is Throttle || a.scenario is Lifecycle || a.scenario is Enomem ==> moves_of(
            a,
        ).len() == 0,
{
}

/// Whether an interrupt is one of the regular ones of a CPU below `n`.
pub open spec fn is_regular(e: IrqView, end: TimeNs, n: nat) -> bool {
    &&& e.irq_type is SoftIrq && e.duration_ns == 25_000 && e.wake_pids.len() == 0
    &&& e.cpu.0 < n
    &&& 5_000_000 + e.cpu.0 * 250_000 <= e.at_ns < end
    &&& (e.at_ns - 5_000_000 - e.cpu.0 * 250_000) % 2_000_000 == 0
}

/// Every interrupt of a run is a regular one: a short soft one that wakes nobody, one in
/// every two milliseconds on each CPU, which begin one after the other and stop with the
/// run.
pub proof fn law_interrupts_are_regular(end: TimeNs, n: nat, i: int)
    requires
        n <= 8,
        0 <= i < irqs_on(end, n).len(),
    ensures
        is_regular(irqs_on(end, n)[i], end, n),
    decreases n,
{
    lemma_all_regular(end, n);
}

proof fn lemma_all_regular(end: TimeNs, n: nat)
    requires
        n <= 8,
    ensures
        forall|i: int|
            0 <= i < irqs_on(end, n).len() ==> is_regular(#[trigger] irqs_on(end, n)[i], end, n),
    decreases n,
{
    if n > 0 {
        let before = irqs_on(end, (n - 1) as nat);
        lemma_all_regular(end, (n - 1) as nat);
        assert forall|i: int| 0 <= i < before.len() implies is_regular(
            #[trigger] before[i],
            end,
            n,
        ) by {
            assert(is_regular(before[i], end, (n - 1) as nat));
        }
        let start = 5_000_000 + (n - 1) * 250_000;
        lemma_periodic(before, (n - 1) as u32, start, 0, end, n);
        assert(irqs_on(end, n) == periodic(
            before,
            (n - 1) as u32,
            start + 0 * 2_000_000,
            2_000_000,
            25_000,
            end,
        ));
    }
}

proof fn lemma_periodic(irqs: Seq<IrqView>, cpu: u32, start: int, k: nat, end: TimeNs, n: nat)
    requires
        cpu < n,
        start == 5_000_000 + cpu * 250_000,
        forall|i: int| 0 <= i < irqs.len() ==> is_regular(#[trigger] irqs[i], end, n),
    ensures
        ({
            let all = periodic(irqs, cpu, start + k * 2_000_000, 2_000_000, 25_000, end);
            forall|i: int| 0 <= i < all.len() ==> is_regular(#[trigger] all[i], end, n)
        }),
    decreases
        if start + k * 2_000_000 < end {
            end - start - k * 2_000_000
        } else {
            0
        },
{
    let at = start + k * 2_000_000;
    if at < end {
        let e = IrqView {
            at_ns: at as u64,
            cpu: CpuId(cpu),
            irq_type: IrqType::SoftIrq,
            duration_ns: 25_000,
            wake_pids: Seq::empty(),
        };
        let next = irqs.push(e);
        assert(is_regular(e, end, n)) by {
            assert((k * 2_000_000) % 2_000_000 == 0);
        }
        assert forall|i: int| 0 <= i < next.len() implies is_regular(#[trigger] next[i], end, n) by {
            if i < irqs.len() {
                assert(is_regular(irqs[i], end, n));
            }
        }
        assert(start + (k + 1) * 2_000_000 == at + 2_000_000);
        lemma_periodic(next, cpu, start, k + 1, end, n);
        assert(periodic(irqs, cpu, at, 2_000_000, 25_000, end) == periodic(
            next,
            cpu,
            at + 2_000_000,
            2_000_000,
            25_000,
            end,
        ));
    }
}

/// No regular interrupt is missing: each CPU has one at every one of its times before the
/// end.
pub proof fn law_no_interrupt_is_missing(end: TimeNs, n: nat, cpu: u32, k: nat)
    requires
        n <= 8,
        cpu < n,
        5_000_000 + cpu * 250_000 + k * 2_000_000 < end,
    ensures
        exists|i: int|
            0 <= i < irqs_on(end, n).len() && (#[trigger] irqs_on(end, n)[i]).cpu.0 == cpu
                && irqs_on(end, n)[i].at_ns == 5_000_000 + cpu * 250_000 + k * 2_000_000,
    decreases n,
{
    let before = irqs_on(end, (n - 1) as nat);
    let all = irqs_on(end, n);
    let start = 5_000_000 + (n - 1) * 250_000;
    if cpu == n - 1 {
        lemma_periodic_has(before, cpu, start, 0, k, end);
    } else {
        law_no_interrupt_is_missing(end, (n - 1) as nat, cpu, k);
        let i = choose|i: int|
            0 <= i < before.len() && (#[trigger] before[i]).cpu.0 == cpu && before[i].at_ns
                == 5_000_000 + cpu * 250_000 + k * 2_000_000;
        lemma_periodic_keeps(before, (n - 1) as u32, start, end, i);
        assert(all[i] == before[i]);
    }
}

proof fn lemma_periodic_keeps(irqs: Seq<IrqView>, cpu: u32, at: int, end: TimeNs, i: int)
    requires
        0 <= i < irqs.len(),
    ensures
        i < periodic(irqs, cpu, at, 2_000_000, 25_000, end).len(),
        periodic(irqs, cpu, at, 2_000_000, 25_000, end)[i] == irqs[i],
    decreases
        if at < end {
            end - at
        } else {
            0
        },
{
    if at < end {
        let e = IrqView {
            at_ns: at as u64,
            cpu: CpuId(cpu),
            irq_type: IrqType::SoftIrq,
            duration_ns: 25_000,
            wake_pids: Seq::empty(),
        };
        lemma_periodic_keeps(irqs.push(e), cpu, at + 2_000_000, end, i);
    }
}

proof fn lemma_periodic_has(irqs: Seq<IrqView>, cpu: u32, start: int, j: nat, k: nat, end: TimeNs)
    requires
        j <= k,
        0 <= start,
        start + k * 2_000_000 < end,
    ensures
        ({
            let all = periodic(irqs, cpu, start + j * 2_000_000, 2_000_000, 25_000, end);
            exists|i: int|
                0 <= i < all.len() && (#[trigger] all[i]).cpu.0 == cpu && all[i].at_ns == start + k
                    * 2_000_000
        }),
    decreases k - j,
{
    let at = start + j * 2_000_000;
    let e = IrqView {
        at_ns: at as u64,
        cpu: CpuId(cpu),
        irq_type: IrqType::SoftIrq,
        duration_ns: 25_000,
        wake_pids: Seq::empty(),
    };
    let next = irqs.push(e);
    assert(start + (j + 1) * 2_000_000 == at + 2_000_000);
    assert(at < end);
    assert(periodic(irqs, cpu, at, 2_000_000, 25_000, end) == periodic(
        next,
        cpu,
        at + 2_000_000,
        2_000_000,
        25_000,
        end,
    ));
    if j == k {
        lemma_periodic_keeps(next, cpu, at + 2_000_000, end, irqs.len() as int);
        let all = periodic(irqs, cpu, at, 2_000_000, 25_000, end);
        assert(all[irqs.len() as int].cpu.0 == cpu);
    } else {
        lemma_periodic_has(next, cpu, start, j + 1, k, end);
    }
}

/// Interrupts belong to one scenario alone, on eight CPUs at most.
pub proof fn law_interrupts_of_a_run(a: Args)
    requires
        a.duration_ms * 1_000_000 <= u64::MAX,
    ensures
        ({
            let end = (a.duration_ms * 1_000_000) as u64;
            &&& a.scenario is R3Like && a.cpus <= 8 ==> irqs_of(a) == irqs_on(end, a.cpus as nat)
            &&& a.scenario is R3Like && a.cpus > 8 ==> irqs_of(a) == irqs_on(end, 8)
            &&& !(a.scenario is R3Like) ==> irqs_of(a).len() == 0
        }),
{
}

/// Groups are born one millisecond after another where there is no room for all, each
/// under its own name.
pub proof fn law_containers_are_born_one_by_one(n: nat, i: int)
    requires
        0 <= i < n,
        n <= u32::MAX,
    ensures
        containers(n).len() == n,
        containers(n)[i] == ((i * 1_000_000) as u64, "container_"@ + decimal(i as nat)),
    decreases n,
{
    lemma_containers(n);
    if i < n - 1 {
        law_containers_are_born_one_by_one((n - 1) as nat, i);
        lemma_containers((n - 1) as nat);
    } else {
        lemma_containers((n - 1) as nat);
    }
}

/// In every cycle of fifteen milliseconds four groups are born, one millisecond after
/// another, each under its own name, and each ends eight milliseconds after its birth.
pub proof fn law_four_groups_in_every_cycle(n: nat, delay: int, c: int, j: int)
    requires
        n <= 16,
        0 <= delay <= 8_000_000,
        0 <= c < n,
        0 <= j < 4,
    ensures
        cycle_events(n, delay).len() == 4 * n,
        cycle_events(n, delay)[4 * c + j].0 == c * 15_000_000 + delay + j * 1_000_000,
        cycle_events(n, delay)[4 * c + j].1 == "cycle"@ + decimal(c as nat) + "_"@ + decimal(
            j as nat,
        ),
    decreases n,
{
    lemma_cycle_length(n, delay);
    lemma_cycle_length((n - 1) as nat, delay);
    if c < n - 1 {
        law_four_groups_in_every_cycle((n - 1) as nat, delay, c, j);
    } else {
        assert(j == 0 || j == 1 || j == 2 || j == 3);
    }
}

proof fn lemma_cycle_length(n: nat, delay: int)
    ensures
        cycle_events(n, delay).len() == 4 * n,
    decreases n,
{
    if n > 0 {
        lemma_cycle_length((n - 1) as nat, delay);
    }
}

/// Which groups are born and end while a run lasts.
pub proof fn law_births_and_ends_of_a_run(a: Args)
    ensures
        a.scenario is Lifecycle ==> births_of(a) == cycle_events(cycle_count(a) as nat, 0)
            && ends_of(a) == cycle_events(cycle_count(a) as nat, 8_000_000),
        a.scenario is Enomem ==> ends_of(a).len() == 0 && (a.tasks >= 20 ==> births_of(a)
            == containers(a.tasks as nat)) && (a.tasks < 20 ==> births_of(a) == containers(20)),
        !(a.scenario is Lifecycle || a.scenario is Enomem) ==> births_of(a).len() == 0 && ends_of(
            a,
        ).len() == 0,
{
}

/// Callbacks are preempted by the processor's counter, and dispatch runs natively, exactly
/// in the modes of that name, with the numbers given. Noise is as asked for.
pub proof fn law_modes_of_a_run(
    a: Args,
    p: Option<PreemptiveConfig>,
    c: Option<NativeConcurrentConfig>,
    noise: NoiseConfig,
)
    ensures
        a.mode is Preemptive ==> {
            let r = chaos_preemptive(p, a)->0;
            &&& chaos_preemptive(p, a) is Some
            &&& r.timeslice_min == a.timeslice_min && r.timeslice_max == a.timeslice_max
            &&& r.break_on == a.break_on && !r.cooperative_only && r.preempt_mode is Pmu
        },
        !(a.mode is Preemptive) ==> chaos_preemptive(p, a) == p,
        a.mode is NativeConcurrent ==> chaos_native(c, a) is Some && (chaos_native(
            c,
            a,
        )->0).window_ns == a.window_ns,
        !(a.mode is NativeConcurrent) ==> chaos_native(c, a) == c,
        noise_of(noise, a).run_jitter_cv_ppm == a.run_jitter_cv_ppm,
        noise_of(noise, a).tick_jitter_stddev_ns == a.tick_jitter_stddev_ns,
        noise_of(noise, a).initial_tick_skew_ns == a.initial_tick_skew_ns,
        noise_of(noise, a).enabled == noise.enabled,
{
}

/// What a run is asked for where nothing is said: a short, calm run under a limit.
pub proof fn law_a_run_is_calm_where_nothing_is_said()
    ensures
        ({
            let a = default_args();
            &&& a.scenario is Throttle && a.mode is Off && a.break_on is RetiredBranchConditional
            &&& a.seed == 42 && a.cpus == 4 && a.tasks == 8 && a.duration_ms == 100
            &&& a.window_ns == 10_000_000 && a.timeslice_min == 300 && a.timeslice_max == 1500
            &&& a.tick_jitter_stddev_ns == 2_000 && a.initial_tick_skew_ns == 0
                && a.run_jitter_cv_ppm == 200_000
            &&& a.max_cgroups == 10_000 && !a.fixed_priority && !a.expect_cgroup_exhausted
        }),
{
}

/// Contracts see tasks, groups, moves and interrupts as they are, and a stalled run is
/// noticed after half a second.
pub proof fn law_runs_are_seen_as_they_are(
    t: TaskDef,
    g: CgroupDef,
    m: CgroupMigrateEvent,
    e: IrqEvent,
)
    ensures
        CHAOS_WATCHDOG_NS == 500_000_000,
        task_view(t).pid == t.pid && task_view(t).name == t.name@ && task_view(t).nice == t.nice,
        task_view(t).phases == t.behavior.phases@ && task_view(t).repeat == t.behavior.repeat,
        task_view(t).start_time_ns == t.start_time_ns && task_view(t).parent_pid == t.parent_pid,
        task_view(t).restricted <==> t.allowed_cpus is Some,
        t.cgroup_name is None <==> task_view(t).cgroup_name is None,
        t.cgroup_name is Some ==> task_view(t).cgroup_name == Some((t.cgroup_name->0)@),
        group_view(g).name == g.name@ && group_view(g).bandwidth == g.bandwidth,
        g.cpuset is Some ==> group_view(g).cpuset == Some((g.cpuset->0)@),
        g.parent_name is Some ==> group_view(g).parent_name == Some((g.parent_name->0)@),
        g.cpuset is None <==> group_view(g).cpuset is None,
        g.parent_name is None <==> group_view(g).parent_name is None,
        move_view(m).at_ns == m.at_ns && move_view(m).pid == m.pid,
        move_view(m).from == m.from_cgroup@ && move_view(m).to == m.to_cgroup@,
        irq_view(e).at_ns == e.at_ns && irq_view(e).cpu == e.cpu && irq_view(e).irq_type
            == e.irq_type,
        irq_view(e).duration_ns == e.duration_ns && irq_view(e).wake_pids == e.wake_pids@,
{
}

} // verus!
