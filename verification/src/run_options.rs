//! What the command line of a run asks for.

use vstd::prelude::*;

use crate::scenario::{
    NativeConcurrentConfig, NoiseConfig, OverheadConfig, PmuEvent, PreemptMode, PreemptiveConfig,
    Scenario,
};
use crate::text::{dec, decimal, is_word, lowered, plus, quoted, shown_quoted, trim, trimmed};
use crate::trace::ExitKind;
use crate::types::TimeNs;

verus! {

/// What preemption counts.
#[derive(Clone, Copy, Debug, PartialEq, Eq, Structural)]
pub enum BreakOn {
    /// Retired conditional branches.
    Rbc,
    /// Retired instructions.
    Insn,
}

impl BreakOn {
    /// The event that is counted.
    pub open spec fn spec_event(self) -> PmuEvent {
        match self {
            BreakOn::Rbc => PmuEvent::RetiredBranchConditional,
            BreakOn::Insn => PmuEvent::InstructionsRetired,
        }
    }

    /// The event that is counted.
    pub fn to_pmu_event(self) -> (r: PmuEvent)
        ensures
            r == self.spec_event(),
    {
        match self {
            BreakOn::Rbc => PmuEvent::RetiredBranchConditional,
            BreakOn::Insn => PmuEvent::InstructionsRetired,
        }
    }
}

/// How scheduler code is preempted.
#[derive(Clone, Copy, Debug, PartialEq, Eq, Structural)]
pub enum PreemptModeArg {
    /// By the hardware's timer.
    Pmu,
    /// By a counter in the instrumented scheduler.
    E9patch,
}

impl PreemptModeArg {
    /// The mode that is meant.
    pub open spec fn spec_mode(self) -> PreemptMode {
        match self {
            PreemptModeArg::Pmu => PreemptMode::Pmu,
            PreemptModeArg::E9patch => PreemptMode::E9patch,
        }
    }

    /// The mode that is meant.
    pub fn to_preempt_mode(self) -> (r: PreemptMode)
        ensures
            r == self.spec_mode(),
    {
        match self {
            PreemptModeArg::Pmu => PreemptMode::Pmu,
            PreemptModeArg::E9patch => PreemptMode::E9patch,
        }
    }
}

/// The format of a written trace.
#[derive(Clone, Copy, Debug, PartialEq, Eq, Structural)]
pub enum TraceFormat {
    /// Chrome's trace events.
    Json,
    /// Perfetto's protobuf.
    Perfetto,
}

impl TraceFormat {
    /// What a format is called where it is reported.
    pub fn label(self) -> (r: &'static str)
        ensures
            r@ == match self {
                TraceFormat::Json => "chrome-json"@,
                TraceFormat::Perfetto => "wprof-perfetto-pb"@,
            },
    {
        match self {
            TraceFormat::Json => "chrome-json",
            TraceFormat::Perfetto => "wprof-perfetto-pb",
        }
    }
}

/// A duration as it was written, and what it was read as.
pub struct WrittenDuration {
    pub text: String,
    pub read: Result<TimeNs, String>,
}

/// The options of a run that change its scenario.
pub struct RunOptions {
    pub smt: u32,
    pub no_noise: bool,
    pub no_overhead: bool,
    pub seed: Option<u32>,
    pub fixed_priority: bool,
    pub interleave: bool,
    pub stochastic_timer_interleave: bool,
    pub stochastic_window: WrittenDuration,
    pub stochastic_one_in: u32,
    pub preemptive: bool,
    pub timeslice_min: u64,
    pub timeslice_max: u64,
    pub break_on: BreakOn,
    pub preempt_mode: PreemptModeArg,
    pub native_concurrent: bool,
    pub window_ns: u64,
    pub end_time: Option<WrittenDuration>,
    pub rbc_ns: Option<u64>,
    pub no_rbc: bool,
    pub watchdog_timeout: Option<WrittenDuration>,
    pub warmup_ms: Option<u64>,
    pub wait_debugger: bool,
}

/// Whether a text turns the watchdog off.
pub open spec fn means_off(s: Seq<char>) -> bool {
    lowered(trimmed(s)) == "off"@ || lowered(trimmed(s)) == "none"@ || lowered(trimmed(s)) == "0"@
}

fn turns_off(s: &str) -> (r: bool)
    ensures
        r == means_off(s@),
{
    let t = trim(s);
    is_word(t, "off") || is_word(t, "none") || is_word(t, "0")
}

/// What is wrong with a duration.
pub open spec fn duration_error(flag: Seq<char>, d: WrittenDuration) -> Option<Seq<char>> {
    match d.read {
        Ok(_) => None,
        Err(e) => Some(flag + ": "@ + e@),
    }
}

/// What is wrong with the options; the first thing.
pub open spec fn options_error(o: RunOptions) -> Option<Seq<char>> {
    let window = if o.stochastic_timer_interleave {
        duration_error("--stochastic-timer-interleave-window"@, o.stochastic_window)
    } else {
        None
    };
    let end = match o.end_time {
        Some(d) => duration_error("--end-time"@, d),
        None => None,
    };
    let watchdog = match o.watchdog_timeout {
        Some(d) => if means_off(d.text@) {
            None
        } else {
            duration_error("--watchdog-timeout"@, d)
        },
        None => None,
    };
    if window is Some {
        window
    } else if end is Some {
        end
    } else {
        watchdog
    }
}

/// The time in a duration that was read.
pub open spec fn time_in(d: WrittenDuration) -> TimeNs {
    d.read->Ok_0
}

/// The watchdog's timeout. Zero turns it off as well.
pub open spec fn watchdog_of(before: Option<TimeNs>, d: Option<WrittenDuration>) -> Option<TimeNs> {
    match d {
        Some(d) => if means_off(d.text@) || time_in(d) == 0 {
            None
        } else {
            Some(time_in(d))
        },
        None => before,
    }
}

/// The cost of a branch. Turning it off wins over a value.
pub open spec fn rbc_of(before: Option<u64>, o: RunOptions) -> Option<u64> {
    if o.no_rbc {
        Some(0)
    } else if o.rbc_ns is Some {
        o.rbc_ns
    } else {
        before
    }
}

/// How scheduler code is preempted.
pub open spec fn preemptive_of(before: Option<PreemptiveConfig>, o: RunOptions) -> Option<
    PreemptiveConfig,
> {
    if o.preemptive {
        Some(
            PreemptiveConfig {
                timeslice_min: o.timeslice_min,
                timeslice_max: o.timeslice_max,
                cooperative_only: false,
                break_on: o.break_on.spec_event(),
                preempt_mode: o.preempt_mode.spec_mode(),
            },
        )
    } else {
        before
    }
}

/// How dispatch runs natively.
pub open spec fn native_of(before: Option<NativeConcurrentConfig>, o: RunOptions) -> Option<
    NativeConcurrentConfig,
> {
    if o.native_concurrent {
        Some(NativeConcurrentConfig { window_ns: o.window_ns })
    } else {
        before
    }
}

/// The window in which timers may fire early.
pub open spec fn early_window_of(before: TimeNs, o: RunOptions) -> TimeNs {
    if o.stochastic_timer_interleave {
        time_in(o.stochastic_window)
    } else {
        before
    }
}

/// At one in how many sites a timer may fire early; at least one.
pub open spec fn one_in_of(before: u32, o: RunOptions) -> u32 {
    if o.stochastic_timer_interleave {
        if o.stochastic_one_in == 0 {
            1
        } else {
            o.stochastic_one_in
        }
    } else {
        before
    }
}

/// A value, or another.
pub open spec fn or_before(v: Option<u32>, before: u32) -> u32 {
    match v {
        Some(v) => v,
        None => before,
    }
}

/// When the run ends.
pub open spec fn end_of(before: TimeNs, d: Option<WrittenDuration>) -> TimeNs {
    match d {
        Some(d) => time_in(d),
        None => before,
    }
}

/// When the run counts from.
pub open spec fn warmup_of(before: TimeNs, ms: Option<u64>) -> TimeNs {
    match ms {
        Some(ms) => (ms * 1_000_000) as u64,
        None => before,
    }
}

/// A scenario changed as the options ask.
pub open spec fn overridden(s: Scenario, o: RunOptions) -> Scenario {
    Scenario {
        smt_threads_per_core: o.smt,
        noise: NoiseConfig { enabled: s.noise.enabled && !o.no_noise, ..s.noise },
        overhead: OverheadConfig { enabled: s.overhead.enabled && !o.no_overhead, ..s.overhead },
        seed: or_before(o.seed, s.seed),
        fixed_priority: s.fixed_priority || o.fixed_priority,
        interleave: s.interleave || o.interleave || o.preemptive || o.native_concurrent,
        stochastic_timer_interleave: s.stochastic_timer_interleave
            || o.stochastic_timer_interleave,
        stochastic_timer_interleave_window_ns: early_window_of(
            s.stochastic_timer_interleave_window_ns,
            o,
        ),
        stochastic_timer_interleave_one_in: one_in_of(s.stochastic_timer_interleave_one_in, o),
        preemptive: preemptive_of(s.preemptive, o),
        native_concurrent: native_of(s.native_concurrent, o),
        duration_ns: end_of(s.duration_ns, o.end_time),
        sched_overhead_rbc_ns: rbc_of(s.sched_overhead_rbc_ns, o),
        watchdog_timeout_ns: watchdog_of(s.watchdog_timeout_ns, o.watchdog_timeout),
        warmup_ns: warmup_of(s.warmup_ns, o.warmup_ms),
        wait_debugger: s.wait_debugger || o.wait_debugger,
        ..s
    }
}

fn read_duration(flag: &str, d: &WrittenDuration) -> (r: Result<TimeNs, String>)
    ensures
        match r {
            Ok(t) => duration_error(flag@, *d) is None && t == time_in(*d),
            Err(e) => duration_error(flag@, *d) == Some(e@),
        },
{
    match &d.read {
        Ok(t) => Ok(*t),
        Err(e) => Err(plus(plus(flag.to_string(), ": "), e.as_str())),
    }
}

fn read_window(before: TimeNs, o: &RunOptions) -> (r: Result<TimeNs, String>)
    ensures
        match r {
            Ok(t) => t == early_window_of(before, *o) && (o.stochastic_timer_interleave
                ==> duration_error(
                "--stochastic-timer-interleave-window"@,
                o.stochastic_window,
            ) is None),
            Err(e) => o.stochastic_timer_interleave && duration_error(
                "--stochastic-timer-interleave-window"@,
                o.stochastic_window,
            ) == Some(e@),
        },
{
    if o.stochastic_timer_interleave {
        read_duration("--stochastic-timer-interleave-window", &o.stochastic_window)
    } else {
        Ok(before)
    }
}

fn read_end(before: TimeNs, d: &Option<WrittenDuration>) -> (r: Result<TimeNs, String>)
    ensures
        match r {
            Ok(t) => t == end_of(before, *d) && (d is Some ==> duration_error("--end-time"@, d->0)
                is None),
            Err(e) => d is Some && duration_error("--end-time"@, d->0) == Some(e@),
        },
{
    match d {
        Some(d) => read_duration("--end-time", d),
        None => Ok(before),
    }
}

fn read_watchdog(before: Option<TimeNs>, d: &Option<WrittenDuration>) -> (r: Result<
    Option<TimeNs>,
    String,
>)
    ensures
        match r {
            Ok(t) => t == watchdog_of(before, *d) && (d is Some && !means_off((d->0).text@)
                ==> duration_error("--watchdog-timeout"@, d->0) is None),
            Err(e) => d is Some && !means_off((d->0).text@) && duration_error(
                "--watchdog-timeout"@,
                d->0,
            ) == Some(e@),
        },
{
    match d {
        Some(d) => {
            if turns_off(d.text.as_str()) {
                return Ok(None);
            }
            match read_duration("--watchdog-timeout", d) {
                Ok(t) => Ok(
                    if t == 0 {
                        None
                    } else {
                        Some(t)
                    },
                ),
                Err(e) => Err(e),
            }
        },
        None => Ok(before),
    }
}

fn choose_rbc(before: Option<u64>, o: &RunOptions) -> (r: Option<u64>)
    ensures
        r == rbc_of(before, *o),
{
    if o.no_rbc {
        Some(0)
    } else if o.rbc_ns.is_some() {
        o.rbc_ns
    } else {
        before
    }
}

fn choose_preemptive(before: Option<PreemptiveConfig>, o: &RunOptions) -> (r: Option<
    PreemptiveConfig,
>)
    ensures
        r == preemptive_of(before, *o),
{
    if o.preemptive {
        Some(
            PreemptiveConfig {
                timeslice_min: o.timeslice_min,
                timeslice_max: o.timeslice_max,
                cooperative_only: false,
                break_on: o.break_on.to_pmu_event(),
                preempt_mode: o.preempt_mode.to_preempt_mode(),
            },
        )
    } else {
        before
    }
}

fn choose_native(before: Option<NativeConcurrentConfig>, o: &RunOptions) -> (r: Option<
    NativeConcurrentConfig,
>)
    ensures
        r == native_of(before, *o),
{
    if o.native_concurrent {
        Some(NativeConcurrentConfig { window_ns: o.window_ns })
    } else {
        before
    }
}

fn choose_one_in(before: u32, o: &RunOptions) -> (r: u32)
    ensures
        r == one_in_of(before, *o),
{
    if o.stochastic_timer_interleave {
        if o.stochastic_one_in == 0 {
            1
        } else {
            o.stochastic_one_in
        }
    } else {
        before
    }
}

fn choose_seed(v: Option<u32>, before: u32) -> (r: u32)
    ensures
        r == or_before(v, before),
{
    match v {
        Some(v) => v,
        None => before,
    }
}

fn choose_warmup(before: TimeNs, ms: Option<u64>) -> (r: TimeNs)
    requires
        ms is Some ==> ms->0 * 1_000_000 <= u64::MAX,
    ensures
        r == warmup_of(before, ms),
{
    match ms {
        Some(ms) => ms * 1_000_000,
        None => before,
    }
}

/// Changes a scenario as the options of a run ask.
pub fn apply_overrides(s: Scenario, o: &RunOptions) -> (r: Result<Scenario, String>)
    requires
        o.warmup_ms is Some ==> o.warmup_ms->0 * 1_000_000 <= u64::MAX,
    ensures
        match r {
            Ok(t) => options_error(*o) is None && t == overridden(s, *o),
            Err(e) => options_error(*o) == Some(e@),
        },
{
    let window = match read_window(s.stochastic_timer_interleave_window_ns, o) {
        Ok(t) => t,
        Err(e) => {
            return Err(e);
        },
    };
    let end = match read_end(s.duration_ns, &o.end_time) {
        Ok(t) => t,
        Err(e) => {
            return Err(e);
        },
    };
    let watchdog = match read_watchdog(s.watchdog_timeout_ns, &o.watchdog_timeout) {
        Ok(t) => t,
        Err(e) => {
            return Err(e);
        },
    };
    Ok(
        Scenario {
            smt_threads_per_core: o.smt,
            noise: NoiseConfig { enabled: s.noise.enabled && !o.no_noise, ..s.noise },
            overhead: OverheadConfig {
                enabled: s.overhead.enabled && !o.no_overhead,
                ..s.overhead
            },
            seed: choose_seed(o.seed, s.seed),
            fixed_priority: s.fixed_priority || o.fixed_priority,
            interleave: s.interleave || o.interleave || o.preemptive || o.native_concurrent,
            stochastic_timer_interleave: s.stochastic_timer_interleave
                || o.stochastic_timer_interleave,
            stochastic_timer_interleave_window_ns: window,
            stochastic_timer_interleave_one_in: choose_one_in(
                s.stochastic_timer_interleave_one_in,
                o,
            ),
            preemptive: choose_preemptive(s.preemptive, o),
            native_concurrent: choose_native(s.native_concurrent, o),
            duration_ns: end,
            sched_overhead_rbc_ns: choose_rbc(s.sched_overhead_rbc_ns, o),
            watchdog_timeout_ns: watchdog,
            warmup_ns: choose_warmup(s.warmup_ns, o.warmup_ms),
            wait_debugger: s.wait_debugger || o.wait_debugger,
            ..s
        },
    )
}

/// What runs concurrently is interleaved: preemption and native concurrency
/// imply interleaving.
pub proof fn law_concurrency_implies_interleaving(s: Scenario, o: RunOptions)
    ensures
        o.preemptive ==> overridden(s, o).interleave && overridden(s, o).preemptive is Some,
        o.native_concurrent ==> overridden(s, o).interleave && overridden(
            s,
            o,
        ).native_concurrent is Some,
{
}

/// The line that tells an ending to whoever reads the output; none for a normal
/// one.
pub open spec fn exit_marker(kind: ExitKind) -> Option<Seq<char>> {
    match kind {
        ExitKind::Normal => None,
        ExitKind::ErrorStall { pid, runnable_for_ns } => Some(
            "scxsim: ExitKind::ErrorStall pid="@ + crate::text::signed_decimal(pid.0 as int)
                + " runnable_for_ns="@ + decimal(runnable_for_ns as nat),
        ),
        ExitKind::ErrorBpf(msg) => Some("scxsim: ExitKind::ErrorBpf "@ + msg@),
        ExitKind::ErrorDispatchLoopExhausted { cpu } => Some(
            "scxsim: ExitKind::ErrorDispatchLoopExhausted cpu="@ + decimal(cpu.0 as nat),
        ),
        ExitKind::ErrorCgroupExhausted { cgroup_name, active_count, max_cgroups } => Some(
            "scxsim: ExitKind::ErrorCgroupExhausted cgroup_name="@ + shown_quoted(cgroup_name@)
                + " active_count="@ + decimal(active_count as nat) + " max_cgroups="@ + decimal(
                max_cgroups as nat,
            ),
        ),
    }
}

/// The line that tells an ending.
pub fn print_exit_marker(kind: &ExitKind) -> (r: Option<String>)
    ensures
        match r {
            Some(t) => exit_marker(*kind) == Some(t@),
            None => exit_marker(*kind) is None,
        },
{
    match kind {
        ExitKind::Normal => None,
        ExitKind::ErrorStall { pid, runnable_for_ns } => Some(
            plus(
                plus(
                    plus(
                        "scxsim: ExitKind::ErrorStall pid=".to_string(),
                        crate::text::signed_dec(pid.0 as i64).as_str(),
                    ),
                    " runnable_for_ns=",
                ),
                dec(*runnable_for_ns).as_str(),
            ),
        ),
        ExitKind::ErrorBpf(msg) => Some(
            plus("scxsim: ExitKind::ErrorBpf ".to_string(), msg.as_str()),
        ),
        ExitKind::ErrorDispatchLoopExhausted { cpu } => Some(
            plus(
                "scxsim: ExitKind::ErrorDispatchLoopExhausted cpu=".to_string(),
                dec(cpu.0 as u64).as_str(),
            ),
        ),
        ExitKind::ErrorCgroupExhausted { cgroup_name, active_count, max_cgroups } => Some(
            plus(
                plus(
                    plus(
                        plus(
                            plus(
                                "scxsim: ExitKind::ErrorCgroupExhausted cgroup_name=".to_string(),
                                quoted(cgroup_name.as_str()).as_str(),
                            ),
                            " active_count=",
                        ),
                        dec(*active_count as u64).as_str(),
                    ),
                    " max_cgroups=",
                ),
                dec(*max_cgroups as u64).as_str(),
            ),
        ),
    }
}

/// Every option changes what it names and nothing else: switches only turn on what was
/// off, or off what was on; a value given replaces the scenario's; one not given leaves
/// it.
pub proof fn law_options_change_what_they_name(s: Scenario, o: RunOptions)
    ensures
        ({
            let r = overridden(s, o);
            &&& r.smt_threads_per_core == o.smt
            &&& r.noise.enabled <==> s.noise.enabled && !o.no_noise
            &&& r.overhead.enabled <==> s.overhead.enabled && !o.no_overhead
            &&& r.noise == (NoiseConfig { enabled: r.noise.enabled, ..s.noise })
            &&& r.overhead == (OverheadConfig { enabled: r.overhead.enabled, ..s.overhead })
            &&& o.seed is Some ==> r.seed == o.seed->0
            &&& o.seed is None ==> r.seed == s.seed
            &&& r.fixed_priority <==> s.fixed_priority || o.fixed_priority
            &&& r.interleave <==> s.interleave || o.interleave || o.preemptive
                || o.native_concurrent
            &&& r.wait_debugger <==> s.wait_debugger || o.wait_debugger
            &&& o.warmup_ms is None ==> r.warmup_ns == s.warmup_ns
            &&& o.warmup_ms is Some && o.warmup_ms->0 * 1_000_000 <= u64::MAX ==> r.warmup_ns
                == o.warmup_ms->0 * 1_000_000
            &&& o.end_time is None ==> r.duration_ns == s.duration_ns
            &&& o.end_time is Some && (o.end_time->0).read is Ok ==> r.duration_ns == (
            o.end_time->0).read->Ok_0
        }),
{
}

/// Timers fire early, in the window and at the rate given, exactly if that is asked for;
/// a rate of none in so many means one in one.
pub proof fn law_early_timers_are_as_asked_for(s: Scenario, o: RunOptions)
    ensures
        ({
            let r = overridden(s, o);
            &&& o.stochastic_timer_interleave ==> {
                &&& r.stochastic_timer_interleave
                &&& o.stochastic_window.read is Ok ==> r.stochastic_timer_interleave_window_ns
                    == o.stochastic_window.read->Ok_0
                &&& o.stochastic_one_in > 0 ==> r.stochastic_timer_interleave_one_in
                    == o.stochastic_one_in
                &&& o.stochastic_one_in == 0 ==> r.stochastic_timer_interleave_one_in == 1
            }
            &&& !o.stochastic_timer_interleave ==> {
                &&& r.stochastic_timer_interleave == s.stochastic_timer_interleave
                &&& r.stochastic_timer_interleave_window_ns
                    == s.stochastic_timer_interleave_window_ns
                &&& r.stochastic_timer_interleave_one_in == s.stochastic_timer_interleave_one_in
            }
        }),
{
}

/// Scheduler code is preempted, and dispatch runs natively, with the numbers given exactly
/// if that is asked for.
pub proof fn law_preemption_is_as_asked_for(s: Scenario, o: RunOptions)
    ensures
        ({
            let r = overridden(s, o);
            &&& !o.preemptive ==> r.preemptive == s.preemptive
            &&& o.preemptive ==> {
                let p = r.preemptive->0;
                &&& r.preemptive is Some
                &&& p.timeslice_min == o.timeslice_min && p.timeslice_max == o.timeslice_max
                &&& !p.cooperative_only
                &&& p.break_on is RetiredBranchConditional <==> o.break_on is Rbc
                &&& p.break_on is InstructionsRetired <==> o.break_on is Insn
                &&& p.preempt_mode is Pmu <==> o.preempt_mode is Pmu
                &&& p.preempt_mode is E9patch <==> o.preempt_mode is E9patch
            }
            &&& !o.native_concurrent ==> r.native_concurrent == s.native_concurrent
            &&& o.native_concurrent ==> r.native_concurrent is Some && (
            r.native_concurrent->0).window_ns == o.window_ns
        }),
{
}

/// Turning branch costs off wins over a price; a price given replaces the scenario's. A
/// timeout given replaces the scenario's; a word for off, and zero, turn the watchdog off.
pub proof fn law_off_wins(s: Scenario, o: RunOptions)
    ensures
        ({
            let r = overridden(s, o);
            &&& o.no_rbc ==> r.sched_overhead_rbc_ns == Some(0u64)
            &&& !o.no_rbc && o.rbc_ns is Some ==> r.sched_overhead_rbc_ns == o.rbc_ns
            &&& !o.no_rbc && o.rbc_ns is None ==> r.sched_overhead_rbc_ns
                == s.sched_overhead_rbc_ns
            &&& o.watchdog_timeout is None ==> r.watchdog_timeout_ns == s.watchdog_timeout_ns
            &&& o.watchdog_timeout is Some ==> {
                let d = o.watchdog_timeout->0;
                let off = lowered(trimmed(d.text@));
                &&& off == "off"@ || off == "none"@ || off == "0"@ ==> r.watchdog_timeout_ns
                    is None
                &&& d.read is Ok && d.read->Ok_0 == 0 ==> r.watchdog_timeout_ns is None
                &&& off != "off"@ && off != "none"@ && off != "0"@ && d.read is Ok && d.read->Ok_0
                    > 0 ==> r.watchdog_timeout_ns == Some(d.read->Ok_0)
            }
        }),
{
}

/// What no option names stays as the scenario has it.
pub proof fn law_the_rest_of_a_scenario_stays(s: Scenario, o: RunOptions)
    ensures
        ({
            let r = overridden(s, o);
            &&& r.nr_cpus == s.nr_cpus && r.tasks == s.tasks && r.cgroups == s.cgroups
            &&& r.max_cgroups == s.max_cgroups && r.cpus_per_llc == s.cpus_per_llc
            &&& r.hotplug_events == s.hotplug_events && r.irq_events == s.irq_events
                && r.futex_events == s.futex_events && r.cpu_preempt_events
                == s.cpu_preempt_events
            &&& r.cgroup_migrate_events == s.cgroup_migrate_events && r.cgroup_create_events
                == s.cgroup_create_events && r.cgroup_destroy_events == s.cgroup_destroy_events
                && r.cgroup_cpuset_change_events == s.cgroup_cpuset_change_events
            &&& r.ignore_bpf_errors == s.ignore_bpf_errors
        }),
{
}

/// Options are wrong exactly if a duration that counts cannot be read; the message names
/// the option and says why.
pub proof fn law_unreadable_durations_are_named(o: RunOptions)
    ensures
        ({
            let off = lowered(trimmed((o.watchdog_timeout->0).text@));
            let window = o.stochastic_timer_interleave && o.stochastic_window.read is Err;
            let end = o.end_time is Some && (o.end_time->0).read is Err;
            let watchdog = o.watchdog_timeout is Some && (o.watchdog_timeout->0).read is Err && off
                != "off"@ && off != "none"@ && off != "0"@;
            &&& options_error(o) is Some <==> window || end || watchdog
            &&& window ==> options_error(o) == Some(
                "--stochastic-timer-interleave-window"@ + ": "@ + (
                o.stochastic_window.read->Err_0)@,
            )
            &&& !window && end ==> options_error(o) == Some(
                "--end-time"@ + ": "@ + ((o.end_time->0).read->Err_0)@,
            )
            &&& !window && !end && watchdog ==> options_error(o) == Some(
                "--watchdog-timeout"@ + ": "@ + ((o.watchdog_timeout->0).read->Err_0)@,
            )
        }),
{
}

/// An ending that is not normal is told by its kind and by what it is about; a normal one
/// is not told.
pub proof fn law_endings_are_told_by_their_kind(kind: ExitKind)
    ensures
        exit_marker(kind) is None <==> kind is Normal,
        match kind {
            ExitKind::Normal => true,
            ExitKind::ErrorBpf(msg) => exit_marker(kind) == Some(
                "scxsim: ExitKind::ErrorBpf "@ + msg@,
            ),
            ExitKind::ErrorStall { pid, runnable_for_ns } => exit_marker(kind) == Some(
                "scxsim: ExitKind::ErrorStall pid="@ + crate::text::signed_decimal(pid.0 as int)
                    + " runnable_for_ns="@ + decimal(runnable_for_ns as nat),
            ),
            ExitKind::ErrorDispatchLoopExhausted { cpu } => exit_marker(kind) == Some(
                "scxsim: ExitKind::ErrorDispatchLoopExhausted cpu="@ + decimal(cpu.0 as nat),
            ),
            ExitKind::ErrorCgroupExhausted { cgroup_name, active_count, max_cgroups } =>
                exit_marker(kind) == Some(
                "scxsim: ExitKind::ErrorCgroupExhausted cgroup_name="@ + shown_quoted(cgroup_name@)
                    + " active_count="@ + decimal(active_count as nat) + " max_cgroups="@
                    + decimal(max_cgroups as nat),
            ),
        },
{
}

} // verus!
