//! The state of a simulation and the elementary changes to it.

use vstd::prelude::*;

use crate::cgroup::{cpuset_view, named, CgroupRegistry, RegistryView};
use crate::engine::SimulationResult;
use crate::event_queue::{lemma_inserted, Event, EventKind, EventQueue, QueueView, WakerInfo};
use crate::scenario::{Phase, RepeatMode, Scenario};
use crate::state::{
    BranchCounter, Cost, ExitView, Insert, Kick, RbcStats, Reply, ReplyView, Request, SimCpu,
    SimTask, StructopInfo, Timer, Work, MAX_BPF_TIMERS,
};
use crate::trace::{ExitKind, Trace, TraceEvent, TraceHead, TraceKind};
use crate::types::{CgroupId, CpuId, Pid, TimeNs};

verus! {

/// The least that a callback costs when branches are not counted.
pub const MIN_CALLBACK_COST_NS: u64 = 50;

/// The most events that one step schedules.
pub const EVENTS_PER_STEP: usize = 8;

/// A number, or the largest one where it does not fit.
pub open spec fn sat(n: int) -> u64 {
    if n > u64::MAX {
        u64::MAX
    } else if n < 0 {
        0
    } else {
        n as u64
    }
}

/// The larger of two numbers.
pub open spec fn larger(a: u64, b: u64) -> u64 {
    if a >= b {
        a
    } else {
        b
    }
}

/// A simulation as contracts see it.
#[verifier::ext_equal]
pub struct SimView {
    pub cpus: Seq<SimCpu>,
    /// Each CPU's queue of tasks to run next, in order.
    pub local: Seq<Seq<Pid>>,
    pub tasks: Seq<SimTask>,
    pub events: QueueView,
    pub trace: Seq<TraceEvent>,
    /// What the trace says apart from its events.
    pub head: TraceHead,
    /// The time of the event being served.
    pub clock: TimeNs,
    /// The CPU that scheduler code ran on last.
    pub current_cpu: CpuId,
    /// What is left to do; the last piece comes next.
    pub work: Seq<Work>,
    /// Kicks sent but not scheduled yet.
    pub staged: Seq<Kick>,
    /// Timers armed but not scheduled yet, by slot.
    pub timers: Seq<Option<(TimeNs, CpuId)>>,
    /// Tasks held back for want of bandwidth, in the order they were.
    pub blocked: Seq<(CgroupId, Pid)>,
    /// Callback counts by CPU.
    pub accum: Seq<StructopInfo>,
    pub stats: RbcStats,
    pub counter: BranchCounter,
    pub registry: RegistryView,
    /// An error that the scheduler raised.
    pub error: Option<Seq<char>>,
    pub exit: ExitView,
    pub scenario: Scenario,
}

/// The position of a task.
pub open spec fn task_at(tasks: Seq<SimTask>, pid: Pid) -> Option<int>
    decreases tasks.len(),
{
    if tasks.len() == 0 {
        None
    } else if tasks.last().pid == pid {
        Some(tasks.len() - 1)
    } else {
        task_at(tasks.drop_last(), pid)
    }
}

/// Timers after more were armed; a slot armed again replaces its timer.
pub open spec fn armed(timers: Seq<Option<(TimeNs, CpuId)>>, new: Seq<Timer>) -> Seq<
    Option<(TimeNs, CpuId)>,
>
    decreases new.len(),
{
    if new.len() == 0 {
        timers
    } else {
        armed(timers, new.drop_last()).update(
            new.last().slot as int,
            Some((new.last().fire_at, new.last().cpu)),
        )
    }
}

/// Local queues after tasks were put at their ends.
pub open spec fn queued(local: Seq<Seq<Pid>>, inserts: Seq<Insert>) -> Seq<Seq<Pid>>
    decreases inserts.len(),
{
    if inserts.len() == 0 {
        local
    } else {
        let before = queued(local, inserts.drop_last());
        let at = inserts.last().cpu.0 as int;
        before.update(at, before[at].push(inserts.last().pid))
    }
}

/// Whether an event names only CPUs and scenario entries that exist.
pub open spec fn kind_ok(kind: EventKind, n: nat, s: Scenario) -> bool {
    match kind {
        EventKind::TaskWake { pid, waker, cpu } => cpu.0 < n && (waker is Some ==> (
        waker->0).cpu.0 < n),
        EventKind::SliceExpired { cpu } => cpu.0 < n,
        EventKind::TaskPhaseComplete { cpu } => cpu.0 < n,
        EventKind::TimerFired { cpu, slot } => cpu.0 < n,
        EventKind::Tick { cpu } => cpu.0 < n,
        EventKind::CpuOffline { cpu } => cpu.0 < n,
        EventKind::CpuOnline { cpu } => cpu.0 < n,
        EventKind::CpuRelease { cpu } => cpu.0 < n,
        EventKind::CpuAcquire { cpu } => cpu.0 < n,
        EventKind::CgroupMigrate { event, cpu } => cpu.0 < n && event
            < s.cgroup_migrate_events@.len(),
        EventKind::CgroupCreate { event, cpu } => cpu.0 < n && event
            < s.cgroup_create_events@.len(),
        EventKind::CgroupDestroy { event, cpu } => cpu.0 < n && event
            < s.cgroup_destroy_events@.len(),
        EventKind::CgroupCpusetChange { event, cpu } => cpu.0 < n && event
            < s.cgroup_cpuset_change_events@.len(),
        EventKind::IrqStart { event, cpu } => cpu.0 < n && event < s.irq_events@.len(),
        EventKind::IrqEnd { cpu } => cpu.0 < n,
        EventKind::FutexOp { event, pid } => event < s.futex_events@.len(),
        EventKind::DsqConsume { cpu } => cpu.0 < n,
        EventKind::StartRunning { cpu, pid } => cpu.0 < n,
        EventKind::KickDelivered { cpu, flags } => cpu.0 < n,
    }
}

/// Whether a waker names a CPU that exists.
pub open spec fn waker_ok(waker: Option<WakerInfo>, n: nat) -> bool {
    waker is Some ==> (waker->0).cpu.0 < n
}

/// Whether a piece of work names only CPUs and scenario entries that exist.
pub open spec fn work_ok(w: Work, n: nat, s: Scenario) -> bool {
    match w {
        Work::Call { request, cpu, charge, note } => cpu.0 < n && (charge is Some ==> (
        charge->0).0 < n),
        Work::Returned { cpu, at, charge, note } => cpu.0 < n && (charge is Some ==> (
        charge->0).0 < n),
        Work::Probe { point, pid, cpu } => cpu.0 < n,
        Work::SetOnline { cpu, online } => cpu.0 < n,
        Work::RestartTick { cpu } => cpu.0 < n,
        Work::IdleAtStart { cpu } => cpu.0 < n,
        Work::IdleAtStarted { cpu } => cpu.0 < n,
        Work::Handle { kind } => kind_ok(kind, n, s),
        Work::Wake { pid, waker } => waker_ok(waker, n),
        Work::AdvancePhase { pid, waker } => waker_ok(waker, n),
        Work::WakeReady { pid, waker } => waker_ok(waker, n),
        Work::WakeSelect { pid, wake_cpu, prev_cpu, waker } => wake_cpu.0 < n && prev_cpu.0 < n,
        Work::WakeSelected { pid, wake_cpu, prev_cpu, waker } => wake_cpu.0 < n && prev_cpu.0 < n,
        Work::WakeEnqueued { pid, cpu } => cpu.0 < n,
        Work::TryDispatch { cpu } => cpu.0 < n,
        Work::Dispatched { cpu, prev } => cpu.0 < n,
        Work::PostDispatch { cpu, notify } => cpu.0 < n,
        Work::Consumed { cpu, notify } => cpu.0 < n,
        Work::Gated { cpu, notify, pid, cgid } => cpu.0 < n,
        Work::StartRunning { cpu, pid } => cpu.0 < n,
        Work::MarkedBusy { cpu, pid, migrated, cross_llc } => cpu.0 < n,
        Work::RunFloor { cpu, pid, migrated, cross_llc } => cpu.0 < n,
        Work::RunFloored { cpu, pid, migrated, cross_llc, asked } => cpu.0 < n,
        Work::RunSet { cpu, pid } => cpu.0 < n,
        Work::RunJittered { cpu, pid } => cpu.0 < n,
        Work::RunLimits { cpu, pid } => cpu.0 < n,
        Work::RunStart { cpu, pid } => cpu.0 < n,
        Work::SliceRead { cpu, pid } => cpu.0 < n,
        Work::Preempt { cpu } => cpu.0 < n,
        Work::Stopped { cpu, pid, consumed, left, expired } => cpu.0 < n,
        Work::Requeue { cpu, pid, expired } => cpu.0 < n,
        Work::Requeued { cpu, pid, expired } => cpu.0 < n,
        Work::PhaseSlice { cpu, pid } => cpu.0 < n,
        Work::PhaseStopped { cpu, pid, consumed, left, has_next, still_runnable } => cpu.0 < n,
        Work::PhaseAfter { cpu, pid, has_next, still_runnable } => cpu.0 < n,
        Work::PhaseNext { cpu, pid, has_next, still_runnable } => cpu.0 < n,
        Work::PhaseChain { cpu, pid, at } => cpu.0 < n,
        Work::PhaseYielded { cpu, pid } => cpu.0 < n,
        Work::TickTimed { cpu } => cpu.0 < n,
        Work::TickSlice { cpu, pid } => cpu.0 < n,
        Work::Ticked { cpu, pid, slice_before } => cpu.0 < n,
        Work::TimerDone { cpu } => cpu.0 < n,
        Work::BudgetEvent { cpu, at, kind } => cpu.0 < n,
        Work::DrainBlocked { cpu, at, cgid } => cpu.0 < n,
        Work::DrainLocal { cpu } => cpu.0 < n,
        Work::MigrateDequeue { pid, cpu } => cpu.0 < n,
        Work::CgroupCreated { event, cgid, cpu, at, count } => event
            < s.cgroup_create_events@.len() && cpu.0 < n,
        Work::CpusetInited { cgid, cpu, at } => cpu.0 < n,
        Work::IrqFinish { cpu, duration_ns } => cpu.0 < n,
        Work::FutexDone { cpu, pid, op } => cpu.0 < n,
        _ => true,
    }
}

/// Whether the tasks of a scenario, and its timed events until its end, name CPUs
/// that exist.
pub open spec fn scenario_cpus_ok(s: Scenario) -> bool {
    let n = s.nr_cpus;
    &&& n > 0
    &&& forall|i: int| 0 <= i < s.tasks@.len() ==> (#[trigger] s.tasks@[i]).spec_initial_cpu().0 < n
    &&& forall|i: int|
        0 <= i < s.hotplug_events@.len() && (#[trigger] s.hotplug_events@[i]).time_ns
            <= s.duration_ns ==> s.hotplug_events@[i].cpu.0 < n
    &&& forall|i: int|
        0 <= i < s.cpu_preempt_events@.len() && ((
        #[trigger] s.cpu_preempt_events@[i]).release_at_ns <= s.duration_ns
            || s.cpu_preempt_events@[i].acquire_at_ns <= s.duration_ns)
            ==> s.cpu_preempt_events@[i].cpu.0 < n
    &&& forall|i: int|
        0 <= i < s.irq_events@.len() && (#[trigger] s.irq_events@[i]).at_ns <= s.duration_ns
            ==> s.irq_events@[i].cpu.0 < n
}

impl SimView {
    /// What holds of every simulation: there is one queue and one counter per
    /// CPU, and every CPU and scenario entry named anywhere exists, except by events
    /// that are due after the simulation's end.
    pub open spec fn ok(self) -> bool {
        let n = self.cpus.len();
        &&& n == self.scenario.nr_cpus
        &&& scenario_cpus_ok(self.scenario)
        &&& self.local.len() == n
        &&& self.accum.len() == n
        &&& self.timers.len() == MAX_BPF_TIMERS
        &&& self.current_cpu.0 < n
        &&& forall|i: int|
            0 <= i < self.timers.len() && (#[trigger] self.timers[i]) is Some ==> (
            self.timers[i]->0).1.0 < n
        &&& forall|i: int| 0 <= i < self.staged.len() ==> (#[trigger] self.staged[i]).cpu.0 < n
        &&& forall|i: int|
            0 <= i < self.tasks.len() ==> (#[trigger] self.tasks[i]).prev_cpu.0 < n
                && self.tasks[i].def < self.scenario.tasks@.len()
        &&& forall|i: int|
            0 <= i < self.events.pending.len() && (#[trigger] self.events.pending[i]).time_ns
                <= self.scenario.duration_ns ==> kind_ok(
                self.events.pending[i].kind,
                n,
                self.scenario,
            )
        &&& forall|i: int|
            0 <= i < self.work.len() ==> work_ok(#[trigger] self.work[i], n, self.scenario)
    }

    /// Whether the queue can number the events of one more step, and enough numbers
    /// were drawn for them.
    pub open spec fn has_room(self) -> bool {
        &&& self.events.count + EVENTS_PER_STEP <= u64::MAX
        &&& self.events.ready.len() >= EVENTS_PER_STEP
    }

    /// With more numbers drawn.
    pub open spec fn supplied(self, drawn: Seq<u32>) -> SimView {
        SimView { events: self.events.supplied(drawn), ..self }
    }

    /// The position of a task.
    pub open spec fn find(self, pid: Pid) -> Option<int> {
        task_at(self.tasks, pid)
    }

    /// One CPU.
    pub open spec fn cpu(self, c: CpuId) -> SimCpu {
        self.cpus[c.0 as int]
    }

    /// With one CPU changed.
    pub open spec fn set_cpu(self, c: CpuId, to: SimCpu) -> SimView {
        SimView { cpus: self.cpus.update(c.0 as int, to), ..self }
    }

    /// With one CPU's clock changed.
    pub open spec fn set_clock(self, c: CpuId, t: TimeNs) -> SimView {
        self.set_cpu(c, SimCpu { local_clock: t, ..self.cpu(c) })
    }

    /// With one CPU's clock moved forward.
    pub open spec fn add_clock(self, c: CpuId, d: int) -> SimView {
        self.set_clock(c, sat(self.cpu(c).local_clock + d))
    }

    /// With one CPU's clock at the time of the current event or later.
    pub open spec fn advance_cpu_clock(self, c: CpuId) -> SimView {
        self.set_clock(c, larger(self.cpu(c).local_clock, self.clock))
    }

    /// With one task changed.
    pub open spec fn set_task(self, i: int, to: SimTask) -> SimView {
        SimView { tasks: self.tasks.update(i, to), ..self }
    }

    /// With one CPU's queue changed.
    pub open spec fn set_local(self, c: CpuId, to: Seq<Pid>) -> SimView {
        SimView { local: self.local.update(c.0 as int, to), ..self }
    }

    /// With one more trace entry.
    pub open spec fn record(self, time_ns: TimeNs, cpu: CpuId, kind: TraceKind) -> SimView {
        SimView { trace: self.trace.push(TraceEvent { time_ns, cpu, kind }), ..self }
    }

    /// With a trace entry at a CPU's own time.
    pub open spec fn record_now(self, cpu: CpuId, kind: TraceKind) -> SimView {
        self.record(self.cpu(cpu).local_clock, cpu, kind)
    }

    /// With one more pending event.
    pub open spec fn event(self, time_ns: TimeNs, kind: EventKind) -> SimView {
        SimView { events: self.events.push(time_ns, kind), ..self }
    }

    /// With one more piece of work, which comes next.
    pub open spec fn then_do(self, w: Work) -> SimView {
        SimView { work: self.work.push(w), ..self }
    }

    /// With a piece of work only if `yes`.
    pub open spec fn then_if(self, yes: bool, w: Work) -> SimView {
        if yes {
            self.then_do(w)
        } else {
            self
        }
    }

    /// With a callback to make on a CPU, at that CPU's cost.
    pub open spec fn then_call(
        self,
        cpu: CpuId,
        request: Request,
        note: Option<TraceKind>,
    ) -> SimView {
        self.then_do(Work::Call { request, cpu, charge: Some(cpu), note })
    }

    /// With a callback to make on a CPU, at no cost.
    pub open spec fn then_call_free(self, cpu: CpuId, request: Request) -> SimView {
        self.then_do(Work::Call { request, cpu, charge: None, note: None })
    }

    /// With another CPU in charge.
    pub open spec fn on_cpu(self, c: CpuId) -> SimView {
        SimView { current_cpu: c, ..self }
    }

    /// After what happened during a callback.
    pub open spec fn absorb(self, r: ReplyView) -> SimView {
        SimView {
            trace: self.trace + r.records,
            staged: self.staged + r.kicks,
            timers: armed(self.timers, r.timers),
            local: queued(self.local, r.inserts),
            error: if self.error is Some {
                self.error
            } else {
                r.error
            },
            ..self
        }
    }

    /// What a branch costs, if branches cost anything.
    pub open spec fn ns_per_branch(self) -> Option<u64> {
        match self.scenario.sched_overhead_rbc_ns {
            Some(ns) => if ns > 0 {
                Some(ns)
            } else {
                None
            },
            None => None,
        }
    }

    /// After a callback's cost was charged to a CPU. Counted branches move the
    /// CPU's clock by their price and by the kernel functions called. Without
    /// a counter the kernel functions alone count, and at least the minimum,
    /// unless overhead is off.
    pub open spec fn charge(self, c: CpuId, cost: Cost) -> SimView {
        let a = self.accum[c.0 as int];
        let a1 = StructopInfo {
            cpu_count: sat(a.cpu_count + 1),
            kfunc_count: sat(a.kfunc_count + cost.kfunc_calls),
            ..a
        };
        let s1 = SimView { accum: self.accum.update(c.0 as int, a1), ..self };
        match self.counter {
            BranchCounter::Absent => if self.scenario.overhead.enabled {
                s1.add_clock(c, larger(cost.kfunc_ns, MIN_CALLBACK_COST_NS) as int)
            } else {
                s1
            },
            _ => {
                let s2 = SimView {
                    stats: RbcStats {
                        longest_structop_rbc: larger(
                            cost.branches,
                            self.stats.longest_structop_rbc,
                        ),
                        longest_rbc_interval: larger(
                            cost.final_interval,
                            self.stats.longest_rbc_interval,
                        ),
                    },
                    ..s1
                };
                match self.ns_per_branch() {
                    Some(ns) => {
                        let a2 = StructopInfo { rbc_total: sat(a.rbc_total + cost.branches), ..a1 };
                        let s3 = SimView { accum: self.accum.update(c.0 as int, a2), ..s2 };
                        s3.add_clock(c, cost.branches * ns + cost.kfunc_ns)
                    },
                    None => s2,
                }
            },
        }
    }

    /// The phases of a task.
    pub open spec fn phases(self, t: SimTask) -> Seq<Phase> {
        self.scenario.tasks@[t.def as int].behavior.phases@
    }

    /// The phase a task is in.
    pub open spec fn current_phase(self, t: SimTask) -> Option<Phase> {
        if t.phase < self.phases(t).len() {
            Some(self.phases(t)[t.phase as int])
        } else {
            None
        }
    }

    /// Whether a task's list of phases starts over once it has been completed
    /// `rounds` times.
    pub open spec fn repeats(self, t: SimTask, rounds: u32) -> bool {
        match self.scenario.tasks@[t.def as int].behavior.repeat {
            RepeatMode::Once => false,
            RepeatMode::Count(n) => rounds < n,
            RepeatMode::Forever => true,
        }
    }

    /// Whether a task has a phase after the current one.
    pub open spec fn has_next_phase(self, t: SimTask) -> bool {
        t.phase + 1 < self.phases(t).len() || self.repeats(t, sat32(t.rounds + 1))
    }

    /// A task in its next phase; a compute phase begins whole. Without a next
    /// phase the task stands behind its last one.
    pub open spec fn advance_phase(self, t: SimTask) -> SimTask {
        let last = t.phase + 1 >= self.phases(t).len();
        let rounds = if last {
            sat32(t.rounds + 1)
        } else {
            t.rounds
        };
        let moved = SimTask {
            phase: if last && self.repeats(t, rounds) {
                0
            } else if t.phase < usize::MAX {
                (t.phase + 1) as usize
            } else {
                t.phase
            },
            rounds,
            ..t
        };
        if self.has_next_phase(t) && self.current_phase(moved) is Some && self.current_phase(
            moved,
        )->0 is Run {
            SimTask { run_remaining_ns: self.current_phase(moved)->0->Run_0, ..moved }
        } else {
            moved
        }
    }
}

/// A round number, or the largest one where it does not fit.
pub open spec fn sat32(n: int) -> u32 {
    if n > u32::MAX {
        u32::MAX
    } else {
        n as u32
    }
}

/// The state of a running simulation.
pub struct SimState {
    cpus: Vec<SimCpu>,
    local: Vec<Vec<Pid>>,
    tasks: Vec<SimTask>,
    events: EventQueue,
    trace: Trace,
    clock: TimeNs,
    current_cpu: CpuId,
    work: Vec<Work>,
    staged: Vec<Kick>,
    timers: Vec<Option<(TimeNs, CpuId)>>,
    blocked: Vec<(CgroupId, Pid)>,
    accum: Vec<StructopInfo>,
    stats: RbcStats,
    counter: BranchCounter,
    registry: CgroupRegistry,
    error: Option<String>,
    exit: ExitKind,
    scenario: Scenario,
}

impl View for SimState {
    type V = SimView;

    closed spec fn view(&self) -> SimView {
        SimView {
            cpus: self.cpus@,
            local: self.local@.map_values(|q: Vec<Pid>| q@),
            tasks: self.tasks@,
            events: self.events@,
            trace: self.trace.events@,
            head: self.trace.head(),
            clock: self.clock,
            current_cpu: self.current_cpu,
            work: self.work@,
            staged: self.staged@,
            timers: self.timers@,
            blocked: self.blocked@,
            accum: self.accum@,
            stats: self.stats,
            counter: self.counter,
            registry: self.registry@,
            error: crate::state::text_view(self.error),
            exit: self.exit@,
            scenario: self.scenario,
        }
    }
}

/// `a` plus `b`, or the largest number where that does not fit.
pub fn add_sat(a: u64, b: u64) -> (r: u64)
    ensures
        r == sat(a + b),
{
    a.saturating_add(b)
}

/// `a` times `b`, or the largest number where that does not fit.
fn mul_sat(a: u64, b: u64) -> (r: u64)
    ensures
        r == sat(a * b),
{
    proof {
        assert(a * b >= 0) by (nonlinear_arith);
    }
    match a.checked_mul(b) {
        Some(v) => v,
        None => u64::MAX,
    }
}

impl SimState {
    /// The queue and the registry are in order and everything named exists.
    pub closed spec fn wf(&self) -> bool {
        &&& self.events.wf()
        &&& self.registry@.wf()
        &&& self@.ok()
    }

    /// What a simulation in order shows of itself.
    pub proof fn lemma_wf(&self)
        requires
            self.wf(),
        ensures
            self@.ok(),
            self@.registry.wf(),
    {
    }

    /// A simulation before anything happened.
    pub(crate) fn assemble(
        cpus: Vec<SimCpu>,
        local: Vec<Vec<Pid>>,
        tasks: Vec<SimTask>,
        events: EventQueue,
        trace: Trace,
        timers: Vec<Option<(TimeNs, CpuId)>>,
        accum: Vec<StructopInfo>,
        counter: BranchCounter,
        registry: CgroupRegistry,
        scenario: Scenario,
    ) -> (r: SimState)
        ensures
            r@ == (SimView {
                cpus: cpus@,
                local: local@.map_values(|q: Vec<Pid>| q@),
                tasks: tasks@,
                events: events@,
                trace: trace.events@,
                head: trace.head(),
                clock: 0,
                current_cpu: CpuId(0),
                work: Seq::empty(),
                staged: Seq::empty(),
                timers: timers@,
                blocked: Seq::empty(),
                accum: accum@,
                stats: RbcStats { longest_structop_rbc: 0, longest_rbc_interval: 0 },
                counter,
                registry: registry@,
                error: None,
                exit: ExitView::Normal,
                scenario,
            }),
            events.wf() && registry@.wf() && r@.ok() ==> r.wf(),
    {
        let r = SimState {
            cpus,
            local,
            tasks,
            events,
            trace,
            clock: 0,
            current_cpu: CpuId(0),
            work: Vec::new(),
            staged: Vec::new(),
            timers,
            blocked: Vec::new(),
            accum,
            stats: RbcStats { longest_structop_rbc: 0, longest_rbc_interval: 0 },
            counter,
            registry,
            error: None,
            exit: ExitKind::Normal,
            scenario,
        };
        r
    }

    pub fn nr_cpus(&self) -> (r: usize)
        ensures
            r == self@.cpus.len(),
    {
        self.cpus.len()
    }

    pub fn nr_tasks(&self) -> (r: usize)
        ensures
            r == self@.tasks.len(),
    {
        self.tasks.len()
    }

    pub fn clock(&self) -> (r: TimeNs)
        ensures
            r == self@.clock,
    {
        self.clock
    }

    pub fn current_cpu(&self) -> (r: CpuId)
        ensures
            r == self@.current_cpu,
    {
        self.current_cpu
    }

    pub fn scenario(&self) -> (r: &Scenario)
        ensures
            *r == self@.scenario,
    {
        &self.scenario
    }

    pub fn trace(&self) -> (r: &Trace)
        ensures
            r.events@ == self@.trace,
            r.head() == self@.head,
    {
        &self.trace
    }

    pub fn exit_kind(&self) -> (r: &ExitKind)
        ensures
            r@ == self@.exit,
    {
        &self.exit
    }

    pub fn stats(&self) -> (r: RbcStats)
        ensures
            r == self@.stats,
    {
        self.stats
    }

    /// The callback counts of each CPU.
    pub fn structops(&self) -> (r: &Vec<StructopInfo>)
        ensures
            r@ == self@.accum,
    {
        &self.accum
    }

    /// What the simulation leaves behind.
    pub fn into_result(self) -> (r: SimulationResult)
        ensures
            r.trace.events@ == self@.trace,
            r.trace.head() == self@.head,
            r.tasks@ == self@.tasks,
            r.exit@ == self@.exit,
            r.clock == self@.clock,
            r.stats == self@.stats,
            r.structops@ == self@.accum,
    {
        SimulationResult {
            trace: self.trace,
            tasks: self.tasks,
            exit: self.exit,
            clock: self.clock,
            stats: self.stats,
            structops: self.accum,
        }
    }

    /// Whether nothing is left to do.
    pub fn is_done(&self) -> (r: bool)
        ensures
            r == (self@.work.len() == 0),
    {
        self.work.len() == 0
    }

    /// How many events have been scheduled so far.
    pub fn nr_events(&self) -> (r: u64)
        ensures
            r == self@.events.count,
    {
        self.events.count()
    }

    /// The CPU numbered `c`.
    pub fn cpu(&self, c: CpuId) -> (r: SimCpu)
        requires
            c.0 < self@.cpus.len(),
        ensures
            r == self@.cpu(c),
    {
        self.cpus[c.0 as usize]
    }

    pub(crate) fn put_cpu(&mut self, c: CpuId, to: SimCpu)
        requires
            old(self).wf(),
            c.0 < old(self)@.cpus.len(),
        ensures
            final(self).wf(),
            final(self)@ == old(self)@.set_cpu(c, to),
    {
        self.cpus.set(c.0 as usize, to);
    }

    pub(crate) fn put_clock(&mut self, c: CpuId, t: TimeNs)
        requires
            old(self).wf(),
            c.0 < old(self)@.cpus.len(),
        ensures
            final(self).wf(),
            final(self)@ == old(self)@.set_clock(c, t),
    {
        let mut cpu = self.cpu(c);
        cpu.local_clock = t;
        self.put_cpu(c, cpu);
    }

    /// Moves a CPU's clock forward.
    pub(crate) fn add_clock(&mut self, c: CpuId, d: u64)
        requires
            old(self).wf(),
            c.0 < old(self)@.cpus.len(),
        ensures
            final(self).wf(),
            final(self)@ == old(self)@.add_clock(c, d as int),
    {
        let t = add_sat(self.cpu(c).local_clock, d);
        self.put_clock(c, t);
    }

    /// Moves a CPU's clock to the time of the current event, unless it is
    /// past it.
    pub(crate) fn advance_cpu_clock(&mut self, c: CpuId)
        requires
            old(self).wf(),
            c.0 < old(self)@.cpus.len(),
        ensures
            final(self).wf(),
            final(self)@ == old(self)@.advance_cpu_clock(c),
    {
        let t = self.cpu(c).local_clock;
        let clock = self.clock;
        self.put_clock(
            c,
            if t >= clock {
                t
            } else {
                clock
            },
        );
    }

    pub(crate) fn set_sim_clock(&mut self, t: TimeNs)
        requires
            old(self).wf(),
        ensures
            final(self).wf(),
            final(self)@ == (SimView { clock: t, ..old(self)@ }),
    {
        self.clock = t;
    }

    pub(crate) fn set_current_cpu(&mut self, c: CpuId)
        requires
            old(self).wf(),
            c.0 < old(self)@.cpus.len(),
        ensures
            final(self).wf(),
            final(self)@ == old(self)@.on_cpu(c),
    {
        self.current_cpu = c;
    }

    /// Where a task stands in the list.
    pub fn find_task(&self, pid: Pid) -> (r: Option<usize>)
        ensures
            match r {
                Some(i) => self@.find(pid) == Some(i as int) && i < self@.tasks.len()
                    && self@.tasks[i as int].pid == pid,
                None => self@.find(pid) is None,
            },
    {
        let mut i: usize = self.tasks.len();
        proof {
            assert(self.tasks@.take(i as int) =~= self.tasks@);
        }
        while i > 0
            invariant
                i <= self.tasks@.len(),
                self@.tasks == self.tasks@,
                task_at(self.tasks@, pid) == task_at(self.tasks@.take(i as int), pid),
            decreases i,
        {
            proof {
                assert(self.tasks@.take(i as int).drop_last() =~= self.tasks@.take(i - 1));
            }
            if self.tasks[i - 1].pid == pid {
                return Some(i - 1);
            }
            i = i - 1;
        }
        None
    }

    /// The task at a position.
    pub fn task(&self, i: usize) -> (r: SimTask)
        requires
            i < self@.tasks.len(),
        ensures
            r == self@.tasks[i as int],
    {
        self.tasks[i]
    }

    pub(crate) fn put_task(&mut self, i: usize, to: SimTask)
        requires
            old(self).wf(),
            i < old(self)@.tasks.len(),
            to.prev_cpu.0 < old(self)@.cpus.len(),
            to.def < old(self)@.scenario.tasks@.len(),
        ensures
            final(self).wf(),
            final(self)@ == old(self)@.set_task(i as int, to),
    {
        self.tasks.set(i, to);
    }

    /// The first task in a CPU's queue.
    pub fn local_front(&self, c: CpuId) -> (r: Option<Pid>)
        requires
            self.wf(),
            c.0 < self@.cpus.len(),
        ensures
            r == if self@.local[c.0 as int].len() > 0 {
                Some(self@.local[c.0 as int][0])
            } else {
                None
            },
    {
        let i: usize = c.0 as usize;
        if self.local[i].len() > 0 {
            Some(self.local[i][0])
        } else {
            None
        }
    }

    /// Takes the first task off a CPU's queue.
    pub(crate) fn pop_local(&mut self, c: CpuId) -> (r: Pid)
        requires
            old(self).wf(),
            c.0 < old(self)@.cpus.len(),
            old(self)@.local[c.0 as int].len() > 0,
        ensures
            final(self).wf(),
            r == old(self)@.local[c.0 as int][0],
            final(self)@ == old(self)@.set_local(c, old(self)@.local[c.0 as int].skip(1)),
    {
        let i: usize = c.0 as usize;
        let ghost before = self.local@;
        let pid = self.local[i].remove(0);
        proof {
            assert(self.local@[i as int]@ =~= before[i as int]@.skip(1));
            assert(self@.local =~= old(self)@.local.update(
                i as int,
                old(self)@.local[i as int].skip(1),
            ));
            assert(self@ =~= old(self)@.set_local(c, old(self)@.local[c.0 as int].skip(1)));
        }
        pid
    }

    /// Takes everything off a CPU's queue.
    pub(crate) fn take_local(&mut self, c: CpuId) -> (r: Vec<Pid>)
        requires
            old(self).wf(),
            c.0 < old(self)@.cpus.len(),
        ensures
            final(self).wf(),
            r@ == old(self)@.local[c.0 as int],
            final(self)@ == old(self)@.set_local(c, Seq::empty()),
    {
        let mut taken: Vec<Pid> = Vec::new();
        let i: usize = c.0 as usize;
        std::mem::swap(&mut taken, &mut self.local[i]);
        proof {
            assert(self@.local =~= old(self)@.local.update(i as int, Seq::empty()));
            assert(self@ =~= old(self)@.set_local(c, Seq::empty()));
        }
        taken
    }

    /// Takes the task at a position off a CPU's queue.
    pub(crate) fn remove_local(&mut self, c: CpuId, at: usize)
        requires
            old(self).wf(),
            c.0 < old(self)@.cpus.len(),
            at < old(self)@.local[c.0 as int].len(),
        ensures
            final(self).wf(),
            final(self)@ == old(self)@.set_local(c, old(self)@.local[c.0 as int].remove(at as int)),
    {
        let i: usize = c.0 as usize;
        let gone = self.local[i].remove(at);
        proof {
            assert(self@.local =~= old(self)@.local.update(
                i as int,
                old(self)@.local[i as int].remove(at as int),
            ));
            assert(self@ =~= old(self)@.set_local(c, old(self)@.local[c.0 as int].remove(at as int)));
        }
    }

    /// Where a task stands in a CPU's queue.
    pub(crate) fn local_position(&self, c: CpuId, pid: Pid) -> (r: Option<usize>)
        requires
            self.wf(),
            c.0 < self@.cpus.len(),
        ensures
            match r {
                Some(at) => at < self@.local[c.0 as int].len() && self@.local[c.0 as int][at as int]
                    == pid && (forall|j: int| 0 <= j < at ==> self@.local[c.0 as int][j] != pid),
                None => !self@.local[c.0 as int].contains(pid),
            },
    {
        let q = &self.local[c.0 as usize];
        let mut i: usize = 0;
        while i < q.len()
            invariant
                i <= q@.len(),
                q@ == self@.local[c.0 as int],
                forall|j: int| 0 <= j < i ==> q@[j] != pid,
            decreases q@.len() - i,
        {
            if q[i] == pid {
                return Some(i);
            }
            i = i + 1;
        }
        None
    }

    pub(crate) fn record(&mut self, time_ns: TimeNs, cpu: CpuId, kind: TraceKind)
        requires
            old(self).wf(),
        ensures
            final(self).wf(),
            final(self)@ == old(self)@.record(time_ns, cpu, kind),
    {
        self.trace.record(time_ns, cpu, kind);
    }

    pub(crate) fn record_now(&mut self, cpu: CpuId, kind: TraceKind)
        requires
            old(self).wf(),
            cpu.0 < old(self)@.cpus.len(),
        ensures
            final(self).wf(),
            final(self)@ == old(self)@.record_now(cpu, kind),
    {
        let t = self.cpu(cpu).local_clock;
        self.record(t, cpu, kind);
    }

    pub(crate) fn push_event(&mut self, time_ns: TimeNs, kind: EventKind)
        requires
            old(self).wf(),
            old(self)@.events.count < u64::MAX,
            old(self)@.events.ready.len() > 0,
            time_ns <= old(self)@.scenario.duration_ns ==> kind_ok(
                kind,
                old(self)@.cpus.len(),
                old(self)@.scenario,
            ),
        ensures
            final(self).wf(),
            final(self)@ == old(self)@.event(time_ns, kind),
    {
        self.events.push(time_ns, kind);
        proof {
            let q = old(self)@.events;
            let drawn = choose|drawn: Seq<u32>|
                {
                    &&& self@.events == (#[trigger] q.supplied(drawn)).push(time_ns, kind)
                    &&& q.may_draw(drawn)
                    &&& drawn.len() == q.lacks(1)
                };
            assert(q.supplied(drawn) =~= q);
            let e = q.new_event(time_ns, kind);
            lemma_inserted(q.pending, e);
            assert forall|i: int|
                0 <= i < self@.events.pending.len() && (#[trigger] self@.events.pending[i]).time_ns
                    <= self@.scenario.duration_ns implies kind_ok(
                self@.events.pending[i].kind,
                self@.cpus.len(),
                self@.scenario,
            ) by {
                let x = self@.events.pending[i];
                if x != e {
                    let j = choose|j: int| 0 <= j < q.pending.len() && q.pending[j] == x;
                    assert(q.pending[j].time_ns <= old(self)@.scenario.duration_ns);
                }
            }
            assert(self@ == old(self)@.event(time_ns, kind));
            assert(self@.ok());
        }
    }

    /// Draws numbers until there are enough for the events of one step.
    pub fn supply(&mut self)
        requires
            old(self).wf(),
        ensures
            final(self).wf(),
            exists|drawn: Seq<u32>|
                {
                    &&& final(self)@ == #[trigger] old(self)@.supplied(drawn)
                    &&& old(self)@.events.may_draw(drawn)
                    &&& drawn.len() == old(self)@.events.lacks(EVENTS_PER_STEP as nat)
                },
    {
        self.events.supply(EVENTS_PER_STEP);
        proof {
            let q = old(self)@.events;
            let drawn = choose|drawn: Seq<u32>|
                {
                    &&& self@.events == #[trigger] q.supplied(drawn)
                    &&& q.may_draw(drawn)
                    &&& drawn.len() == q.lacks(EVENTS_PER_STEP as nat)
                };
            assert(self@ == old(self)@.supplied(drawn));
            assert(self@.ok());
        }
    }

    pub(crate) fn then_do(&mut self, w: Work)
        requires
            old(self).wf(),
            work_ok(w, old(self)@.cpus.len(), old(self)@.scenario),
        ensures
            final(self).wf(),
            final(self)@ == old(self)@.then_do(w),
    {
        self.work.push(w);
    }

    pub(crate) fn then_call(&mut self, cpu: CpuId, request: Request, note: Option<TraceKind>)
        requires
            old(self).wf(),
            cpu.0 < old(self)@.cpus.len(),
        ensures
            final(self).wf(),
            final(self)@ == old(self)@.then_call(cpu, request, note),
    {
        self.then_do(Work::Call { request, cpu, charge: Some(cpu), note });
    }

    pub(crate) fn then_call_free(&mut self, cpu: CpuId, request: Request)
        requires
            old(self).wf(),
            cpu.0 < old(self)@.cpus.len(),
        ensures
            final(self).wf(),
            final(self)@ == old(self)@.then_call_free(cpu, request),
    {
        self.then_do(Work::Call { request, cpu, charge: None, note: None });
    }

    pub(crate) fn then_if(&mut self, yes: bool, w: Work)
        requires
            old(self).wf(),
            yes ==> work_ok(w, old(self)@.cpus.len(), old(self)@.scenario),
        ensures
            final(self).wf(),
            final(self)@ == old(self)@.then_if(yes, w),
    {
        if yes {
            self.work.push(w);
        }
    }

    /// Takes the next piece of work.
    pub(crate) fn pop_work(&mut self) -> (r: Work)
        requires
            old(self).wf(),
            old(self)@.work.len() > 0,
        ensures
            final(self).wf(),
            r == old(self)@.work.last(),
            work_ok(r, old(self)@.cpus.len(), old(self)@.scenario),
            final(self)@ == (SimView { work: old(self)@.work.drop_last(), ..old(self)@ }),
    {
        proof {
            assert(work_ok(self@.work[self@.work.len() - 1], self@.cpus.len(), self@.scenario));
        }
        let w = self.work.pop();
        proof {
            assert(self@ =~= (SimView { work: old(self)@.work.drop_last(), ..old(self)@ }));
        }
        w.unwrap()
    }

    /// Drops everything that was left to do.
    pub(crate) fn clear_work(&mut self)
        requires
            old(self).wf(),
        ensures
            final(self).wf(),
            final(self)@ == (SimView { work: Seq::empty(), ..old(self)@ }),
    {
        self.work.clear();
    }

    fn stage(&mut self, k: Kick)
        requires
            old(self).wf(),
            k.cpu.0 < old(self)@.cpus.len(),
        ensures
            final(self).wf(),
            final(self)@ == (SimView { staged: old(self)@.staged.push(k), ..old(self)@ }),
    {
        self.staged.push(k);
    }

    fn arm(&mut self, t: Timer)
        requires
            old(self).wf(),
            t.cpu.0 < old(self)@.cpus.len(),
            t.slot < MAX_BPF_TIMERS,
        ensures
            final(self).wf(),
            final(self)@ == (SimView {
                timers: old(self)@.timers.update(t.slot as int, Some((t.fire_at, t.cpu))),
                ..old(self)@
            }),
    {
        self.timers.set(t.slot as usize, Some((t.fire_at, t.cpu)));
    }

    fn insert_local(&mut self, ins: Insert)
        requires
            old(self).wf(),
            ins.cpu.0 < old(self)@.cpus.len(),
        ensures
            final(self).wf(),
            final(self)@ == old(self)@.set_local(
                ins.cpu,
                old(self)@.local[ins.cpu.0 as int].push(ins.pid),
            ),
    {
        let at: usize = ins.cpu.0 as usize;
        self.local[at].push(ins.pid);
        proof {
            assert(self@.local =~= old(self)@.local.update(
                at as int,
                old(self)@.local[at as int].push(ins.pid),
            ));
        }
    }

    /// Takes in what happened during a callback.
    pub(crate) fn absorb(&mut self, reply: &Reply)
        requires
            old(self).wf(),
            reply@.ok(old(self)@.cpus.len()),
        ensures
            final(self).wf(),
            final(self)@ == old(self)@.absorb(reply@),
    {
        let mut i: usize = 0;
        proof {
            assert(self.trace.events@ + reply.records@.take(0) =~= self.trace.events@);
        }
        while i < reply.records.len()
            invariant
                i <= reply.records@.len(),
                self.wf(),
                self@ == (SimView {
                    trace: old(self)@.trace + reply.records@.take(i as int),
                    ..old(self)@
                }),
            decreases reply.records@.len() - i,
        {
            let e = reply.records[i];
            self.record(e.time_ns, e.cpu, e.kind);
            proof {
                assert(old(self)@.trace + reply.records@.take(i + 1) =~= (old(self)@.trace
                    + reply.records@.take(i as int)).push(e));
            }
            i = i + 1;
        }
        let ghost s1 = self@;
        proof {
            assert(reply.records@.take(reply.records@.len() as int) =~= reply.records@);
            assert(s1.staged + reply.kicks@.take(0) =~= s1.staged);
        }
        i = 0;
        while i < reply.kicks.len()
            invariant
                i <= reply.kicks@.len(),
                self.wf(),
                reply@.ok(self@.cpus.len()),
                s1.cpus == old(self)@.cpus,
                self@ == (SimView { staged: s1.staged + reply.kicks@.take(i as int), ..s1 }),
            decreases reply.kicks@.len() - i,
        {
            assert(reply@.kicks[i as int].cpu.0 < self@.cpus.len());
            self.stage(reply.kicks[i]);
            proof {
                assert(s1.staged + reply.kicks@.take(i + 1) =~= (s1.staged + reply.kicks@.take(
                    i as int,
                )).push(reply.kicks@[i as int]));
            }
            i = i + 1;
        }
        let ghost s2 = self@;
        proof {
            assert(reply.kicks@.take(reply.kicks@.len() as int) =~= reply.kicks@);
            assert(reply.timers@.take(0) =~= Seq::empty());
        }
        i = 0;
        while i < reply.timers.len()
            invariant
                i <= reply.timers@.len(),
                self.wf(),
                reply@.ok(self@.cpus.len()),
                s2.timers.len() == MAX_BPF_TIMERS,
                armed(s2.timers, reply.timers@.take(i as int)).len() == MAX_BPF_TIMERS,
                self@ == (SimView { timers: armed(s2.timers, reply.timers@.take(i as int)), ..s2 }),
            decreases reply.timers@.len() - i,
        {
            assert(reply@.timers[i as int].cpu.0 < self@.cpus.len());
            self.arm(reply.timers[i]);
            proof {
                assert(reply.timers@.take(i + 1).drop_last() =~= reply.timers@.take(i as int));
            }
            i = i + 1;
        }
        let ghost s3 = self@;
        proof {
            assert(reply.timers@.take(reply.timers@.len() as int) =~= reply.timers@);
            assert(reply.inserts@.take(0) =~= Seq::empty());
        }
        i = 0;
        while i < reply.inserts.len()
            invariant
                i <= reply.inserts@.len(),
                self.wf(),
                reply@.ok(self@.cpus.len()),
                queued(s3.local, reply.inserts@.take(i as int)).len() == s3.local.len(),
                self@ == (SimView { local: queued(s3.local, reply.inserts@.take(i as int)), ..s3 }),
            decreases reply.inserts@.len() - i,
        {
            assert(reply@.inserts[i as int].cpu.0 < self@.cpus.len());
            self.insert_local(reply.inserts[i]);
            proof {
                assert(reply.inserts@.take(i + 1).drop_last() =~= reply.inserts@.take(i as int));
            }
            i = i + 1;
        }
        proof {
            assert(reply.inserts@.take(reply.inserts@.len() as int) =~= reply.inserts@);
        }
        if self.error.is_none() {
            match &reply.error {
                Some(message) => {
                    self.error = Some(message.clone());
                },
                None => {},
            }
        }
        proof {
            assert(self@ =~= old(self)@.absorb(reply@));
        }
    }

    /// What a branch costs, if branches cost anything.
    fn ns_per_branch(&self) -> (r: Option<u64>)
        ensures
            r == self@.ns_per_branch(),
    {
        match self.scenario.sched_overhead_rbc_ns {
            Some(ns) => if ns > 0 {
                Some(ns)
            } else {
                None
            },
            None => None,
        }
    }

    /// Charges what a callback cost to a CPU.
    pub(crate) fn charge_sched_time(&mut self, c: CpuId, cost: Cost)
        requires
            old(self).wf(),
            c.0 < old(self)@.cpus.len(),
        ensures
            final(self).wf(),
            final(self)@ == old(self)@.charge(c, cost),
    {
        let i: usize = c.0 as usize;
        let mut a = self.accum[i];
        a.cpu_count = add_sat(a.cpu_count, 1);
        a.kfunc_count = add_sat(a.kfunc_count, cost.kfunc_calls as u64);
        self.accum.set(i, a);
        match self.counter {
            BranchCounter::Absent => {
                if self.scenario.overhead.enabled {
                    self.add_clock(
                        c,
                        if cost.kfunc_ns >= MIN_CALLBACK_COST_NS {
                            cost.kfunc_ns
                        } else {
                            MIN_CALLBACK_COST_NS
                        },
                    );
                }
            },
            _ => {
                if cost.final_interval > self.stats.longest_rbc_interval {
                    self.stats.longest_rbc_interval = cost.final_interval;
                }
                if cost.branches > self.stats.longest_structop_rbc {
                    self.stats.longest_structop_rbc = cost.branches;
                }
                if let Some(ns) = self.ns_per_branch() {
                    a.rbc_total = add_sat(a.rbc_total, cost.branches);
                    self.accum.set(i, a);
                    let total = add_sat(mul_sat(cost.branches, ns), cost.kfunc_ns);
                    proof {
                        assert(cost.branches * ns >= 0) by (nonlinear_arith);
                        assert(self@.accum =~= old(self)@.accum.update(i as int, a));
                    }
                    self.add_clock(c, total);
                }
            },
        }
        proof {
            assert(self@ =~= old(self)@.charge(c, cost));
        }
    }
}

/// Whether one kick is delivered before another.
pub open spec fn kicks_before(a: Kick, b: Kick) -> bool {
    a.time_ns < b.time_ns || (a.time_ns == b.time_ns && a.cpu.0 < b.cpu.0)
}

/// The position of the kick that is delivered first: the earliest, on the
/// lowest CPU, sent first.
pub open spec fn first_kick(staged: Seq<Kick>) -> int
    decreases staged.len(),
{
    if staged.len() <= 1 {
        0
    } else {
        let f = first_kick(staged.drop_last());
        if kicks_before(staged.last(), staged[f]) {
            staged.len() - 1
        } else {
            f
        }
    }
}

/// No kick is delivered before the first, and none sent earlier at the same
/// time to the same CPU.
pub proof fn lemma_first_kick(staged: Seq<Kick>)
    requires
        staged.len() > 0,
    ensures
        0 <= first_kick(staged) < staged.len(),
        forall|j: int|
            0 <= j < staged.len() ==> !kicks_before(#[trigger] staged[j], staged[first_kick(staged)]),
        forall|j: int|
            0 <= j < first_kick(staged) ==> kicks_before(
                staged[first_kick(staged)],
                #[trigger] staged[j],
            ),
    decreases staged.len(),
{
    if staged.len() > 1 {
        lemma_first_kick(staged.drop_last());
        let rest = staged.drop_last();
        assert forall|j: int| 0 <= j < staged.len() implies !kicks_before(
            #[trigger] staged[j],
            staged[first_kick(staged)],
        ) by {
            if j < rest.len() {
                assert(!kicks_before(rest[j], rest[first_kick(rest)]));
            }
        }
        assert forall|j: int| 0 <= j < first_kick(staged) implies kicks_before(
            staged[first_kick(staged)],
            #[trigger] staged[j],
        ) by {
            assert(!kicks_before(rest[j], rest[first_kick(rest)]));
            if first_kick(staged) == first_kick(rest) {
                assert(kicks_before(rest[first_kick(rest)], rest[j]));
            }
        }
    }
}

/// The kicks to other CPUs than `c`, in order.
pub open spec fn kicks_elsewhere(staged: Seq<Kick>, c: CpuId) -> Seq<Kick>
    decreases staged.len(),
{
    if staged.len() == 0 {
        staged
    } else {
        let rest = kicks_elsewhere(staged.drop_last(), c);
        if staged.last().cpu == c {
            rest
        } else {
            rest.push(staged.last())
        }
    }
}

/// Whether a kick asks a CPU to preempt.
pub open spec fn preempts(staged: Seq<Kick>, c: CpuId) -> bool {
    exists|i: int|
        0 <= i < staged.len() && (#[trigger] staged[i]).cpu == c && staged[i].flags.spec_preempt()
}

/// The position of the first task held back for a control group.
pub open spec fn first_blocked(blocked: Seq<(CgroupId, Pid)>, cgid: CgroupId) -> Option<int>
    decreases blocked.len(),
{
    if blocked.len() == 0 {
        None
    } else {
        match first_blocked(blocked.drop_last(), cgid) {
            Some(i) => Some(i),
            None => if blocked.last().0 == cgid {
                Some(blocked.len() - 1)
            } else {
                None
            },
        }
    }
}

/// A state in which the timers armed in the first `n` slots have become
/// events.
pub open spec fn timers_sent(s: SimView, n: nat) -> SimView
    decreases n,
{
    if n == 0 {
        s
    } else {
        let before = timers_sent(s, (n - 1) as nat);
        match s.timers[n - 1] {
            Some((at, cpu)) => SimView {
                timers: before.timers.update(n - 1, None),
                ..before.event(at, EventKind::TimerFired { cpu, slot: (n - 1) as u8 })
            },
            None => before,
        }
    }
}

impl SimState {
    /// Takes the kick that is delivered first.
    pub(crate) fn take_kick(&mut self) -> (r: Option<Kick>)
        requires
            old(self).wf(),
        ensures
            final(self).wf(),
            match r {
                Some(k) => old(self)@.staged.len() > 0 && k == old(self)@.staged[first_kick(
                    old(self)@.staged,
                )] && k.cpu.0 < old(self)@.cpus.len() && final(self)@ == (SimView {
                    staged: old(self)@.staged.remove(first_kick(old(self)@.staged)),
                    ..old(self)@
                }),
                None => old(self)@.staged.len() == 0 && final(self)@ == old(self)@,
            },
    {
        if self.staged.len() == 0 {
            return None;
        }
        let mut first: usize = 0;
        let mut i: usize = 1;
        proof {
            assert(self.staged@.take(1).len() == 1);
        }
        while i < self.staged.len()
            invariant
                1 <= i <= self.staged@.len(),
                first < i,
                first == first_kick(self.staged@.take(i as int)),
            decreases self.staged@.len() - i,
        {
            proof {
                assert(self.staged@.take(i + 1).drop_last() =~= self.staged@.take(i as int));
            }
            let k = self.staged[i];
            let f = self.staged[first];
            if k.time_ns < f.time_ns || (k.time_ns == f.time_ns && k.cpu.0 < f.cpu.0) {
                first = i;
            }
            i = i + 1;
        }
        proof {
            assert(self.staged@.take(i as int) =~= self.staged@);
            assert(self@.staged[first as int].cpu.0 < self@.cpus.len());
        }
        let k = self.staged.remove(first);
        Some(k)
    }

    /// Whether a kick asks a CPU to preempt.
    pub(crate) fn is_preempted(&self, c: CpuId) -> (r: bool)
        ensures
            r == preempts(self@.staged, c),
    {
        let mut i: usize = 0;
        while i < self.staged.len()
            invariant
                i <= self.staged@.len(),
                forall|j: int|
                    0 <= j < i ==> !((#[trigger] self.staged@[j]).cpu == c
                        && self.staged@[j].flags.spec_preempt()),
            decreases self.staged@.len() - i,
        {
            if self.staged[i].cpu == c && self.staged[i].flags.preempt() {
                assert(self@.staged[i as int].cpu == c);
                return true;
            }
            i = i + 1;
        }
        false
    }

    /// Forgets the kicks to a CPU.
    pub(crate) fn drop_kicks(&mut self, c: CpuId)
        requires
            old(self).wf(),
        ensures
            final(self).wf(),
            final(self)@ == (SimView {
                staged: kicks_elsewhere(old(self)@.staged, c),
                ..old(self)@
            }),
    {
        let mut kept: Vec<Kick> = Vec::new();
        let mut i: usize = 0;
        let n = self.cpus.len();
        while i < self.staged.len()
            invariant
                i <= self.staged@.len(),
                kept@ == kicks_elsewhere(self.staged@.take(i as int), c),
                n == self@.cpus.len(),
                self@.ok(),
                self@.staged == self.staged@,
                forall|j: int| 0 <= j < kept@.len() ==> (#[trigger] kept@[j]).cpu.0 < n,
            decreases self.staged@.len() - i,
        {
            proof {
                assert(self.staged@.take(i + 1).drop_last() =~= self.staged@.take(i as int));
                assert(self@.staged[i as int].cpu.0 < n);
            }
            if self.staged[i].cpu != c {
                kept.push(self.staged[i]);
            }
            i = i + 1;
        }
        proof {
            assert(self.staged@.take(i as int) =~= self.staged@);
        }
        self.staged = kept;
    }

    /// Turns the armed timers into events.
    pub(crate) fn send_timers(&mut self)
        requires
            old(self).wf(),
            old(self)@.events.count + MAX_BPF_TIMERS <= u64::MAX,
            old(self)@.events.ready.len() >= MAX_BPF_TIMERS,
        ensures
            final(self).wf(),
            final(self)@ == timers_sent(old(self)@, MAX_BPF_TIMERS as nat),
    {
        let mut i: usize = 0;
        let ghost s = self@;
        while i < MAX_BPF_TIMERS
            invariant
                i <= MAX_BPF_TIMERS,
                self.wf(),
                s.ok(),
                s.events.count + MAX_BPF_TIMERS <= u64::MAX,
                s.events.ready.len() >= MAX_BPF_TIMERS,
                self@ == timers_sent(s, i as nat),
                self@.cpus == s.cpus,
                self@.scenario == s.scenario,
                self@.timers.len() == MAX_BPF_TIMERS,
                self@.events.count <= s.events.count + i,
                self@.events.count + self@.events.ready.len() == s.events.count
                    + s.events.ready.len(),
                forall|j: int| i <= j < MAX_BPF_TIMERS ==> self@.timers[j] == s.timers[j],
            decreases MAX_BPF_TIMERS - i,
        {
            proof {
                assert(self@.timers[i as int] == s.timers[i as int]);
                assert(self@.timers[i as int] is Some ==> (self@.timers[i as int]->0).1.0 < s.cpus.len());
            }
            let slot = self.timers[i];
            match slot {
                Some((at, cpu)) => {
                    self.push_event(at, EventKind::TimerFired { cpu, slot: i as u8 });
                    self.disarm(i);
                },
                None => {},
            }
            i = i + 1;
        }
    }

    fn disarm(&mut self, slot: usize)
        requires
            old(self).wf(),
            slot < MAX_BPF_TIMERS,
        ensures
            final(self).wf(),
            final(self)@ == (SimView {
                timers: old(self)@.timers.update(slot as int, None),
                ..old(self)@
            }),
    {
        self.timers.set(slot, None);
    }

    pub(crate) fn block(&mut self, cgid: CgroupId, pid: Pid)
        requires
            old(self).wf(),
        ensures
            final(self).wf(),
            final(self)@ == (SimView { blocked: old(self)@.blocked.push((cgid, pid)), ..old(self)@ }),
    {
        self.blocked.push((cgid, pid));
    }

    /// Takes the task held back longest for a control group.
    pub(crate) fn take_blocked(&mut self, cgid: CgroupId) -> (r: Option<Pid>)
        requires
            old(self).wf(),
        ensures
            final(self).wf(),
            match first_blocked(old(self)@.blocked, cgid) {
                Some(i) => r == Some(old(self)@.blocked[i].1) && 0 <= i < old(self)@.blocked.len()
                    && final(self)@ == (SimView {
                    blocked: old(self)@.blocked.remove(i),
                    ..old(self)@
                }),
                None => r is None && final(self)@ == old(self)@,
            },
    {
        let mut i: usize = 0;
        while i < self.blocked.len()
            invariant
                i <= self.blocked@.len(),
                self@ == old(self)@,
                self.wf(),
                self.blocked@ == self@.blocked,
                first_blocked(self.blocked@.take(i as int), cgid) is None,
            decreases self.blocked@.len() - i,
        {
            proof {
                assert(self.blocked@.take(i + 1).drop_last() =~= self.blocked@.take(i as int));
            }
            if self.blocked[i].0 == cgid {
                proof {
                    lemma_first_blocked_stays(self.blocked@, cgid, i + 1);
                }
                let gone = self.blocked.remove(i);
                return Some(gone.1);
            }
            i = i + 1;
        }
        proof {
            assert(self.blocked@.take(i as int) =~= self.blocked@);
        }
        None
    }

    /// The phase a task is in.
    pub fn current_phase(&self, t: &SimTask) -> (r: Option<Phase>)
        requires
            t.def < self@.scenario.tasks@.len(),
        ensures
            r == self@.current_phase(*t),
    {
        let phases = &self.scenario.tasks[t.def].behavior.phases;
        if t.phase < phases.len() {
            Some(phases[t.phase])
        } else {
            None
        }
    }

    fn repeats(&self, t: &SimTask, rounds: u32) -> (r: bool)
        requires
            t.def < self@.scenario.tasks@.len(),
        ensures
            r == self@.repeats(*t, rounds),
    {
        match self.scenario.tasks[t.def].behavior.repeat {
            RepeatMode::Once => false,
            RepeatMode::Count(n) => rounds < n,
            RepeatMode::Forever => true,
        }
    }

    /// Whether a task has a phase after the current one.
    pub fn has_next_phase(&self, t: &SimTask) -> (r: bool)
        requires
            t.def < self@.scenario.tasks@.len(),
        ensures
            r == self@.has_next_phase(*t),
    {
        let n = self.scenario.tasks[t.def].behavior.phases.len();
        (t.phase < n && t.phase + 1 < n) || self.repeats(t, t.rounds.saturating_add(1))
    }

    /// A task in its next phase.
    pub fn advance_phase(&self, t: &SimTask) -> (r: SimTask)
        requires
            t.def < self@.scenario.tasks@.len(),
        ensures
            r == self@.advance_phase(*t),
    {
        let n = self.scenario.tasks[t.def].behavior.phases.len();
        let last = !(t.phase < n && t.phase + 1 < n);
        let has_next = self.has_next_phase(t);
        let mut moved = *t;
        if last {
            moved.rounds = t.rounds.saturating_add(1);
        }
        if last && self.repeats(t, moved.rounds) {
            moved.phase = 0;
        } else if t.phase < usize::MAX {
            moved.phase = t.phase + 1;
        }
        if has_next {
            if let Some(Phase::Run(ns)) = self.current_phase(&moved) {
                moved.run_remaining_ns = ns;
            }
        }
        moved
    }

    pub(crate) fn registry(&self) -> (r: &CgroupRegistry)
        ensures
            r@ == self@.registry,
    {
        &self.registry
    }

    /// Creates a control group.
    pub(crate) fn create_cgroup(
        &mut self,
        name: &str,
        parent: CgroupId,
        cpuset: Option<Vec<CpuId>>,
    ) -> (r: CgroupId)
        requires
            old(self).wf(),
            old(self)@.registry.get(parent.0) is Some,
            old(self)@.registry.get(parent.0)->0.level < u32::MAX,
            old(self)@.registry.next < u64::MAX,
        ensures
            final(self).wf(),
            r.0 == old(self)@.registry.next,
            final(self)@ == (SimView {
                registry: old(self)@.registry.create(name@, parent.0, cpuset_view(cpuset)),
                ..old(self)@
            }),
    {
        self.registry.create(name, parent, cpuset)
    }

    /// Destroys a control group.
    pub(crate) fn destroy_cgroup(&mut self, name: &str) -> (r: Option<CgroupId>)
        requires
            old(self).wf(),
        ensures
            final(self).wf(),
            match r {
                Some(cgid) => named(old(self)@.registry.names, name@) == Some(cgid.0),
                None => named(old(self)@.registry.names, name@) is None,
            },
            final(self)@ == (SimView {
                registry: old(self)@.registry.destroy(name@),
                ..old(self)@
            }),
    {
        self.registry.destroy_by_name(name)
    }

    /// Gives a control group another CPU set.
    pub(crate) fn change_cpuset(&mut self, name: &str, cpus: Vec<CpuId>) -> (r: bool)
        requires
            old(self).wf(),
        ensures
            final(self).wf(),
            r == (old(self)@.registry.get_by_name(name@) is Some),
            final(self)@ == (SimView {
                registry: old(self)@.registry.with_cpuset(name@, cpus@),
                ..old(self)@
            }),
    {
        self.registry.update_cpuset(name, cpus)
    }

    pub(crate) fn set_exit(&mut self, exit: ExitKind)
        requires
            old(self).wf(),
        ensures
            final(self).wf(),
            final(self)@ == (SimView { exit: exit@, ..old(self)@ }),
    {
        self.exit = exit;
    }

    /// Takes the error that the scheduler raised.
    pub(crate) fn take_error(&mut self) -> (r: Option<String>)
        requires
            old(self).wf(),
        ensures
            final(self).wf(),
            crate::state::text_view(r) == old(self)@.error,
            final(self)@ == (SimView { error: None, ..old(self)@ }),
    {
        let mut taken: Option<String> = None;
        std::mem::swap(&mut taken, &mut self.error);
        taken
    }

    /// When the next event is due.
    pub(crate) fn peek_time(&self) -> (r: Option<TimeNs>)
        requires
            self.wf(),
        ensures
            r == if self@.events.pending.len() == 0 {
                None
            } else {
                Some(self@.events.pending[0].time_ns)
            },
    {
        self.events.peek_time()
    }

    /// Takes the next event.
    pub(crate) fn pop_event(&mut self) -> (r: Event)
        requires
            old(self).wf(),
            old(self)@.events.pending.len() > 0,
        ensures
            final(self).wf(),
            r == old(self)@.events.pending[0],
            r.time_ns <= old(self)@.scenario.duration_ns ==> kind_ok(
                r.kind,
                old(self)@.cpus.len(),
                old(self)@.scenario,
            ),
            final(self)@ == (SimView { events: old(self)@.events.take(0), ..old(self)@ }),
    {
        let e = self.events.pop();
        proof {
            let before = old(self)@.events.pending;
            assert forall|j: int|
                0 <= j < self@.events.pending.len() && (#[trigger] self@.events.pending[j]).time_ns
                    <= self@.scenario.duration_ns implies kind_ok(
                self@.events.pending[j].kind,
                self@.cpus.len(),
                self@.scenario,
            ) by {
                assert(self@.events.pending[j] == before[j + 1]);
            }
            assert(before[0] == e->0);
            assert(self@ == (SimView { events: self@.events, ..old(self)@ }));
            assert(self@.ok());
        }
        match e {
            Some(e) => e,
            None => Event { time_ns: 0, seq: 0, kind: EventKind::Tick { cpu: CpuId(0) } },
        }
    }
}

/// The first task held back stays the first when more are.
proof fn lemma_first_blocked_stays(blocked: Seq<(CgroupId, Pid)>, cgid: CgroupId, n: int)
    requires
        0 < n <= blocked.len(),
        first_blocked(blocked.take(n), cgid) == Some(n - 1),
    ensures
        first_blocked(blocked, cgid) == Some(n - 1),
    decreases blocked.len(),
{
    if n == blocked.len() {
        assert(blocked.take(n) =~= blocked);
    } else {
        assert(blocked.drop_last().take(n) =~= blocked.take(n));
        lemma_first_blocked_stays(blocked.drop_last(), cgid, n);
    }
}

} // verus!
