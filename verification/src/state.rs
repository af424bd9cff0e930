//! The state of a running simulation: CPUs, tasks, queues of pending work.

use vstd::prelude::*;

use crate::event_queue::{EventKind, WakerInfo};
use crate::scenario::{BandwidthDef, FutexOp};
use crate::trace::{ExitKind, Trace, TraceEvent, TraceKind};
use crate::types::{CgroupId, CpuId, KickFlags, Pid, TimeNs};

verus! {

/// How many timers a scheduler can arm at a time.
pub const MAX_BPF_TIMERS: usize = 8;

/// Which interrupt a CPU is serving.
#[derive(Clone, Copy, Debug, PartialEq, Eq, Structural)]
pub enum IrqContext {
    Task,
    HardIrq,
    ServingSoftIrq,
}

/// One simulated CPU.
#[derive(Clone, Copy, Debug, PartialEq, Eq, Structural)]
pub struct SimCpu {
    pub id: CpuId,
    /// What the CPU runs.
    pub current_task: Option<Pid>,
    /// What the CPU ran last, until it goes idle or runs something else.
    pub prev_task: Option<Pid>,
    pub task_started_at: Option<TimeNs>,
    pub task_original_slice: Option<TimeNs>,
    /// The CPU's own clock; never behind the time of an event it serves.
    pub local_clock: TimeNs,
    pub is_online: bool,
    pub irq_context: IrqContext,
    /// Interrupt time since the current task started.
    pub irq_stolen_ns: TimeNs,
    /// Interrupt time since the simulation started.
    pub irq_cumulative_ns: TimeNs,
    /// Which last-level cache the CPU shares.
    pub llc_id: u32,
}

/// Whether a task wants to run.
#[derive(Clone, Copy, Debug, PartialEq, Eq, Structural)]
pub enum TaskState {
    Sleeping,
    Runnable,
    Running { cpu: CpuId },
    Exited,
}

/// Whether the scheduler holds a task in its queues.
#[derive(Clone, Copy, Debug, PartialEq, Eq, Structural)]
pub enum OpsTaskState {
    Free,
    Queued,
}

/// One simulated task.
#[derive(Clone, Copy, Debug, PartialEq, Eq, Structural)]
pub struct SimTask {
    pub pid: Pid,
    /// The task's entry in the scenario.
    pub def: usize,
    pub state: TaskState,
    /// The CPU it was last placed on.
    pub prev_cpu: CpuId,
    /// What is left of the current compute phase.
    pub run_remaining_ns: TimeNs,
    /// Since when the task waits to run.
    pub runnable_at_ns: Option<TimeNs>,
    /// When the wakeup came that it has not run since.
    pub enqueued_at_ns: Option<TimeNs>,
    /// Accumulated runtime when it last started.
    pub sum_exec_base: TimeNs,
    /// Whether the scheduler was told that the task entered its class.
    pub enabled: bool,
    pub ops_state: OpsTaskState,
    /// The control group whose limit the task counts against.
    pub cgid: Option<CgroupId>,
    /// The current phase.
    pub phase: usize,
    /// How often the list of phases has been completed.
    pub rounds: u32,
}

/// Counts of scheduler callbacks on one CPU.
#[derive(Clone, Copy, Debug, PartialEq, Eq, Structural)]
pub struct StructopInfo {
    pub cpu_count: u64,
    pub kfunc_count: u64,
    pub rbc_total: u64,
    pub interleave_count: u64,
}

/// The longest stretches of scheduler code seen, in branches.
#[derive(Clone, Copy, Debug, PartialEq, Eq, Structural)]
pub struct RbcStats {
    pub longest_structop_rbc: u64,
    pub longest_rbc_interval: u64,
}

/// What counts the branches that scheduler code executes.
#[derive(Clone, Copy, Debug, PartialEq, Eq, Structural)]
pub enum BranchCounter {
    /// The instrumented scheduler counts them itself.
    Software,
    /// The processor counts them.
    Hardware,
    /// Nothing does.
    Absent,
}

/// A kick on its way to a CPU.
#[derive(Clone, Copy, Debug, PartialEq, Eq, Structural)]
pub struct Kick {
    pub time_ns: TimeNs,
    pub cpu: CpuId,
    pub flags: KickFlags,
}

/// A timer that the scheduler armed.
#[derive(Clone, Copy, Debug, PartialEq, Eq, Structural)]
pub struct Timer {
    pub slot: u8,
    pub fire_at: TimeNs,
    pub cpu: CpuId,
}

/// A task put at the end of a CPU's local queue.
#[derive(Clone, Copy, Debug, PartialEq, Eq, Structural)]
pub struct Insert {
    pub cpu: CpuId,
    pub pid: Pid,
}

/// What a scheduler callback cost.
#[derive(Clone, Copy, Debug, PartialEq, Eq, Structural)]
pub struct Cost {
    /// Branches executed.
    pub branches: u64,
    /// Branches executed since the last kernel function was called.
    pub final_interval: u64,
    /// Kernel functions called.
    pub kfunc_calls: u32,
    /// What those cost.
    pub kfunc_ns: u64,
}

/// Moments at which an observer may look at the scheduler's state.
#[derive(Clone, Copy, Debug, PartialEq, Eq, Structural)]
pub enum ProbePoint {
    Dispatched,
    Running,
    Stopping,
    Quiescent,
}

/// Why a simulation cannot go on.
#[derive(Clone, Copy, Debug, PartialEq, Eq, Structural)]
pub enum HaltReason {
    /// The scheduler's `init` failed.
    InitFailed { rc: i64 },
    /// The scheduler refused a control group that exists at load time.
    CgroupInitFailed { cgid: CgroupId, rc: i64 },
    /// The scheduler refused a task.
    InitTaskFailed { pid: Pid, rc: i64 },
    /// A migration names a control group that does not exist: its entry in
    /// the scenario's list of migrations.
    MigrateCgroupMissing { event: usize },
    /// A control group is to be created under one that does not exist: its
    /// entry in the scenario's list of creations.
    ParentCgroupMissing { event: usize },
    /// A counter is at the end of its range.
    OutOfRange,
}

/// What the simulation asks of the scheduler and of the world around it.
#[derive(Clone, Copy, Debug, PartialEq, Eq, Structural)]
pub enum Request {
    /// Nothing; go on.
    Continue,
    /// The simulation is over.
    Finished,
    /// The simulation cannot go on.
    Halt(HaltReason),
    // Scheduler callbacks.
    Init,
    Exit,
    Dump,
    DumpTask { pid: Pid },
    InitTask { pid: Pid, cgid: Option<CgroupId> },
    ExitTask { pid: Pid },
    SetCpumask { pid: Pid },
    Enable { pid: Pid },
    CgroupInit { cgid: CgroupId },
    CgroupExit { cgid: CgroupId },
    CgroupSetBandwidth { cgid: CgroupId, bandwidth: BandwidthDef },
    CgroupMove { pid: Pid, from: CgroupId, to: CgroupId },
    UpdateIdle { cpu: CpuId, idle: bool },
    FireTimer { cpu: CpuId, slot: u8 },
    Tick { cpu: CpuId, pid: Pid, sum_exec: TimeNs },
    CpuOffline { cpu: CpuId },
    CpuOnline { cpu: CpuId },
    CpuRelease { cpu: CpuId },
    CpuAcquire { cpu: CpuId },
    Runnable { cpu: CpuId, pid: Pid, flags: u64, waker: Option<Pid> },
    SelectCpu { cpu: CpuId, pid: Pid, prev_cpu: CpuId, flags: u64, waker: Option<Pid> },
    Enqueue { cpu: CpuId, pid: Pid, flags: u64 },
    Dequeue { cpu: CpuId, pid: Pid, flags: u64 },
    Dispatch { cpu: CpuId, prev: Option<Pid> },
    Running { cpu: CpuId, pid: Pid },
    /// `slice` is what is left of the time slice, `sum_exec` the runtime.
    Stopping { cpu: CpuId, pid: Pid, runnable: bool, slice: TimeNs, sum_exec: TimeNs },
    Quiescent { cpu: CpuId, pid: Pid, flags: u64 },
    FutexOp { cpu: CpuId, op: FutexOp },
    // Questions.
    /// Move a task from the global queue to the CPU's; the value tells
    /// whether there was one.
    ConsumeGlobal { cpu: CpuId },
    /// Whether a control group is held back: value 1 if it is.
    IsThrottled { cgid: CgroupId },
    /// A task's time slice.
    Slice { pid: Pid },
    /// A task's time slice and its control group's remaining budget.
    Limits { pid: Pid, cgid: Option<CgroupId> },
    /// Mark a CPU idle.
    MarkIdle { cpu: CpuId },
    /// Mark a CPU busy with a task; value 1 if it was idle.
    MarkBusy { cpu: CpuId, pid: Pid },
    /// Forget a task in every queue but the local ones.
    RemoveFromQueues { pid: Pid },
    /// How far the next tick deviates from its interval.
    TickJitter,
    /// What a context switch costs.
    SwitchCost { voluntary: bool },
    /// How long a wakeup takes at least.
    WakeupLatency { floor: TimeNs },
    /// How far a compute phase deviates from its length.
    RunJitter { stddev: u64 },
    /// Record the lengths of the queues.
    SampleQueues { time_ns: TimeNs },
    /// Let an observer look.
    Probe { point: ProbePoint, pid: Pid, cpu: CpuId, time_ns: TimeNs },
}

/// The answer to a request: what was returned, and what happened meanwhile.
pub struct Reply {
    /// The value returned or drawn; 1 and 0 for yes and no.
    pub value: i64,
    pub cost: Cost,
    /// The time slice of the task in question.
    pub slice: TimeNs,
    /// The runtime of the task in question.
    pub sum_exec: TimeNs,
    /// The remaining budget; none or the largest number for no limit.
    pub budget: Option<u64>,
    /// The CPU that a wakeup was dispatched to directly.
    pub direct: Option<CpuId>,
    /// Trace entries written meanwhile.
    pub records: Vec<TraceEvent>,
    /// Kicks sent.
    pub kicks: Vec<Kick>,
    /// Timers armed.
    pub timers: Vec<Timer>,
    /// Tasks put into local queues.
    pub inserts: Vec<Insert>,
    /// What a timer callback did to control group budgets.
    pub budget_events: Vec<TraceKind>,
    /// The message of an error that the scheduler raised.
    pub error: Option<String>,
}

/// A reply as contracts see it.
pub struct ReplyView {
    pub value: i64,
    pub cost: Cost,
    pub slice: TimeNs,
    pub sum_exec: TimeNs,
    pub budget: Option<u64>,
    pub direct: Option<CpuId>,
    pub records: Seq<TraceEvent>,
    pub kicks: Seq<Kick>,
    pub timers: Seq<Timer>,
    pub inserts: Seq<Insert>,
    pub budget_events: Seq<TraceKind>,
    pub error: Option<Seq<char>>,
}

/// A text as contracts see it.
pub open spec fn text_view(t: Option<String>) -> Option<Seq<char>> {
    match t {
        Some(s) => Some(s@),
        None => None,
    }
}

impl View for Reply {
    type V = ReplyView;

    open spec fn view(&self) -> ReplyView {
        ReplyView {
            value: self.value,
            cost: self.cost,
            slice: self.slice,
            sum_exec: self.sum_exec,
            budget: self.budget,
            direct: self.direct,
            records: self.records@,
            kicks: self.kicks@,
            timers: self.timers@,
            inserts: self.inserts@,
            budget_events: self.budget_events@,
            error: text_view(self.error),
        }
    }
}

impl ReplyView {
    /// Whether every CPU and timer slot that the reply names exists.
    pub open spec fn ok(self, nr_cpus: nat) -> bool {
        &&& self.direct is Some ==> (self.direct->0).0 < nr_cpus
        &&& forall|i: int| 0 <= i < self.kicks.len() ==> (#[trigger] self.kicks[i]).cpu.0 < nr_cpus
        &&& forall|i: int|
            0 <= i < self.timers.len() ==> (#[trigger] self.timers[i]).cpu.0 < nr_cpus
                && self.timers[i].slot < MAX_BPF_TIMERS
        &&& forall|i: int|
            0 <= i < self.inserts.len() ==> (#[trigger] self.inserts[i]).cpu.0 < nr_cpus
    }

    /// A reply that says nothing, but for an error that may have been raised.
    pub open spec fn silent(error: Option<Seq<char>>) -> ReplyView {
        ReplyView {
            value: 0,
            cost: Cost { branches: 0, final_interval: 0, kfunc_calls: 0, kfunc_ns: 0 },
            slice: 0,
            sum_exec: 0,
            budget: None,
            direct: None,
            records: Seq::empty(),
            kicks: Seq::empty(),
            timers: Seq::empty(),
            inserts: Seq::empty(),
            budget_events: Seq::empty(),
            error,
        }
    }
}

impl Reply {
    /// Whether every CPU and timer slot that the reply names exists.
    pub fn is_ok(&self, nr_cpus: usize) -> (r: bool)
        ensures
            r == self@.ok(nr_cpus as nat),
    {
        if let Some(cpu) = self.direct {
            if cpu.0 as usize >= nr_cpus {
                return false;
            }
        }
        let mut i: usize = 0;
        while i < self.kicks.len()
            invariant
                i <= self.kicks@.len(),
                forall|j: int| 0 <= j < i ==> (#[trigger] self.kicks@[j]).cpu.0 < nr_cpus,
            decreases self.kicks@.len() - i,
        {
            if self.kicks[i].cpu.0 as usize >= nr_cpus {
                assert(!(self@.kicks[i as int].cpu.0 < nr_cpus));
                return false;
            }
            i = i + 1;
        }
        i = 0;
        while i < self.timers.len()
            invariant
                i <= self.timers@.len(),
                forall|j: int|
                    0 <= j < i ==> (#[trigger] self.timers@[j]).cpu.0 < nr_cpus
                        && self.timers@[j].slot < MAX_BPF_TIMERS,
            decreases self.timers@.len() - i,
        {
            if self.timers[i].cpu.0 as usize >= nr_cpus || self.timers[i].slot as usize
                >= MAX_BPF_TIMERS {
                assert(!(self@.timers[i as int].cpu.0 < nr_cpus && self@.timers[i as int].slot
                    < MAX_BPF_TIMERS));
                return false;
            }
            i = i + 1;
        }
        i = 0;
        while i < self.inserts.len()
            invariant
                i <= self.inserts@.len(),
                forall|j: int| 0 <= j < i ==> (#[trigger] self.inserts@[j]).cpu.0 < nr_cpus,
            decreases self.inserts@.len() - i,
        {
            if self.inserts[i].cpu.0 as usize >= nr_cpus {
                assert(!(self@.inserts[i as int].cpu.0 < nr_cpus));
                return false;
            }
            i = i + 1;
        }
        true
    }
}

/// The lists of events known from the start, in the order in which they are
/// scheduled.
#[derive(Clone, Copy, Debug, PartialEq, Eq, Structural)]
pub enum Agenda {
    Wakeups,
    Ticks,
    Hotplug,
    Preemptions,
    Migrations,
    Creations,
    Destructions,
    CpusetChanges,
    Interrupts,
    FutexOps,
}

/// One piece of work that the simulation has yet to do. The next one is the
/// last of the list.
#[derive(Clone, Copy, Debug, PartialEq, Eq, Structural)]
pub enum Work {
    // Generic pieces.
    /// Make a callback on `cpu`, then charge `charge` for it and record `note`
    /// at the time the callback began.
    Call { request: Request, cpu: CpuId, charge: Option<CpuId>, note: Option<TraceKind> },
    /// What follows the callback.
    Returned { cpu: CpuId, at: TimeNs, charge: Option<CpuId>, note: Option<TraceKind> },
    /// Ask for something whose answer does not matter.
    Ask { request: Request },
    /// Record something at a given time.
    Note { at: TimeNs, cpu: CpuId, kind: TraceKind },
    /// Let an observer look.
    Probe { point: ProbePoint, pid: Pid, cpu: CpuId },
    /// Send one staged kick, earliest first, until none is left.
    FlushStaged,
    /// Turn the armed timers into events.
    ArmTimers,
    /// Change whether a CPU is online.
    SetOnline { cpu: CpuId, online: bool },
    /// Change what the scheduler holds of a task.
    SetOps { pid: Pid, ops_state: OpsTaskState },
    /// Schedule the next tick of a CPU one interval ahead.
    RestartTick { cpu: CpuId },
    // Start and end.
    Started,
    /// Tell the scheduler of a control group.
    GroupInit { cgid: CgroupId },
    GroupInited { cgid: CgroupId, at: TimeNs },
    TaskInit { pid: Pid, mask: usize },
    TaskInited { pid: Pid, at: TimeNs },
    IdleAtStart { cpu: CpuId },
    IdleAtStarted { cpu: CpuId },
    Seed { agenda: Agenda, index: usize },
    NextEvent,
    CheckError,
    Handle { kind: EventKind },
    Finish,
    // Wakeups.
    Wake { pid: Pid, waker: Option<WakerInfo> },
    AdvancePhase { pid: Pid, waker: Option<WakerInfo> },
    WakeReady { pid: Pid, waker: Option<WakerInfo> },
    WakeSelect { pid: Pid, wake_cpu: CpuId, prev_cpu: CpuId, waker: Option<Pid> },
    WakeSelected { pid: Pid, wake_cpu: CpuId, prev_cpu: CpuId, waker: Option<Pid> },
    WakeEnqueued { pid: Pid, cpu: CpuId },
    // Picking the next task.
    TryDispatch { cpu: CpuId },
    Dispatched { cpu: CpuId, prev: Option<Pid> },
    PostDispatch { cpu: CpuId, notify: bool },
    Consumed { cpu: CpuId, notify: bool },
    Gated { cpu: CpuId, notify: bool, pid: Pid, cgid: CgroupId },
    // Running a task.
    StartRunning { cpu: CpuId, pid: Pid },
    MarkedBusy { cpu: CpuId, pid: Pid, migrated: bool, cross_llc: bool },
    RunFloor { cpu: CpuId, pid: Pid, migrated: bool, cross_llc: bool },
    RunFloored { cpu: CpuId, pid: Pid, migrated: bool, cross_llc: bool, asked: bool },
    RunSet { cpu: CpuId, pid: Pid },
    RunJittered { cpu: CpuId, pid: Pid },
    RunLimits { cpu: CpuId, pid: Pid },
    RunStart { cpu: CpuId, pid: Pid },
    // Stopping a task.
    SliceRead { cpu: CpuId, pid: Pid },
    Preempt { cpu: CpuId },
    Stopped { cpu: CpuId, pid: Pid, consumed: TimeNs, left: TimeNs, expired: bool },
    Requeue { cpu: CpuId, pid: Pid, expired: bool },
    Requeued { cpu: CpuId, pid: Pid, expired: bool },
    PhaseSlice { cpu: CpuId, pid: Pid },
    PhaseStopped {
        cpu: CpuId,
        pid: Pid,
        consumed: TimeNs,
        left: TimeNs,
        has_next: bool,
        still_runnable: bool,
    },
    PhaseAfter { cpu: CpuId, pid: Pid, has_next: bool, still_runnable: bool },
    PhaseNext { cpu: CpuId, pid: Pid, has_next: bool, still_runnable: bool },
    PhaseChain { cpu: CpuId, pid: Pid, at: TimeNs },
    PhaseYielded { cpu: CpuId, pid: Pid },
    // Ticks, timers, hotplug.
    TickTimed { cpu: CpuId },
    TickSlice { cpu: CpuId, pid: Pid },
    Ticked { cpu: CpuId, pid: Pid, slice_before: TimeNs },
    TimerDone { cpu: CpuId },
    BudgetEvent { cpu: CpuId, at: TimeNs, kind: TraceKind },
    DrainBlocked { cpu: CpuId, at: TimeNs, cgid: CgroupId },
    DrainLocal { cpu: CpuId },
    // Control groups.
    MigrateDequeue { pid: Pid, cpu: CpuId },
    CgroupCreated { event: usize, cgid: CgroupId, cpu: CpuId, at: TimeNs, count: u32 },
    CpusetInited { cgid: CgroupId, cpu: CpuId, at: TimeNs },
    // Interrupts, futexes, kicks.
    IrqFinish { cpu: CpuId, duration_ns: TimeNs },
    FutexDone { cpu: CpuId, pid: Pid, op: FutexOp },
}

/// How a simulation ended, as contracts see it.
pub enum ExitView {
    Normal,
    ErrorBpf(Seq<char>),
    ErrorStall { pid: Pid, runnable_for_ns: TimeNs },
    ErrorDispatchLoopExhausted { cpu: CpuId },
    ErrorCgroupExhausted { cgroup_name: Seq<char>, active_count: u32, max_cgroups: u32 },
}

impl View for ExitKind {
    type V = ExitView;

    open spec fn view(&self) -> ExitView {
        match self {
            ExitKind::Normal => ExitView::Normal,
            ExitKind::ErrorBpf(m) => ExitView::ErrorBpf(m@),
            ExitKind::ErrorStall { pid, runnable_for_ns } => ExitView::ErrorStall {
                pid: *pid,
                runnable_for_ns: *runnable_for_ns,
            },
            ExitKind::ErrorDispatchLoopExhausted { cpu } => ExitView::ErrorDispatchLoopExhausted {
                cpu: *cpu,
            },
            ExitKind::ErrorCgroupExhausted { cgroup_name, active_count, max_cgroups } =>
                ExitView::ErrorCgroupExhausted {
                cgroup_name: cgroup_name@,
                active_count: *active_count,
                max_cgroups: *max_cgroups,
            },
        }
    }
}

/// Contracts see a reply as it is; a reply that says nothing names nothing and costs
/// nothing.
pub proof fn law_replies_are_seen_as_they_are(r: Reply, error: Option<Seq<char>>, n: nat)
    ensures
        r@.value == r.value && r@.cost == r.cost && r@.slice == r.slice && r@.sum_exec
            == r.sum_exec,
        r@.budget == r.budget && r@.direct == r.direct,
        r@.records == r.records@ && r@.kicks == r.kicks@ && r@.timers == r.timers@,
        r@.inserts == r.inserts@ && r@.budget_events == r.budget_events@,
        r.error is None <==> r@.error is None,
        r.error is Some ==> r@.error == Some((r.error->0)@),
        ReplyView::silent(error).error == error && ReplyView::silent(error).value == 0,
        ReplyView::silent(error).ok(n),
        MAX_BPF_TIMERS == 8,
{
}

} // verus!
