//! The record of what happened during a simulation.

use vstd::prelude::*;

use crate::scenario::{FutexOp, IrqType};
use crate::types::{CgroupId, CpuId, DsqId, Pid, TimeNs, Vtime};

verus! {

/// Why a dispatch was refused.
#[derive(Clone, Copy, Debug, PartialEq, Eq, Structural)]
pub enum DispatchRejectReason {
    CpumaskViolation,
    MigrationDisabled,
}

/// One thing that happened.
#[derive(Clone, Copy, Debug, PartialEq, Eq, Structural)]
pub enum TraceKind {
    TaskScheduled { pid: Pid },
    TaskPreempted { pid: Pid },
    TaskYielded { pid: Pid },
    TaskSlept { pid: Pid },
    TaskWoke { pid: Pid },
    TaskCompleted { pid: Pid },
    SimulationEnd { pid: Pid },
    CpuIdle,
    DsqInsert { pid: Pid, dsq_id: DsqId, slice: u64 },
    DsqInsertVtime { pid: Pid, dsq_id: DsqId, slice: u64, vtime: Vtime },
    KickCpu { target_cpu: CpuId },
    Tick { pid: Pid },
    IrqStart { cpu: CpuId, irq_type: IrqType },
    IrqEnd { cpu: CpuId },
    PutPrevTask { pid: Pid, still_runnable: bool },
    SelectTaskRq { pid: Pid, prev_cpu: CpuId, selected_cpu: CpuId },
    EnqueueTask { pid: Pid, enq_flags: u64 },
    Balance { prev_pid: Option<Pid> },
    PickTask { pid: Pid },
    SetNextTask { pid: Pid },
    DsqMoveToLocal { dsq_id: DsqId, success: bool },
    DispatchRejected { pid: Pid, target_cpu: CpuId, reason: DispatchRejectReason },
    CgroupBwCharge { pid: Pid, cgid: CgroupId, delta_ns: u64 },
    CgroupBwDenied { pid: Pid, cgid: CgroupId },
    CgroupBwDequeueOnThrottle { pid: Pid, cgid: CgroupId },
    CgroupBwReenqueueOnReplenish { pid: Pid, cgid: CgroupId },
    LavdBailOnCgroupThrottle { pid: Pid, cgid: CgroupId },
    LavdReenqueueViaBtqDrain { cgid: CgroupId },
    CgroupBwConsumeNs { cgid: CgroupId, ns: u64 },
    CgroupBwReplenish {
        cgid: CgroupId,
        runtime_total_last: i64,
        period_budget_in: i64,
        debt: i64,
        burst_credit: i64,
        period_budget_out: i64,
        keep_throttled: bool,
    },
    Runnable { pid: Pid, enq_flags: u64 },
    Dequeue { pid: Pid, deq_flags: u64 },
    Quiescent { pid: Pid, deq_flags: u64 },
    UpdateIdle { cpu: CpuId, idle: bool },
    CgroupInit { cgid: CgroupId, rc: i32 },
    CgroupExit { cgid: CgroupId },
    CgroupSetBandwidth { cgid: CgroupId, period_us: u64, quota_us: u64, burst_us: u64 },
    CgroupMove { pid: Pid, from_cgid: CgroupId, to_cgid: CgroupId },
    InitTask { pid: Pid, rc: i32 },
    ExitTask { pid: Pid },
    Enable { pid: Pid },
    /// The mask's text stands at this index of the trace's list of masks.
    SetCpumask { pid: Pid, mask: usize },
    HelperNow { ret_ns: u64 },
    HelperTaskCgroup { pid: Pid, cgid: CgroupId },
    HelperTaskCpu { pid: Pid, ret_cpu: CpuId },
    CreateDsq { dsq_id: DsqId, node: i32, rc: i32 },
    DestroyDsq { dsq_id: DsqId },
    DsqNrQueued { dsq_id: DsqId, ret: i32 },
    CbwPutAside { cgid: CgroupId, count: u32, btq_len_after: u32 },
    CbwDrainBtqBatch { cgid: CgroupId, count: u32, btq_len_after: u32 },
    CbwThrottleCgroups { cgid: CgroupId, throttled: bool },
    FutexBoost { pid: Pid, op: FutexOp, boosted: bool },
}

/// One recorded event: when, on which CPU, what.
#[derive(Clone, Copy, Debug, PartialEq, Eq, Structural)]
pub struct TraceEvent {
    pub time_ns: TimeNs,
    pub cpu: CpuId,
    pub kind: TraceKind,
}

/// The name shown for a task that the trace does not know.
pub const UNKNOWN_TASK: &'static str = "unknown";

/// A trace.
pub struct Trace {
    pub nr_cpus: u32,
    /// Names of the known tasks.
    pub names: Vec<(Pid, String)>,
    /// Texts of the CPU masks that were set.
    pub masks: Vec<String>,
    /// Texts of the futex transitions that can occur.
    pub futex_texts: Vec<String>,
    pub warmup_ns: TimeNs,
    pub events: Vec<TraceEvent>,
}

/// Texts as contracts see them.
pub open spec fn texts_view(texts: Seq<String>) -> Seq<Seq<char>> {
    texts.map_values(|t: String| t@)
}

/// What a trace says apart from its events, as contracts see it.
#[verifier::ext_equal]
pub struct TraceHead {
    pub nr_cpus: u32,
    pub names: Seq<(Pid, Seq<char>)>,
    pub masks: Seq<Seq<char>>,
    pub futex_texts: Seq<Seq<char>>,
    pub warmup_ns: TimeNs,
}

/// The name recorded for `pid`: that of its first entry.
pub open spec fn name_of(names: Seq<(Pid, String)>, pid: Pid) -> Seq<char>
    decreases names.len(),
{
    if names.len() == 0 {
        UNKNOWN_TASK@
    } else if names[0].0 == pid {
        names[0].1@
    } else {
        name_of(names.skip(1), pid)
    }
}

impl Trace {
    /// What the trace says apart from its events.
    pub open spec fn head(&self) -> TraceHead {
        TraceHead {
            nr_cpus: self.nr_cpus,
            names: self.names@.map_values(|n: (Pid, String)| (n.0, n.1@)),
            masks: texts_view(self.masks@),
            futex_texts: texts_view(self.futex_texts@),
            warmup_ns: self.warmup_ns,
        }
    }

    /// An empty trace.
    pub fn with_warmup(nr_cpus: u32, names: Vec<(Pid, String)>, warmup_ns: TimeNs) -> (r: Trace)
        ensures
            r.nr_cpus == nr_cpus,
            r.names == names,
            r.warmup_ns == warmup_ns,
            r.masks@ == Seq::<String>::empty(),
            r.futex_texts@ == Seq::<String>::empty(),
            r.events@ == Seq::<TraceEvent>::empty(),
    {
        Trace {
            nr_cpus,
            names,
            masks: Vec::new(),
            futex_texts: Vec::new(),
            warmup_ns,
            events: Vec::new(),
        }
    }

    /// Appends an event.
    pub fn record(&mut self, time_ns: TimeNs, cpu: CpuId, kind: TraceKind)
        ensures
            final(self).events@ == old(self).events@.push(TraceEvent { time_ns, cpu, kind }),
            final(self).nr_cpus == old(self).nr_cpus,
            final(self).names == old(self).names,
            final(self).masks == old(self).masks,
            final(self).futex_texts == old(self).futex_texts,
            final(self).warmup_ns == old(self).warmup_ns,
    {
        self.events.push(TraceEvent { time_ns, cpu, kind });
    }

    /// The name of a task.
    pub fn task_name(&self, pid: Pid) -> (r: &str)
        ensures
            r@ == name_of(self.names@, pid),
    {
        let mut i: usize = 0;
        proof {
            assert(self.names@.skip(0) =~= self.names@);
        }
        while i < self.names.len()
            invariant
                i <= self.names.len(),
                name_of(self.names@, pid) == name_of(self.names@.skip(i as int), pid),
            decreases self.names.len() - i,
        {
            proof {
                assert(self.names@.skip(i as int).skip(1) =~= self.names@.skip(i + 1));
            }
            if self.names[i].0 == pid {
                return self.names[i].1.as_str();
            }
            i = i + 1;
        }
        UNKNOWN_TASK
    }
}

/// How the simulation ended.
#[derive(Clone, Debug, PartialEq, Eq)]
pub enum ExitKind {
    /// The duration was exhausted.
    Normal,
    /// The scheduler reported an error.
    ErrorBpf(String),
    /// A runnable task was not run for too long.
    ErrorStall { pid: Pid, runnable_for_ns: TimeNs },
    /// The dispatch loop made no progress.
    ErrorDispatchLoopExhausted { cpu: CpuId },
    /// A control group could not be created.
    ErrorCgroupExhausted { cgroup_name: String, active_count: u32, max_cgroups: u32 },
}

impl ExitKind {
    /// Whether this is an error.
    pub fn is_error(&self) -> (r: bool)
        ensures
            r == !(self is Normal),
    {
        match self {
            ExitKind::Normal => false,
            _ => true,
        }
    }

    /// The process exit code that stands for this ending.
    pub open spec fn spec_exit_code(&self) -> i32 {
        match self {
            ExitKind::Normal => 0,
            ExitKind::ErrorStall { .. } => 42,
            ExitKind::ErrorBpf(_) => 43,
            ExitKind::ErrorDispatchLoopExhausted { .. } => 44,
            ExitKind::ErrorCgroupExhausted { .. } => 45,
        }
    }
}

/// The process exit code that stands for an ending. Stable across releases.
pub fn exit_code_for(kind: &ExitKind) -> (r: i32)
    ensures
        r == kind.spec_exit_code(),
{
    match kind {
        ExitKind::Normal => 0,
        ExitKind::ErrorStall { .. } => 42,
        ExitKind::ErrorBpf(_) => 43,
        ExitKind::ErrorDispatchLoopExhausted { .. } => 44,
        ExitKind::ErrorCgroupExhausted { .. } => 45,
    }
}

/// Only a normal ending exits with zero, and endings of different kinds exit
/// with different codes.
pub proof fn law_exit_codes_tell_endings_apart(a: ExitKind, b: ExitKind)
    ensures
        a.spec_exit_code() == 0 <==> a is Normal,
        a.spec_exit_code() == b.spec_exit_code() ==> (a is Normal <==> b is Normal),
        a.spec_exit_code() == b.spec_exit_code() ==> (a is ErrorBpf <==> b is ErrorBpf),
        a.spec_exit_code() == b.spec_exit_code() ==> (a is ErrorStall <==> b is ErrorStall),
        a.spec_exit_code() == b.spec_exit_code() ==> (a is ErrorDispatchLoopExhausted
            <==> b is ErrorDispatchLoopExhausted),
        a.spec_exit_code() == b.spec_exit_code() ==> (a is ErrorCgroupExhausted
            <==> b is ErrorCgroupExhausted),
{
}

/// The codes by which a process tells how its simulation ended.
pub proof fn law_exit_codes_are_stable(a: ExitKind)
    ensures
        a.spec_exit_code() == 0 <==> a is Normal,
        a.spec_exit_code() == 42 <==> a is ErrorStall,
        a.spec_exit_code() == 43 <==> a is ErrorBpf,
        a.spec_exit_code() == 44 <==> a is ErrorDispatchLoopExhausted,
        a.spec_exit_code() == 45 <==> a is ErrorCgroupExhausted,
{
}

/// A task goes by the first name recorded for its number, whatever comes after it, and
/// one without a name is unknown.
pub proof fn law_tasks_go_by_their_first_name(names: Seq<(Pid, String)>, pid: Pid, i: int)
    requires
        0 <= i <= names.len(),
        forall|j: int| 0 <= j < i ==> (#[trigger] names[j]).0 != pid,
        i < names.len() ==> names[i].0 == pid,
    ensures
        i < names.len() ==> name_of(names, pid) == names[i].1@,
        i == names.len() ==> name_of(names, pid) == UNKNOWN_TASK@,
    decreases names.len(),
{
    if i > 0 {
        let rest = names.skip(1);
        assert(names[0].0 != pid);
        assert forall|j: int| 0 <= j < i - 1 implies (#[trigger] rest[j]).0 != pid by {
            assert(names[j + 1].0 != pid);
        }
        law_tasks_go_by_their_first_name(rest, pid, i - 1);
    }
}

/// A task without a name is called unknown, and a trace says of itself what it holds.
pub proof fn law_traces_say_what_they_hold(t: Trace, i: int)
    ensures
        UNKNOWN_TASK@ == "unknown"@,
        t.head().nr_cpus == t.nr_cpus && t.head().warmup_ns == t.warmup_ns,
        t.head().names.len() == t.names@.len(),
        0 <= i < t.names@.len() ==> t.head().names[i] == (t.names@[i].0, t.names@[i].1@),
        t.head().masks.len() == t.masks@.len(),
        0 <= i < t.masks@.len() ==> t.head().masks[i] == t.masks@[i]@,
        t.head().futex_texts.len() == t.futex_texts@.len(),
        0 <= i < t.futex_texts@.len() ==> t.head().futex_texts[i] == t.futex_texts@[i]@,
{
}

} // verus!
