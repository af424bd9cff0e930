//! What the steps of a simulation come to: the work that tasks have left, where they
//! are, what is recorded and what the scheduler is asked, stated over the states
//! before and after.

use vstd::prelude::*;

use crate::event_queue::{EventKind, WakerInfo};
use crate::progress::lemma_task_at;
use crate::scenario::{Phase, RepeatMode};
use crate::sim_state::SimView;
use crate::state::{
    OpsTaskState, ProbePoint, ReplyView, Request, SimCpu, SimTask, TaskState, Work,
};
use crate::trace::{TraceEvent, TraceKind};
use crate::types::{CpuId, Pid, TimeNs};

verus! {

/// Whether a task is known, and where it stands.
pub open spec fn stands_at(s: SimView, pid: Pid, i: int) -> bool {
    &&& s.find(pid) == Some(i)
    &&& 0 <= i < s.tasks.len()
    &&& s.tasks[i].pid == pid
}

/// Whether all tasks but one are as they were.
pub open spec fn others_stay(a: SimView, b: SimView, i: int) -> bool {
    &&& b.tasks.len() == a.tasks.len()
    &&& forall|j: int| 0 <= j < a.tasks.len() && j != i ==> #[trigger] b.tasks[j] == a.tasks[j]
}

/// Whether all CPUs but one are as they were.
pub open spec fn other_cpus_stay(a: SimView, b: SimView, c: CpuId) -> bool {
    &&& b.cpus.len() == a.cpus.len()
    &&& forall|j: int| 0 <= j < a.cpus.len() && j != c.0 ==> #[trigger] b.cpus[j] == a.cpus[j]
}

/// Whether a CPU has let go of a task.
pub open spec fn let_go(s: SimView, c: CpuId, pid: Pid) -> bool {
    &&& s.cpu(c).current_task is None
    &&& s.cpu(c).prev_task == Some(pid)
    &&& s.cpu(c).task_started_at is None
    &&& s.cpu(c).task_original_slice is None
}

/// When a slice expires it is taken off the work that the task has left, down to
/// nothing. The task waits again, its CPU is free, and the whole slice is what it is
/// charged for.
pub proof fn law_an_expired_slice_is_taken_off(s: SimView, r: ReplyView, cpu: CpuId, pid: Pid, i: int)
    requires
        cpu.0 < s.cpus.len(),
        stands_at(s, pid, i),
    ensures
        ({
            let (after, request) = s.perform(Work::SliceRead { cpu, pid }, r);
            let (t, t1) = (s.tasks[i], after.tasks[i]);
            &&& r.slice <= t.run_remaining_ns ==> t1.run_remaining_ns + r.slice
                == t.run_remaining_ns
            &&& r.slice > t.run_remaining_ns ==> t1.run_remaining_ns == 0
            &&& t1.state is Runnable
            &&& t1.phase == t.phase && t1.rounds == t.rounds && t1.prev_cpu == t.prev_cpu
            &&& others_stay(s, after, i)
            &&& other_cpus_stay(s, after, cpu)
            &&& let_go(after, cpu, pid)
            &&& after.cpu(cpu).local_clock == s.cpu(cpu).local_clock
            &&& after.work == s.work.push(
                Work::Stopped { cpu, pid, consumed: r.slice, left: 0, expired: true },
            )
            &&& request == (Request::SwitchCost { voluntary: false })
            &&& after.trace == s.trace
            &&& after.events == s.events
            &&& after.local == s.local
        }),
{
}

/// When a task is preempted the time that it ran is taken off the work that it has
/// left, down to nothing, and off its slice, and is what it is charged for. The task
/// waits again, its CPU is free, and the preemption is recorded.
pub proof fn law_a_preempted_run_is_taken_off(s: SimView, r: ReplyView, cpu: CpuId, pid: Pid, i: int)
    requires
        cpu.0 < s.cpus.len(),
        stands_at(s, pid, i),
        s.cpu(cpu).current_task == Some(pid),
        s.cpu(cpu).task_started_at is Some,
        s.cpu(cpu).task_started_at->0 <= s.cpu(cpu).local_clock,
        s.cpu(cpu).task_original_slice is Some,
    ensures
        ({
            let (after, request) = s.perform(Work::Preempt { cpu }, r);
            let (t, t1) = (s.tasks[i], after.tasks[i]);
            let ran = s.cpu(cpu).local_clock - s.cpu(cpu).task_started_at->0;
            let slice = s.cpu(cpu).task_original_slice->0;
            let stop = after.work.last();
            &&& ran <= t.run_remaining_ns ==> t1.run_remaining_ns + ran == t.run_remaining_ns
            &&& ran > t.run_remaining_ns ==> t1.run_remaining_ns == 0
            &&& t1.state is Runnable
            &&& t1.phase == t.phase && t1.rounds == t.rounds
            &&& others_stay(s, after, i)
            &&& other_cpus_stay(s, after, cpu)
            &&& let_go(after, cpu, pid)
            &&& after.trace == s.trace.push(
                TraceEvent {
                    time_ns: s.cpu(cpu).local_clock,
                    cpu,
                    kind: TraceKind::TaskPreempted { pid },
                },
            )
            &&& after.work.drop_last() == s.work
            &&& stop is Stopped && stop->Stopped_pid == pid && stop->Stopped_cpu == cpu
            &&& stop->Stopped_consumed == ran
            &&& ran <= slice ==> stop->Stopped_left + ran == slice
            &&& ran > slice ==> stop->Stopped_left == 0
            &&& !stop->Stopped_expired
            &&& request == (Request::SwitchCost { voluntary: false })
        }),
{
    let after = s.perform(Work::Preempt { cpu }, r).0;
    assert(after.work.drop_last() =~= s.work);
}

/// When a phase is complete the work that the task had left is what it is charged for.
/// The CPU is free, and the task is in its next phase; it stays runnable exactly if
/// that phase is there and computes.
pub proof fn law_a_complete_phase_is_charged_whole(
    s: SimView,
    r: ReplyView,
    cpu: CpuId,
    pid: Pid,
    i: int,
)
    requires
        cpu.0 < s.cpus.len(),
        stands_at(s, pid, i),
    ensures
        ({
            let (after, request) = s.perform(Work::PhaseSlice { cpu, pid }, r);
            let (t, t1) = (s.tasks[i], after.tasks[i]);
            let stop = after.work.last();
            &&& t1 == s.advance_phase(t)
            &&& others_stay(s, after, i)
            &&& other_cpus_stay(s, after, cpu)
            &&& let_go(after, cpu, pid)
            &&& after.work.drop_last() == s.work
            &&& stop is PhaseStopped && stop->PhaseStopped_pid == pid
            &&& stop->PhaseStopped_cpu == cpu
            &&& stop->PhaseStopped_consumed == t.run_remaining_ns
            &&& r.slice >= t.run_remaining_ns ==> stop->PhaseStopped_left + t.run_remaining_ns
                == r.slice
            &&& r.slice < t.run_remaining_ns ==> stop->PhaseStopped_left == 0
            &&& stop->PhaseStopped_has_next == s.has_next_phase(t)
            &&& stop->PhaseStopped_still_runnable <==> s.has_next_phase(t) && t1.phase
                < s.scenario.tasks@[t1.def as int].behavior.phases@.len()
                && s.scenario.tasks@[t1.def as int].behavior.phases@[t1.phase as int] is Run
            &&& request == (Request::SwitchCost { voluntary: true })
            &&& after.trace == s.trace
        }),
{
    let after = s.perform(Work::PhaseSlice { cpu, pid }, r).0;
    assert(after.work.drop_last() =~= s.work);
}

/// A stop of a task in the middle of a phase: the state before it, the reply that it
/// reads, the piece of work that it is, and how long the task ran.
pub struct Halt {
    pub state: SimView,
    pub reply: ReplyView,
    pub work: Work,
    pub ran: TimeNs,
}

/// The state after a stop.
#[verifier::opaque]
pub open spec fn after_halt(h: Halt) -> SimView {
    h.state.perform(h.work, h.reply).0
}

/// The work that a task has left.
pub open spec fn work_left(s: SimView, pid: Pid) -> int {
    s.tasks[s.find(pid)->0].run_remaining_ns as int
}

/// Whether this is a stop of a task, by the end of its slice or by preemption, after it
/// ran no longer than it had work.
pub open spec fn is_halt(h: Halt, pid: Pid) -> bool {
    &&& h.state.find(pid) is Some
    &&& h.ran <= work_left(h.state, pid)
    &&& match h.work {
        Work::SliceRead { cpu, pid: p } => p == pid && cpu.0 < h.state.cpus.len() && h.ran
            == h.reply.slice,
        Work::Preempt { cpu } => {
            &&& cpu.0 < h.state.cpus.len()
            &&& h.state.cpu(cpu).current_task == Some(pid)
            &&& h.state.cpu(cpu).task_started_at is Some
            &&& h.state.cpu(cpu).task_original_slice is Some
            &&& h.state.cpu(cpu).task_started_at->0 + h.ran == h.state.cpu(cpu).local_clock
        },
        _ => false,
    }
}

/// Whether a run begins with what the one before it left.
pub open spec fn goes_on(halts: Seq<Halt>, pid: Pid, k: int) -> bool {
    work_left(halts[k].state, pid) == work_left(after_halt(halts[k - 1]), pid)
}

/// The time that some runs take together.
pub open spec fn ran_together(halts: Seq<Halt>) -> int
    decreases halts.len(),
{
    if halts.len() == 0 {
        0
    } else {
        ran_together(halts.drop_last()) + halts.last().ran
    }
}

/// The runs of a task in one compute phase add up to the phase: where each run begins
/// with what the one before left, the runs that were cut short and the one that
/// completes the phase take as long as the task had work at first.
pub proof fn law_the_runs_of_a_phase_add_up(
    halts: Seq<Halt>,
    end: SimView,
    r: ReplyView,
    cpu: CpuId,
    pid: Pid,
    whole: TimeNs,
)
    requires
        forall|k: int| 0 <= k < halts.len() ==> is_halt(#[trigger] halts[k], pid),
        halts.len() > 0 ==> work_left(halts[0].state, pid) == whole,
        forall|k: int| 0 < k < halts.len() ==> #[trigger] goes_on(halts, pid, k),
        cpu.0 < end.cpus.len(),
        end.find(pid) is Some,
        work_left(end, pid) == if halts.len() == 0 {
            whole as int
        } else {
            work_left(after_halt(halts.last()), pid)
        },
    ensures
        ran_together(halts) + end.perform(
            Work::PhaseSlice { cpu, pid },
            r,
        ).0.work.last()->PhaseStopped_consumed == whole,
{
    lemma_task_at(end.tasks, pid);
    law_a_complete_phase_is_charged_whole(end, r, cpu, pid, end.find(pid)->0);
    lemma_halts_add_up(halts, pid, whole);
}

proof fn lemma_halt(h: Halt, pid: Pid)
    requires
        is_halt(h, pid),
    ensures
        work_left(after_halt(h), pid) + h.ran == work_left(h.state, pid),
{
    reveal(after_halt);
    let i = h.state.find(pid)->0;
    lemma_task_at(h.state.tasks, pid);
    let after = h.state.perform(h.work, h.reply).0;
    match h.work {
        Work::SliceRead { cpu, pid: p } => {
            law_an_expired_slice_is_taken_off(h.state, h.reply, cpu, pid, i);
        },
        Work::Preempt { cpu } => {
            law_a_preempted_run_is_taken_off(h.state, h.reply, cpu, pid, i);
        },
        _ => {},
    }
    assert(after.tasks =~= h.state.tasks.update(i, after.tasks[i]));
    lemma_found_again(h.state.tasks, pid, i, after.tasks[i]);
}

/// A task is found where it was as long as the numbers stay.
proof fn lemma_found_again(tasks: Seq<SimTask>, pid: Pid, i: int, t: SimTask)
    requires
        0 <= i < tasks.len(),
        t.pid == tasks[i].pid,
    ensures
        crate::sim_state::task_at(tasks.update(i, t), pid) == crate::sim_state::task_at(tasks, pid),
    decreases tasks.len(),
{
    let u = tasks.update(i, t);
    if i < tasks.len() - 1 {
        lemma_found_again(tasks.drop_last(), pid, i, t);
        assert(u.drop_last() =~= tasks.drop_last().update(i, t));
    } else {
        assert(u.drop_last() =~= tasks.drop_last());
    }
}

proof fn lemma_halts_add_up(halts: Seq<Halt>, pid: Pid, whole: TimeNs)
    requires
        forall|k: int| 0 <= k < halts.len() ==> is_halt(#[trigger] halts[k], pid),
        halts.len() > 0 ==> work_left(halts[0].state, pid) == whole,
        forall|k: int| 0 < k < halts.len() ==> #[trigger] goes_on(halts, pid, k),
    ensures
        halts.len() > 0 ==> ran_together(halts) + work_left(
            after_halt(halts.last()),
            pid,
        ) == whole,
        halts.len() == 0 ==> ran_together(halts) == 0,
    decreases halts.len(),
{
    if halts.len() > 0 {
        let rest = halts.drop_last();
        let last = halts[halts.len() - 1];
        assert(is_halt(last, pid));
        lemma_halt(last, pid);
        assert forall|k: int| 0 <= k < rest.len() implies is_halt(#[trigger] rest[k], pid) by {
            assert(is_halt(halts[k], pid));
        }
        assert forall|k: int| 0 < k < rest.len() implies #[trigger] goes_on(rest, pid, k) by {
            assert(goes_on(halts, pid, k));
        }
        lemma_halts_add_up(rest, pid, whole);
        if rest.len() > 0 {
            assert(rest.last() == halts[halts.len() - 2]);
            assert(goes_on(halts, pid, halts.len() - 1));
        }
    }
}

/// Where one more thing was recorded.
pub open spec fn recorded(a: SimView, b: SimView, time_ns: TimeNs, cpu: CpuId, kind: TraceKind) -> bool {
    b.trace == a.trace.push(TraceEvent { time_ns, cpu, kind })
}

/// A drawn value as a delay.
pub open spec fn as_delay(value: i64) -> int {
    if value > 0 {
        value as int
    } else {
        0
    }
}

/// A task that stops costs its CPU the switch, and its control group the time it ran. The
/// scheduler hears that it stops but is runnable, with what is left of its slice and
/// its runtime, and the task is requeued after that.
pub proof fn law_a_stopped_task_is_accounted_for(
    s: SimView,
    r: ReplyView,
    cpu: CpuId,
    pid: Pid,
    i: int,
    consumed: TimeNs,
    left: TimeNs,
    expired: bool,
)
    requires
        cpu.0 < s.cpus.len(),
        stands_at(s, pid, i),
        s.cpu(cpu).local_clock + as_delay(r.value) <= u64::MAX,
        s.tasks[i].sum_exec_base + consumed <= u64::MAX,
    ensures
        ({
            let (after, request) = s.perform(Work::Stopped { cpu, pid, consumed, left, expired }, r);
            let n = s.work.len() as int;
            let t = s.tasks[i];
            &&& request is Continue
            &&& after.tasks == s.tasks
            &&& after.cpu(cpu).local_clock == s.cpu(cpu).local_clock + as_delay(r.value)
            &&& other_cpus_stay(s, after, cpu)
            &&& consumed > 0 && t.cgid is Some ==> recorded(
                s,
                after,
                after.cpu(cpu).local_clock,
                cpu,
                TraceKind::CgroupBwCharge { pid, cgid: t.cgid->0, delta_ns: consumed },
            )
            &&& consumed == 0 || t.cgid is None ==> after.trace == s.trace
            &&& after.work.len() == n + 3
            &&& after.work[n + 2] == (Work::Call {
                request: Request::Stopping {
                    cpu,
                    pid,
                    runnable: true,
                    slice: left,
                    sum_exec: (t.sum_exec_base + consumed) as u64,
                },
                cpu,
                charge: Some(cpu),
                note: None,
            })
            &&& after.work[n + 1] == (Work::Probe { point: ProbePoint::Stopping, pid, cpu })
            &&& after.work[n] == (Work::Requeue { cpu, pid, expired })
        }),
{
}

/// A stopped task goes back to the scheduler: it is marked as held by it, and enqueued
/// on the CPU that it left, with no flags.
pub proof fn law_a_stopped_task_goes_back(s: SimView, r: ReplyView, cpu: CpuId, pid: Pid, i: int, expired: bool)
    requires
        cpu.0 < s.cpus.len(),
        stands_at(s, pid, i),
    ensures
        ({
            let (after, request) = s.perform(Work::Requeue { cpu, pid, expired }, r);
            let n = s.work.len() as int;
            let at = s.cpu(cpu).local_clock;
            &&& request is Continue
            &&& after.tasks[i] == (SimTask { ops_state: OpsTaskState::Queued, ..s.tasks[i] })
            &&& others_stay(s, after, i)
            &&& expired ==> recorded(
                s,
                after,
                at,
                cpu,
                TraceKind::PutPrevTask { pid, still_runnable: true },
            )
            &&& !expired ==> after.trace == s.trace
            &&& after.work.len() == n + 2
            &&& after.work[n + 1] == (Work::Call {
                request: Request::Enqueue { cpu, pid, flags: 0 },
                cpu,
                charge: None,
                note: None,
            })
            &&& after.work[n] == (Work::Requeued { cpu, pid, expired })
        }),
{
}

/// Once a task is back, the end of its slice is recorded as a preemption, kicks go out
/// and the CPU looks for its next task. A preemption was recorded when it came.
pub proof fn law_the_cpu_looks_for_its_next_task(s: SimView, r: ReplyView, cpu: CpuId, pid: Pid, expired: bool)
    requires
        cpu.0 < s.cpus.len(),
    ensures
        ({
            let (after, request) = s.perform(Work::Requeued { cpu, pid, expired }, r);
            let n = s.work.len() as int;
            let m = s.trace.len() as int;
            let at = s.cpu(cpu).local_clock;
            &&& request is Continue
            &&& after.tasks == s.tasks
            &&& after.cpus == s.cpus
            &&& !expired ==> after.trace == s.trace
            &&& expired ==> after.trace.len() == m + 2 && after.trace.take(m) == s.trace
            &&& expired ==> after.trace[m] == (TraceEvent {
                time_ns: at,
                cpu,
                kind: TraceKind::EnqueueTask { pid, enq_flags: 0 },
            })
            &&& expired ==> after.trace[m + 1] == (TraceEvent {
                time_ns: at,
                cpu,
                kind: TraceKind::TaskPreempted { pid },
            })
            &&& after.work.len() == n + 2
            &&& after.work[n + 1] is FlushStaged
            &&& after.work[n] == (Work::TryDispatch { cpu })
        }),
{
    let after = s.perform(Work::Requeued { cpu, pid, expired }, r).0;
    if expired {
        assert(after.trace.take(s.trace.len() as int) =~= s.trace);
    }
}

/// A task that completes a phase is accounted for like one that is stopped, and the
/// scheduler hears whether it stays runnable.
pub proof fn law_a_task_between_phases_is_accounted_for(
    s: SimView,
    r: ReplyView,
    cpu: CpuId,
    pid: Pid,
    i: int,
    consumed: TimeNs,
    left: TimeNs,
    has_next: bool,
    still_runnable: bool,
)
    requires
        cpu.0 < s.cpus.len(),
        stands_at(s, pid, i),
        s.cpu(cpu).local_clock + as_delay(r.value) <= u64::MAX,
        s.tasks[i].sum_exec_base + consumed <= u64::MAX,
    ensures
        ({
            let w = Work::PhaseStopped { cpu, pid, consumed, left, has_next, still_runnable };
            let (after, request) = s.perform(w, r);
            let n = s.work.len() as int;
            let t = s.tasks[i];
            &&& request is Continue
            &&& after.tasks == s.tasks
            &&& after.cpu(cpu).local_clock == s.cpu(cpu).local_clock + as_delay(r.value)
            &&& other_cpus_stay(s, after, cpu)
            &&& consumed > 0 && t.cgid is Some ==> recorded(
                s,
                after,
                after.cpu(cpu).local_clock,
                cpu,
                TraceKind::CgroupBwCharge { pid, cgid: t.cgid->0, delta_ns: consumed },
            )
            &&& consumed == 0 || t.cgid is None ==> after.trace == s.trace
            &&& after.work.len() == n + 3
            &&& after.work[n + 2] == (Work::Call {
                request: Request::Stopping {
                    cpu,
                    pid,
                    runnable: still_runnable,
                    slice: left,
                    sum_exec: (t.sum_exec_base + consumed) as u64,
                },
                cpu,
                charge: Some(cpu),
                note: None,
            })
            &&& after.work[n + 1] == (Work::Probe { point: ProbePoint::Stopping, pid, cpu })
            &&& after.work[n] == (Work::PhaseAfter { cpu, pid, has_next, still_runnable })
        }),
{
}

/// A task that stays runnable goes on at once. Another is taken from the scheduler's
/// queues, if it is in them, and is then reported as quiescent, for it sleeps.
pub proof fn law_a_task_that_sleeps_goes_quiet(
    s: SimView,
    r: ReplyView,
    cpu: CpuId,
    pid: Pid,
    i: int,
    has_next: bool,
    still_runnable: bool,
)
    requires
        cpu.0 < s.cpus.len(),
        stands_at(s, pid, i),
    ensures
        ({
            let (after, request) = s.perform(
                Work::PhaseAfter { cpu, pid, has_next, still_runnable },
                r,
            );
            let n = s.work.len() as int;
            let held = s.tasks[i].ops_state is Queued;
            &&& request is Continue
            &&& after.tasks == s.tasks
            &&& after.trace == s.trace
            &&& after.work[n] == (Work::PhaseNext { cpu, pid, has_next, still_runnable })
            &&& still_runnable ==> after.work.len() == n + 1
            &&& !still_runnable && !held ==> after.work.len() == n + 3
            &&& !still_runnable && held ==> after.work.len() == n + 5
            &&& !still_runnable ==> after.work[n + 1] == (Work::Probe {
                point: ProbePoint::Quiescent,
                pid,
                cpu,
            }) && after.work[n + 2] == (Work::Call {
                request: Request::Quiescent { cpu, pid, flags: 1 },
                cpu,
                charge: Some(cpu),
                note: Some(TraceKind::Quiescent { pid, deq_flags: 1 }),
            })
            &&& !still_runnable && held ==> after.work[n + 3] == (Work::SetOps {
                pid,
                ops_state: OpsTaskState::Free,
            }) && after.work[n + 4] == (Work::Call {
                request: Request::Dequeue { cpu, pid, flags: 1 },
                cpu,
                charge: Some(cpu),
                note: Some(TraceKind::Dequeue { pid, deq_flags: 1 }),
            })
        }),
{
}

/// A task without a next phase exits, and is recorded as completed then and there; one
/// with a next phase takes it up before its CPU looks for another task.
pub proof fn law_a_task_without_a_next_phase_exits(
    s: SimView,
    r: ReplyView,
    cpu: CpuId,
    pid: Pid,
    i: int,
    has_next: bool,
    still_runnable: bool,
)
    requires
        cpu.0 < s.cpus.len(),
        stands_at(s, pid, i),
    ensures
        ({
            let (after, request) = s.perform(
                Work::PhaseNext { cpu, pid, has_next, still_runnable },
                r,
            );
            let n = s.work.len() as int;
            let m = s.trace.len() as int;
            let at = s.cpu(cpu).local_clock;
            &&& request is Continue
            &&& others_stay(s, after, i)
            &&& after.cpus == s.cpus
            &&& after.trace.len() >= m + 1
            &&& after.trace[m] == (TraceEvent {
                time_ns: at,
                cpu,
                kind: TraceKind::PutPrevTask { pid, still_runnable },
            })
            &&& after.work[n] == (Work::TryDispatch { cpu })
            &&& after.work[n + 1] is FlushStaged
            &&& has_next ==> {
                &&& after.tasks[i] == s.tasks[i]
                &&& after.trace.len() == m + 1
                &&& after.work.len() == n + 3
                &&& after.work[n + 2] == (Work::PhaseChain { cpu, pid, at })
            }
            &&& !has_next ==> {
                &&& after.tasks[i] == (SimTask { state: TaskState::Exited, ..s.tasks[i] })
                &&& after.trace.len() == m + 2
                &&& after.trace[m + 1] == (TraceEvent {
                    time_ns: at,
                    cpu,
                    kind: TraceKind::TaskCompleted { pid },
                })
                &&& after.work.len() == n + 2
            }
        }),
{
}

/// The phases of a task.
pub open spec fn phases_of(s: SimView, t: SimTask) -> Seq<Phase> {
    s.scenario.tasks@[t.def as int].behavior.phases@
}

/// A sleep puts the task to sleep, recorded at the time it begins, and has it woken when
/// it has lasted as long as it is meant to, unless the simulation is over by then.
pub proof fn law_a_sleep_lasts_as_long_as_it_should(
    s: SimView,
    r: ReplyView,
    cpu: CpuId,
    pid: Pid,
    i: int,
    at: TimeNs,
    ns: TimeNs,
)
    requires
        cpu.0 < s.cpus.len(),
        stands_at(s, pid, i),
        s.tasks[i].phase < phases_of(s, s.tasks[i]).len(),
        phases_of(s, s.tasks[i])[s.tasks[i].phase as int] == Phase::Sleep(ns),
        at + ns <= u64::MAX,
    ensures
        ({
            let (after, request) = s.perform(Work::PhaseChain { cpu, pid, at }, r);
            &&& request is Continue
            &&& after.tasks[i] == (SimTask { state: TaskState::Sleeping, ..s.tasks[i] })
            &&& others_stay(s, after, i)
            &&& recorded(s, after, at, cpu, TraceKind::TaskSlept { pid })
            &&& after.work == s.work
            &&& at + ns <= s.scenario.duration_ns ==> after.events == s.events.push(
                (at + ns) as u64,
                EventKind::TaskWake { pid, waker: None, cpu: s.tasks[i].prev_cpu },
            )
            &&& at + ns > s.scenario.duration_ns ==> after.events == s.events
        }),
{
}

/// A task whose next phase computes goes back to the scheduler: it waits, is held by
/// the scheduler and is enqueued, and yields after that.
pub proof fn law_a_task_that_computes_on_yields(
    s: SimView,
    r: ReplyView,
    cpu: CpuId,
    pid: Pid,
    i: int,
    at: TimeNs,
)
    requires
        cpu.0 < s.cpus.len(),
        stands_at(s, pid, i),
        s.tasks[i].phase < phases_of(s, s.tasks[i]).len(),
        phases_of(s, s.tasks[i])[s.tasks[i].phase as int] is Run,
    ensures
        ({
            let (after, request) = s.perform(Work::PhaseChain { cpu, pid, at }, r);
            let n = s.work.len() as int;
            &&& request is Continue
            &&& after.tasks[i] == (SimTask {
                state: TaskState::Runnable,
                ops_state: OpsTaskState::Queued,
                ..s.tasks[i]
            })
            &&& others_stay(s, after, i)
            &&& after.trace == s.trace
            &&& after.events == s.events
            &&& after.work.len() == n + 2
            &&& after.work[n + 1] == (Work::Call {
                request: Request::Enqueue { cpu, pid, flags: 0 },
                cpu,
                charge: None,
                note: None,
            })
            &&& after.work[n] == (Work::PhaseYielded { cpu, pid })
        }),
{
}

/// What a yield is recorded as: an enqueue, then the yield, both at the CPU's time.
pub proof fn law_a_yield_is_recorded(s: SimView, r: ReplyView, cpu: CpuId, pid: Pid)
    requires
        cpu.0 < s.cpus.len(),
    ensures
        ({
            let (after, request) = s.perform(Work::PhaseYielded { cpu, pid }, r);
            let m = s.trace.len() as int;
            let at = s.cpu(cpu).local_clock;
            &&& request is Continue
            &&& after.tasks == s.tasks && after.work == s.work && after.events == s.events
            &&& after.trace.len() == m + 2
            &&& after.trace[m] == (TraceEvent {
                time_ns: at,
                cpu,
                kind: TraceKind::EnqueueTask { pid, enq_flags: 0 },
            })
            &&& after.trace[m + 1] == (TraceEvent {
                time_ns: at,
                cpu,
                kind: TraceKind::TaskYielded { pid },
            })
        }),
{
}

/// A task that wakes another has it woken at once, by name, and moves on to its next
/// phase, which it takes up at the same time; without one it exits.
pub proof fn law_a_task_wakes_another_and_moves_on(
    s: SimView,
    r: ReplyView,
    cpu: CpuId,
    pid: Pid,
    i: int,
    at: TimeNs,
    target: Pid,
)
    requires
        cpu.0 < s.cpus.len(),
        stands_at(s, pid, i),
        s.tasks[i].phase < phases_of(s, s.tasks[i]).len(),
        phases_of(s, s.tasks[i])[s.tasks[i].phase as int] == Phase::Wake(target),
    ensures
        ({
            let (after, request) = s.perform(Work::PhaseChain { cpu, pid, at }, r);
            let n = s.work.len() as int;
            &&& request is Continue
            &&& after.events == s.events.push(
                at,
                EventKind::TaskWake { pid: target, waker: Some(WakerInfo { pid, cpu }), cpu },
            )
            &&& others_stay(s, after, i)
            &&& s.has_next_phase(s.tasks[i]) ==> {
                &&& after.tasks[i] == s.advance_phase(s.tasks[i])
                &&& after.work.len() == n + 1
                &&& after.work[n] == (Work::PhaseChain { cpu, pid, at })
                &&& after.trace == s.trace
            }
            &&& !s.has_next_phase(s.tasks[i]) ==> {
                &&& after.tasks[i].state is Exited
                &&& after.work == s.work
                &&& recorded(s, after, at, cpu, TraceKind::TaskCompleted { pid })
            }
        }),
{
}

/// The phases of a task follow one another, and after the last its list starts over as
/// often as the task says: never, so often in all, or for ever. A phase that computes
/// begins with all of its work to do.
pub proof fn law_phases_follow_one_another(s: SimView, t: SimTask)
    requires
        t.phase < phases_of(s, t).len(),
        t.phase < usize::MAX,
        t.rounds < u32::MAX,
    ensures
        ({
            let t1 = s.advance_phase(t);
            let phases = phases_of(s, t);
            let repeat = s.scenario.tasks@[t.def as int].behavior.repeat;
            let last = t.phase + 1 == phases.len();
            &&& !last ==> s.has_next_phase(t) && t1.phase == t.phase + 1 && t1.rounds == t.rounds
            &&& last ==> t1.rounds == t.rounds + 1
            &&& last ==> match repeat {
                RepeatMode::Once => !s.has_next_phase(t),
                RepeatMode::Count(n) => s.has_next_phase(t) <==> t.rounds + 1 < n,
                RepeatMode::Forever => s.has_next_phase(t),
            }
            &&& last && s.has_next_phase(t) ==> t1.phase == 0
            &&& last && !s.has_next_phase(t) ==> t1.phase == phases.len()
            &&& s.has_next_phase(t) && phases[t1.phase as int] is Run ==> t1.run_remaining_ns
                == phases[t1.phase as int]->Run_0
            &&& !s.has_next_phase(t) || !(phases[t1.phase as int] is Run) ==> t1.run_remaining_ns
                == t.run_remaining_ns
            &&& t1.pid == t.pid && t1.def == t.def && t1.state == t.state && t1.prev_cpu
                == t.prev_cpu && t1.cgid == t.cgid && t1.enabled == t.enabled && t1.ops_state
                == t.ops_state && t1.sum_exec_base == t.sum_exec_base
        }),
{
}

/// The scheduler's choice of a CPU is followed: where its selection names a CPU, the
/// woken task is placed there, that is recorded, and unless the task was dispatched
/// directly it is enqueued there next. Only a selection that names none leaves the
/// task where it was.
pub proof fn law_a_selected_cpu_is_used(
    s: SimView,
    r: ReplyView,
    pid: Pid,
    i: int,
    wake_cpu: CpuId,
    prev_cpu: CpuId,
    waker: Option<Pid>,
    c: CpuId,
)
    requires
        s.cpus.len() <= u32::MAX,
        wake_cpu.0 < s.cpus.len(),
        prev_cpu.0 < s.cpus.len(),
        c.0 < s.cpus.len(),
        stands_at(s, pid, i),
        r.value == c.0 || (c == prev_cpu && (r.value < 0 || r.value >= s.cpus.len())),
    ensures
        ({
            let (after, request) = s.perform(
                Work::WakeSelected { pid, wake_cpu, prev_cpu, waker },
                r,
            );
            let n = s.work.len() as int;
            &&& request is Continue
            &&& after.tasks[i] == (SimTask { prev_cpu: c, ..s.tasks[i] })
            &&& others_stay(s, after, i)
            &&& after.trace == (s.trace + r.records).push(
                TraceEvent {
                    time_ns: s.clock,
                    cpu: wake_cpu,
                    kind: TraceKind::SelectTaskRq { pid, prev_cpu, selected_cpu: c },
                },
            )
            &&& other_cpus_stay(s, after, c)
            &&& r.direct is None ==> {
                &&& after.current_cpu == c
                &&& after.work.len() == n + 2
                &&& after.work[n] == (Work::WakeEnqueued { pid, cpu: c })
                &&& after.work[n + 1] == (Work::Call {
                    request: Request::Enqueue {
                        cpu: c,
                        pid,
                        flags: if waker is Some {
                            17
                        } else {
                            1
                        },
                    },
                    cpu: c,
                    charge: None,
                    note: None,
                })
            }
            &&& r.direct is Some ==> {
                &&& after.current_cpu == r.direct->0
                &&& after.work == s.work.push(Work::TryDispatch { cpu: r.direct->0 })
            }
        }),
{
    lemma_charge(s.absorb(r), c, r.cost);
}

/// What a charge leaves as it was.
pub proof fn lemma_charge(s: SimView, c: CpuId, cost: crate::state::Cost)
    requires
        c.0 < s.cpus.len(),
    ensures
        s.charge(c, cost).tasks == s.tasks,
        s.charge(c, cost).trace == s.trace,
        s.charge(c, cost).work == s.work,
        s.charge(c, cost).events == s.events,
        s.charge(c, cost).local == s.local,
        s.charge(c, cost).clock == s.clock,
        other_cpus_stay(s, s.charge(c, cost), c),
        s.charge(c, cost).cpu(c) == (SimCpu {
            local_clock: s.charge(c, cost).cpu(c).local_clock,
            ..s.cpu(c)
        }),
{
}

/// A sleeping task that is woken waits from now on, or from when it began to wait if
/// it did before, and takes up its phases. No other task changes.
pub proof fn law_a_woken_task_waits(
    s: SimView,
    r: ReplyView,
    pid: Pid,
    i: int,
    waker: Option<WakerInfo>,
)
    requires
        stands_at(s, pid, i),
        s.tasks[i].state is Sleeping,
    ensures
        ({
            let (after, request) = s.perform(Work::Wake { pid, waker }, r);
            let t = s.tasks[i];
            &&& request is Continue
            &&& after.tasks[i].state is Runnable
            &&& t.runnable_at_ns is None ==> after.tasks[i].runnable_at_ns == Some(s.clock)
            &&& t.runnable_at_ns is Some ==> after.tasks[i].runnable_at_ns == t.runnable_at_ns
            &&& after.tasks[i] == (SimTask {
                state: after.tasks[i].state,
                runnable_at_ns: after.tasks[i].runnable_at_ns,
                ..t
            })
            &&& others_stay(s, after, i)
            &&& after.work == s.work.push(Work::AdvancePhase { pid, waker })
            &&& after.trace == s.trace && after.events == s.events && after.cpus == s.cpus
        }),
{
}

/// A woken task in a phase that computes is ready: it has what was left of the phase to
/// do, or all of it if nothing was left.
pub proof fn law_a_woken_task_computes_what_is_left(
    s: SimView,
    r: ReplyView,
    pid: Pid,
    i: int,
    waker: Option<WakerInfo>,
    ns: TimeNs,
)
    requires
        stands_at(s, pid, i),
        s.tasks[i].phase < phases_of(s, s.tasks[i]).len(),
        phases_of(s, s.tasks[i])[s.tasks[i].phase as int] == Phase::Run(ns),
    ensures
        ({
            let (after, request) = s.perform(Work::AdvancePhase { pid, waker }, r);
            let t = s.tasks[i];
            &&& request is Continue
            &&& t.run_remaining_ns == 0 ==> after.tasks[i].run_remaining_ns == ns
            &&& t.run_remaining_ns > 0 ==> after.tasks[i].run_remaining_ns == t.run_remaining_ns
            &&& after.tasks[i].state == t.state && after.tasks[i].phase == t.phase
            &&& others_stay(s, after, i)
            &&& after.work == s.work.push(Work::WakeReady { pid, waker })
            &&& after.trace == s.trace && after.events == s.events
        }),
{
}

/// A woken task is past its sleep, and wakes those that its phases say on the way: it
/// moves on phase by phase. Where no phase is left it exits and is recorded as
/// completed.
pub proof fn law_a_woken_task_is_past_its_sleep(
    s: SimView,
    r: ReplyView,
    pid: Pid,
    i: int,
    waker: Option<WakerInfo>,
)
    requires
        stands_at(s, pid, i),
        s.tasks[i].phase >= phases_of(s, s.tasks[i]).len() || !(phases_of(
            s,
            s.tasks[i],
        )[s.tasks[i].phase as int] is Run),
    ensures
        ({
            let (after, request) = s.perform(Work::AdvancePhase { pid, waker }, r);
            let t = s.tasks[i];
            let over = t.phase >= phases_of(s, t).len();
            &&& request is Continue
            &&& others_stay(s, after, i)
            &&& !over && phases_of(s, t)[t.phase as int] is Sleep ==> after.events == s.events
            &&& !over && phases_of(s, t)[t.phase as int] is Wake ==> after.events
                == s.events.push(
                s.clock,
                EventKind::TaskWake {
                    pid: phases_of(s, t)[t.phase as int]->Wake_0,
                    waker: None,
                    cpu: t.prev_cpu,
                },
            )
            &&& !over && s.has_next_phase(t) ==> {
                &&& after.tasks[i] == s.advance_phase(t)
                &&& after.work == s.work.push(Work::AdvancePhase { pid, waker })
                &&& after.trace == s.trace
            }
            &&& over || !s.has_next_phase(t) ==> {
                &&& after.tasks[i].state is Exited
                &&& after.work == s.work.push(Work::WakeReady { pid, waker })
                &&& recorded(s, after, s.clock, s.current_cpu, TraceKind::TaskCompleted { pid })
            }
        }),
{
}

/// A task that is ready is recorded as woken, in its waker's place or its own, waits
/// for its run from now on, and the scheduler hears that it is runnable, and from
/// whom if the waker is known; a CPU is selected after that. A task that has exited is
/// recorded as completed and the scheduler hears nothing.
pub proof fn law_a_ready_task_is_announced(
    s: SimView,
    r: ReplyView,
    pid: Pid,
    i: int,
    waker: Option<WakerInfo>,
)
    requires
        stands_at(s, pid, i),
    ensures
        ({
            let (after, request) = s.perform(Work::WakeReady { pid, waker }, r);
            let n = s.work.len() as int;
            let t = s.tasks[i];
            let place = if waker is Some {
                (waker->0).cpu
            } else {
                t.prev_cpu
            };
            let known = waker is Some && s.find((waker->0).pid) is Some;
            let by = if known {
                Some((waker->0).pid)
            } else {
                None
            };
            let flags: u64 = if known {
                17
            } else {
                1
            };
            &&& request is Continue
            &&& others_stay(s, after, i)
            &&& after.events == s.events && after.cpus == s.cpus
            &&& t.state is Exited ==> {
                &&& after.tasks[i] == t
                &&& after.work == s.work
                &&& recorded(s, after, s.clock, place, TraceKind::TaskCompleted { pid })
            }
            &&& t.state is Sleeping ==> after == s
            &&& t.state is Runnable || t.state is Running ==> {
                &&& after.tasks[i] == (SimTask { enqueued_at_ns: Some(s.clock), ..t })
                &&& recorded(s, after, s.clock, place, TraceKind::TaskWoke { pid })
                &&& after.work.len() == n + 2
                &&& after.work[n] == (Work::WakeSelect {
                    pid,
                    wake_cpu: place,
                    prev_cpu: t.prev_cpu,
                    waker: by,
                })
                &&& after.work[n + 1] == (Work::Call {
                    request: Request::Runnable { cpu: place, pid, flags, waker: by },
                    cpu: place,
                    charge: Some(place),
                    note: Some(TraceKind::Runnable { pid, enq_flags: flags }),
                })
            }
        }),
{
    assert(s.perform(Work::WakeReady { pid, waker }, r).0.tasks =~= if s.tasks[i].state is Exited
        || s.tasks[i].state is Sleeping {
        s.tasks
    } else {
        s.tasks.update(i, SimTask { enqueued_at_ns: Some(s.clock), ..s.tasks[i] })
    });
}

/// The scheduler is asked to select a CPU in the waker's place, is told where the task
/// was, and holds the task from then on.
pub proof fn law_a_cpu_is_selected_for_a_woken_task(
    s: SimView,
    r: ReplyView,
    pid: Pid,
    i: int,
    wake_cpu: CpuId,
    prev_cpu: CpuId,
    waker: Option<Pid>,
)
    requires
        stands_at(s, pid, i),
    ensures
        ({
            let (after, request) = s.perform(
                Work::WakeSelect { pid, wake_cpu, prev_cpu, waker },
                r,
            );
            &&& request == (Request::SelectCpu {
                cpu: wake_cpu,
                pid,
                prev_cpu,
                flags: if waker is Some {
                    24
                } else {
                    8
                },
                waker,
            })
            &&& after.tasks[i] == (SimTask { ops_state: OpsTaskState::Queued, ..s.tasks[i] })
            &&& others_stay(s, after, i)
            &&& after.current_cpu == wake_cpu
            &&& after.work == s.work.push(Work::WakeSelected { pid, wake_cpu, prev_cpu, waker })
            &&& after.trace == s.trace && after.events == s.events
        }),
{
}

/// What is added to look for tasks is exactly one look for each idle CPU, lowest first.
pub open spec fn idle_looks(s: SimView, w: Seq<Work>, from: nat) -> bool {
    let n = s.work.len() as int;
    &&& w.len() >= n
    &&& w.take(n) == s.work
    &&& forall|k: int|
        n <= k < w.len() ==> (#[trigger] w[k]) is TryDispatch && from <= w[k]->TryDispatch_cpu.0
            < s.cpus.len() && s.cpus[w[k]->TryDispatch_cpu.0 as int].current_task is None
    &&& forall|j: int, k: int|
        n <= j < k < w.len() ==> (#[trigger] w[k])->TryDispatch_cpu.0 < (
        #[trigger] w[j])->TryDispatch_cpu.0
    &&& forall|c: int|
        from <= c < s.cpus.len() && (#[trigger] s.cpus[c]).current_task is None ==> exists|k: int|
            n <= k < w.len() && (#[trigger] w[k])->TryDispatch_cpu.0 == c
}

proof fn lemma_try_idle(s: SimView, from: nat)
    requires
        s.cpus.len() <= u32::MAX,
    ensures
        idle_looks(s, s.then_try_idle(from).work, from),
        s.then_try_idle(from) == (SimView { work: s.then_try_idle(from).work, ..s }),
    decreases s.cpus.len() - from,
{
    let w = s.then_try_idle(from).work;
    let n = s.work.len() as int;
    if from >= s.cpus.len() {
        assert(w.take(n) =~= s.work);
    } else {
        lemma_try_idle(s, from + 1);
        let v = s.then_try_idle(from + 1).work;
        assert(w.take(n) =~= v.take(n));
        if s.cpus[from as int].current_task is None {
            assert(w[v.len() as int]->TryDispatch_cpu.0 == from);
            assert forall|k: int| n <= k < w.len() implies (#[trigger] w[k]) is TryDispatch && from
                <= w[k]->TryDispatch_cpu.0 < s.cpus.len()
                && s.cpus[w[k]->TryDispatch_cpu.0 as int].current_task is None by {
                if k < v.len() {
                    assert(w[k] == v[k]);
                }
            }
            assert forall|j: int, k: int| n <= j < k < w.len() implies (
            #[trigger] w[k])->TryDispatch_cpu.0 < (#[trigger] w[j])->TryDispatch_cpu.0 by {
                assert(w[j] == v[j]);
                if k < v.len() {
                    assert(w[k] == v[k]);
                }
            }
            assert forall|c: int|
                from <= c < s.cpus.len() && (
                #[trigger] s.cpus[c]).current_task is None implies exists|k: int|
                n <= k < w.len() && (#[trigger] w[k])->TryDispatch_cpu.0 == c by {
                if c > from {
                    let k = choose|k: int|
                        n <= k < v.len() && (#[trigger] v[k])->TryDispatch_cpu.0 == c;
                    assert(w[k] == v[k]);
                }
            }
        }
    }
}

/// Once a woken task is with the scheduler, that is recorded and every idle CPU looks
/// for work, the lowest first, and no other CPU does.
pub proof fn law_idle_cpus_look_for_a_woken_task(s: SimView, r: ReplyView, pid: Pid, cpu: CpuId)
    requires
        s.cpus.len() <= u32::MAX,
        cpu.0 < s.cpus.len(),
    ensures
        ({
            let (after, request) = s.perform(Work::WakeEnqueued { pid, cpu }, r);
            &&& request is Continue
            &&& recorded(s, after, s.clock, cpu, TraceKind::EnqueueTask { pid, enq_flags: 1 })
            &&& idle_looks(s, after.work, 0)
            &&& after.tasks == s.tasks && after.cpus == s.cpus && after.events == s.events
        }),
{
    let s1 = s.record(s.clock, cpu, TraceKind::EnqueueTask { pid, enq_flags: 1 });
    lemma_try_idle(s1, 0);
    assert(s1.work == s.work && s1.cpus == s.cpus);
    let after = s.perform(Work::WakeEnqueued { pid, cpu }, r).0;
    assert(after == s1.then_try_idle(0));
}

/// A task put on a CPU runs there: the CPU has it and nothing else, it is placed there
/// and waits no longer. One that has exited is passed over for the next.
pub proof fn law_a_started_task_has_its_cpu(s: SimView, r: ReplyView, cpu: CpuId, pid: Pid, i: int)
    requires
        cpu.0 < s.cpus.len(),
        stands_at(s, pid, i),
    ensures
        ({
            let (after, request) = s.perform(Work::StartRunning { cpu, pid }, r);
            let t = s.tasks[i];
            &&& t.state is Exited ==> {
                &&& after.tasks == s.tasks && after.cpus == s.cpus
                &&& after.work == s.work.push(Work::TryDispatch { cpu })
                &&& request is Continue
            }
            &&& !(t.state is Exited) ==> {
                &&& request == (Request::MarkBusy { cpu, pid })
                &&& after.tasks[i] == (SimTask {
                    state: TaskState::Running { cpu },
                    prev_cpu: cpu,
                    runnable_at_ns: None,
                    ..t
                })
                &&& others_stay(s, after, i)
                &&& after.cpu(cpu) == (SimCpu {
                    current_task: Some(pid),
                    prev_task: None,
                    irq_stolen_ns: 0,
                    ..s.cpu(cpu)
                })
                &&& other_cpus_stay(s, after, cpu)
                &&& after.work.drop_last() == s.work
                &&& after.work.last() is MarkedBusy
                &&& after.work.last()->MarkedBusy_cpu == cpu
                &&& after.work.last()->MarkedBusy_pid == pid
                &&& after.work.last()->MarkedBusy_migrated <==> t.prev_cpu != cpu
                &&& after.work.last()->MarkedBusy_cross_llc <==> t.prev_cpu != cpu
                    && s.cpus[t.prev_cpu.0 as int].llc_id != s.cpus[cpu.0 as int].llc_id
            }
            &&& after.trace == s.trace && after.events == s.events
        }),
{
    let after = s.perform(Work::StartRunning { cpu, pid }, r).0;
    if !(s.tasks[i].state is Exited) {
        assert(after.work.drop_last() =~= s.work);
    }
}

/// The scheduler hears that a task runs; before that, that it entered its class if it
/// was not told yet, and first of all that the CPU is no longer idle if it was. The
/// task's runtime is counted from what the scheduler has of it.
pub proof fn law_the_scheduler_hears_that_a_task_runs(
    s: SimView,
    r: ReplyView,
    cpu: CpuId,
    pid: Pid,
    i: int,
    migrated: bool,
    cross_llc: bool,
)
    requires
        stands_at(s, pid, i),
    ensures
        ({
            let (after, request) = s.perform(
                Work::MarkedBusy { cpu, pid, migrated, cross_llc },
                r,
            );
            let n = s.work.len() as int;
            let fresh = !s.tasks[i].enabled;
            let idle = r.value == 1;
            let enable = Work::Call {
                request: Request::Enable { pid },
                cpu,
                charge: Some(cpu),
                note: Some(TraceKind::Enable { pid }),
            };
            let busy = Work::Call {
                request: Request::UpdateIdle { cpu, idle: false },
                cpu,
                charge: Some(cpu),
                note: Some(TraceKind::UpdateIdle { cpu, idle: false }),
            };
            &&& request is Continue
            &&& after.tasks[i] == (SimTask {
                sum_exec_base: r.sum_exec,
                enabled: true,
                ..s.tasks[i]
            })
            &&& others_stay(s, after, i)
            &&& after.trace == s.trace && after.events == s.events
            &&& after.work[n] == (Work::RunFloor { cpu, pid, migrated, cross_llc })
            &&& after.work[n + 1] == (Work::Probe { point: ProbePoint::Running, pid, cpu })
            &&& after.work[n + 2] == (Work::Call {
                request: Request::Running { cpu, pid },
                cpu,
                charge: Some(cpu),
                note: None,
            })
            &&& !fresh && !idle ==> after.work.len() == n + 3
            &&& fresh && !idle ==> after.work.len() == n + 4 && after.work[n + 3] == enable
            &&& !fresh && idle ==> after.work.len() == n + 4 && after.work[n + 3] == busy
            &&& fresh && idle ==> after.work.len() == n + 5 && after.work[n + 3] == enable
                && after.work[n + 4] == busy
        }),
{
}

/// How long a wakeup takes is asked only where overhead is modelled, a least is set and
/// the task was woken since it last ran.
pub proof fn law_latency_is_asked_where_it_is_modelled(
    s: SimView,
    r: ReplyView,
    cpu: CpuId,
    pid: Pid,
    i: int,
    migrated: bool,
    cross_llc: bool,
)
    requires
        stands_at(s, pid, i),
    ensures
        ({
            let (after, request) = s.perform(Work::RunFloor { cpu, pid, migrated, cross_llc }, r);
            let o = s.scenario.overhead;
            let asked = o.enabled && o.wakeup_latency_floor_ns > 0
                && s.tasks[i].enqueued_at_ns is Some;
            &&& asked ==> request == (Request::WakeupLatency {
                floor: o.wakeup_latency_floor_ns,
            })
            &&& !asked ==> request is Continue
            &&& after.work == s.work.push(
                Work::RunFloored { cpu, pid, migrated, cross_llc, asked },
            )
            &&& after.tasks == s.tasks && after.cpus == s.cpus && after.trace == s.trace
        }),
{
}

/// A task does not start before its wakeup, the latency drawn and the cost of its
/// migration are over, where overhead is modelled; otherwise the CPU's clock stays. A
/// migration to another cache costs its own penalty on top.
pub proof fn law_a_task_starts_after_its_latency(
    s: SimView,
    r: ReplyView,
    cpu: CpuId,
    pid: Pid,
    i: int,
    migrated: bool,
    cross_llc: bool,
    asked: bool,
)
    requires
        cpu.0 < s.cpus.len(),
        stands_at(s, pid, i),
    ensures
        ({
            let (after, request) = s.perform(
                Work::RunFloored { cpu, pid, migrated, cross_llc, asked },
                r,
            );
            let o = s.scenario.overhead;
            let t = s.tasks[i];
            let drawn = if asked {
                as_delay(r.value)
            } else {
                0
            };
            let moved = if !migrated || o.migration_penalty_ns == 0 {
                0
            } else if cross_llc {
                o.migration_penalty_ns + o.cross_llc_migration_penalty_ns
            } else {
                o.migration_penalty_ns as int
            };
            let before = s.cpu(cpu).local_clock;
            let now = after.cpu(cpu).local_clock;
            &&& request is Continue
            &&& !o.enabled || t.enqueued_at_ns is None ==> now == before
            &&& o.enabled && t.enqueued_at_ns is Some && t.enqueued_at_ns->0 + drawn + moved
                <= u64::MAX ==> {
                &&& now >= before
                &&& now >= t.enqueued_at_ns->0 + drawn + moved
                &&& now == before || now == t.enqueued_at_ns->0 + drawn + moved
            }
            &&& after.tasks[i] == (SimTask { enqueued_at_ns: None, ..t })
            &&& others_stay(s, after, i)
            &&& other_cpus_stay(s, after, cpu)
            &&& after.work == s.work.push(Work::RunSet { cpu, pid })
            &&& after.trace == s.trace && after.events == s.events
        }),
{
}

/// A task that runs is recorded as picked and then as scheduled, at the CPU's time. How
/// far its compute time varies is asked only where it may vary and something is left,
/// in proportion to what is left.
pub proof fn law_a_run_is_recorded_when_it_starts(s: SimView, r: ReplyView, cpu: CpuId, pid: Pid, i: int)
    requires
        cpu.0 < s.cpus.len(),
        stands_at(s, pid, i),
    ensures
        ({
            let (after, request) = s.perform(Work::RunSet { cpu, pid }, r);
            let m = s.trace.len() as int;
            let at = s.cpu(cpu).local_clock;
            let noise = s.scenario.noise;
            let left = s.tasks[i].run_remaining_ns;
            let varies = noise.enabled && noise.run_jitter && noise.run_jitter_cv_ppm > 0 && left > 0;
            &&& after.trace.len() == m + 2
            &&& after.trace[m] == (TraceEvent {
                time_ns: at,
                cpu,
                kind: TraceKind::SetNextTask { pid },
            })
            &&& after.trace[m + 1] == (TraceEvent {
                time_ns: at,
                cpu,
                kind: TraceKind::TaskScheduled { pid },
            })
            &&& after.tasks == s.tasks && after.cpus == s.cpus && after.events == s.events
            &&& varies ==> request == (Request::RunJitter {
                stddev: (left * noise.run_jitter_cv_ppm / 1_000_000) as u64,
            }) && after.work == s.work.push(Work::RunJittered { cpu, pid })
            &&& !varies ==> request is Continue && after.work == s.work.push(
                Work::RunLimits { cpu, pid },
            )
        }),
{
}

/// A varied compute time is what was left plus the deviation, and something is left in
/// any case.
pub proof fn law_a_varied_run_has_something_to_do(s: SimView, r: ReplyView, cpu: CpuId, pid: Pid, i: int)
    requires
        stands_at(s, pid, i),
    ensures
        ({
            let (after, request) = s.perform(Work::RunJittered { cpu, pid }, r);
            let left = s.tasks[i].run_remaining_ns + r.value;
            &&& request is Continue
            &&& after.tasks[i].run_remaining_ns >= 1
            &&& 1 <= left <= u64::MAX ==> after.tasks[i].run_remaining_ns == left
            &&& left < 1 ==> after.tasks[i].run_remaining_ns == 1
            &&& after.tasks[i] == (SimTask {
                run_remaining_ns: after.tasks[i].run_remaining_ns,
                ..s.tasks[i]
            })
            &&& others_stay(s, after, i)
            &&& after.work == s.work.push(Work::RunLimits { cpu, pid })
        }),
{
}

/// The limits of a run are those of its task and its control group.
pub proof fn law_limits_are_asked_for_the_task(s: SimView, r: ReplyView, cpu: CpuId, pid: Pid, i: int)
    requires
        stands_at(s, pid, i),
    ensures
        ({
            let (after, request) = s.perform(Work::RunLimits { cpu, pid }, r);
            &&& request == (Request::Limits { pid, cgid: s.tasks[i].cgid })
            &&& after == (SimView { work: s.work.push(Work::RunStart { cpu, pid }), ..s })
        }),
{
}

/// How long a task may run, if anything limits it: the lesser of its slice and of its
/// control group's budget, of which a nanosecond is always granted. A slice of zero is
/// no limit, nor is a budget of a task outside the control groups or the greatest.
pub open spec fn may_run_for(s: SimView, i: int, r: ReplyView) -> Option<int> {
    let limited = s.tasks[i].cgid is Some && r.budget is Some && r.budget->0 != u64::MAX;
    let budget = if limited && r.budget->0 > 0 {
        r.budget->0 as int
    } else {
        1
    };
    if limited && r.slice > 0 {
        Some(
            if budget < r.slice {
                budget
            } else {
                r.slice as int
            },
        )
    } else if limited {
        Some(budget)
    } else if r.slice > 0 {
        Some(r.slice as int)
    } else {
        None
    }
}

/// A run ends when its work is done or when its limit is reached, whichever comes first,
/// and the end that comes first is the one that is scheduled; the end of the slice
/// where both come together. The CPU keeps when the run began and how long it may be.
pub proof fn law_a_run_ends_when_it_should(s: SimView, r: ReplyView, cpu: CpuId, pid: Pid, i: int)
    requires
        cpu.0 < s.cpus.len(),
        stands_at(s, pid, i),
        s.cpu(cpu).local_clock + s.tasks[i].run_remaining_ns <= u64::MAX,
    ensures
        ({
            let (after, request) = s.perform(Work::RunStart { cpu, pid }, r);
            let now = s.cpu(cpu).local_clock;
            let left = s.tasks[i].run_remaining_ns;
            let limit = may_run_for(s, i, r);
            let cut = limit is Some && limit->0 <= left && left > 0;
            &&& request is Continue
            &&& cut ==> after.events == s.events.push(
                (now + limit->0) as u64,
                EventKind::SliceExpired { cpu },
            )
            &&& !cut ==> after.events == s.events.push(
                (now + left) as u64,
                EventKind::TaskPhaseComplete { cpu },
            )
            &&& after.cpu(cpu) == (SimCpu {
                task_started_at: Some(now),
                task_original_slice: Some(
                    if limit is Some {
                        limit->0 as u64
                    } else {
                        0
                    },
                ),
                ..s.cpu(cpu)
            })
            &&& other_cpus_stay(s, after, cpu)
            &&& after.tasks == s.tasks && after.trace == s.trace && after.work == s.work
        }),
{
}

/// A callback is made on its CPU, and what it does is taken in when it returns.
pub proof fn law_a_callback_is_made_on_its_cpu(
    s: SimView,
    r: ReplyView,
    asked: Request,
    cpu: CpuId,
    charge: Option<CpuId>,
    note: Option<TraceKind>,
)
    ensures
        ({
            let (after, request) = s.perform(Work::Call { request: asked, cpu, charge, note }, r);
            &&& request == asked
            &&& after == (SimView {
                current_cpu: cpu,
                work: s.work.push(
                    Work::Returned { cpu, at: s.cpu(cpu).local_clock, charge, note },
                ),
                ..s
            })
        }),
{
}

/// The tasks that were put into a CPU's queue, in order.
pub open spec fn put_into(inserts: Seq<crate::state::Insert>, c: int, n: nat) -> Seq<Pid>
    decreases n,
{
    if n == 0 {
        Seq::empty()
    } else if inserts[n - 1].cpu.0 == c {
        put_into(inserts, c, (n - 1) as nat).push(inserts[n - 1].pid)
    } else {
        put_into(inserts, c, (n - 1) as nat)
    }
}

/// Tasks that a callback puts into local queues go to the ends of the queues that they
/// are put into, in order, and to no other.
pub proof fn law_inserted_tasks_go_to_the_ends_of_their_queues(
    local: Seq<Seq<Pid>>,
    inserts: Seq<crate::state::Insert>,
    c: int,
)
    requires
        0 <= c < local.len(),
        forall|k: int| 0 <= k < inserts.len() ==> (#[trigger] inserts[k]).cpu.0 < local.len(),
    ensures
        crate::sim_state::queued(local, inserts).len() == local.len(),
        crate::sim_state::queued(local, inserts)[c] == local[c] + put_into(
            inserts,
            c,
            inserts.len(),
        ),
    decreases inserts.len(),
{
    if inserts.len() == 0 {
        assert(local[c] + put_into(inserts, c, 0) =~= local[c]);
    } else {
        let rest = inserts.drop_last();
        assert forall|k: int| 0 <= k < rest.len() implies (#[trigger] rest[k]).cpu.0
            < local.len() by {
            assert(rest[k] == inserts[k]);
        }
        law_inserted_tasks_go_to_the_ends_of_their_queues(local, rest, c);
        lemma_put_into(rest, inserts, c, rest.len());
        assert(inserts[inserts.len() - 1] == inserts.last());
        assert(crate::sim_state::queued(local, inserts)[c] =~= local[c] + put_into(
            inserts,
            c,
            inserts.len(),
        ));
    }
}

proof fn lemma_put_into(
    a: Seq<crate::state::Insert>,
    b: Seq<crate::state::Insert>,
    c: int,
    n: nat,
)
    requires
        n <= a.len() <= b.len(),
        a == b.take(a.len() as int),
    ensures
        put_into(a, c, n) == put_into(b, c, n),
    decreases n,
{
    if n > 0 {
        lemma_put_into(a, b, c, (n - 1) as nat);
        assert(a[n - 1] == b[n - 1]);
    }
}

/// A timer slot holds the timer that it was armed with last; one that is not armed
/// again keeps what it had.
pub proof fn law_a_slot_holds_its_last_timer(
    timers: Seq<Option<(TimeNs, CpuId)>>,
    new: Seq<crate::state::Timer>,
    slot: int,
)
    requires
        0 <= slot < timers.len(),
        forall|k: int| 0 <= k < new.len() ==> (#[trigger] new[k]).slot < timers.len(),
    ensures
        crate::sim_state::armed(timers, new).len() == timers.len(),
        (forall|k: int| 0 <= k < new.len() ==> (#[trigger] new[k]).slot != slot)
            ==> crate::sim_state::armed(timers, new)[slot] == timers[slot],
        forall|k: int|
            0 <= k < new.len() && (#[trigger] new[k]).slot == slot && (forall|j: int|
                k < j < new.len() ==> (#[trigger] new[j]).slot != slot)
                ==> crate::sim_state::armed(timers, new)[slot] == Some(
                (new[k].fire_at, new[k].cpu),
            ),
    decreases new.len(),
{
    if new.len() > 0 {
        let rest = new.drop_last();
        let last = new[new.len() - 1];
        assert forall|k: int| 0 <= k < rest.len() implies (#[trigger] rest[k]).slot
            < timers.len() by {
            assert(rest[k] == new[k]);
        }
        law_a_slot_holds_its_last_timer(timers, rest, slot);
        if forall|k: int| 0 <= k < new.len() ==> (#[trigger] new[k]).slot != slot {
            assert forall|k: int| 0 <= k < rest.len() implies (#[trigger] rest[k]).slot
                != slot by {
                assert(rest[k] == new[k]);
            }
            assert(last.slot != slot);
        }
        assert forall|k: int|
            0 <= k < new.len() && (#[trigger] new[k]).slot == slot && (forall|j: int|
                k < j < new.len() ==> (#[trigger] new[j]).slot
                    != slot) implies crate::sim_state::armed(timers, new)[slot] == Some(
            (new[k].fire_at, new[k].cpu),
        ) by {
            if k < rest.len() {
                assert(new[new.len() - 1].slot != slot);
                assert(rest[k] == new[k]);
                assert forall|j: int| k < j < rest.len() implies (#[trigger] rest[j]).slot
                    != slot by {
                    assert(rest[j] == new[j]);
                }
            }
        }
    }
}

/// What happened during a callback takes effect when it returns: its records come next,
/// then the callback's own, at the time it was made; its kicks go behind those that
/// wait; its timers are armed and its tasks queued; and the first error that was
/// raised is kept. What is charged is charged once, to the CPU named.
pub proof fn law_what_a_callback_did_takes_effect(
    s: SimView,
    r: ReplyView,
    cpu: CpuId,
    at: TimeNs,
    charge: Option<CpuId>,
    note: Option<TraceKind>,
)
    requires
        charge is Some ==> (charge->0).0 < s.cpus.len() && (charge->0).0 < s.accum.len(),
        charge is Some ==> s.accum[(charge->0).0 as int].cpu_count < u64::MAX,
    ensures
        ({
            let (after, request) = s.perform(Work::Returned { cpu, at, charge, note }, r);
            &&& request is Continue
            &&& note is None ==> after.trace == s.trace + r.records
            &&& note is Some ==> after.trace == (s.trace + r.records).push(
                TraceEvent { time_ns: at, cpu, kind: note->0 },
            )
            &&& after.staged == s.staged + r.kicks
            &&& after.timers == crate::sim_state::armed(s.timers, r.timers)
            &&& after.local == crate::sim_state::queued(s.local, r.inserts)
            &&& s.error is Some ==> after.error == s.error
            &&& s.error is None ==> after.error == r.error
            &&& after.tasks == s.tasks && after.work == s.work && after.events == s.events
                && after.clock == s.clock && after.registry == s.registry && after.blocked
                == s.blocked && after.exit == s.exit && after.scenario == s.scenario
            &&& charge is None ==> after.cpus == s.cpus && after.accum == s.accum && after.stats
                == s.stats
            &&& charge is Some ==> {
                &&& other_cpus_stay(s, after, charge->0)
                &&& after.accum[(charge->0).0 as int].cpu_count == s.accum[(
                charge->0).0 as int].cpu_count + 1
            }
        }),
{
}

/// What a callback costs its CPU: without a counter what its kernel functions cost, at
/// least fifty nanoseconds, where overhead is modelled; with one the price of its
/// branches and what its kernel functions cost, where branches have a price; nothing
/// otherwise. No other CPU's clock moves.
pub proof fn law_callbacks_cost_what_they_do(s: SimView, c: CpuId, cost: crate::state::Cost)
    requires
        c.0 < s.cpus.len(),
        c.0 < s.accum.len(),
    ensures
        ({
            let after = s.charge(c, cost);
            let before = s.cpu(c).local_clock;
            let now = after.cpu(c).local_clock;
            let price = s.scenario.sched_overhead_rbc_ns;
            let least = if cost.kfunc_ns < 50 {
                50
            } else {
                cost.kfunc_ns as int
            };
            &&& other_cpus_stay(s, after, c)
            &&& s.counter is Absent && s.scenario.overhead.enabled && before + least <= u64::MAX
                ==> now == before + least
            &&& s.counter is Absent && !s.scenario.overhead.enabled ==> now == before
            &&& !(s.counter is Absent) && price is Some && price->0 > 0 && before + cost.branches
                * price->0 + cost.kfunc_ns <= u64::MAX ==> now == before + cost.branches
                * price->0 + cost.kfunc_ns
            &&& !(s.counter is Absent) && (price is None || price->0 == 0) ==> now == before
            &&& s.counter is Absent ==> after.stats == s.stats
            &&& !(s.counter is Absent) ==> {
                &&& after.stats.longest_structop_rbc >= cost.branches
                &&& after.stats.longest_structop_rbc >= s.stats.longest_structop_rbc
                &&& after.stats.longest_structop_rbc == cost.branches
                    || after.stats.longest_structop_rbc == s.stats.longest_structop_rbc
                &&& after.stats.longest_rbc_interval >= cost.final_interval
                &&& after.stats.longest_rbc_interval >= s.stats.longest_rbc_interval
                &&& after.stats.longest_rbc_interval == cost.final_interval
                    || after.stats.longest_rbc_interval == s.stats.longest_rbc_interval
            }
            &&& s.accum[c.0 as int].kfunc_count + cost.kfunc_calls <= u64::MAX
                ==> after.accum[c.0 as int].kfunc_count == s.accum[c.0 as int].kfunc_count
                + cost.kfunc_calls
            &&& !(s.counter is Absent) && price is Some && price->0 > 0 && s.accum[
            c.0 as int].rbc_total + cost.branches <= u64::MAX ==> after.accum[
            c.0 as int].rbc_total == s.accum[c.0 as int].rbc_total + cost.branches
            &&& s.counter is Absent || price is None || price->0 == 0 ==> after.accum[
            c.0 as int].rbc_total == s.accum[c.0 as int].rbc_total
            &&& after.accum[c.0 as int].interleave_count == s.accum[c.0 as int].interleave_count
        }),
{
    assert(cost.branches * s.scenario.sched_overhead_rbc_ns->0 >= 0) by (nonlinear_arith);
}

/// An error that the scheduler raised ends the simulation with it, and nothing else is
/// done, unless errors are ignored; it is forgotten in any case.
pub proof fn law_a_raised_error_ends_the_simulation(s: SimView, r: ReplyView)
    ensures
        ({
            let (after, request) = s.perform(Work::CheckError, r);
            let ends = s.error is Some && !s.scenario.ignore_bpf_errors;
            &&& request is Continue
            &&& after.error is None
            &&& ends ==> after.work == seq![Work::Finish] && after.exit
                == crate::state::ExitView::ErrorBpf(s.error->0)
            &&& !ends ==> after.work == s.work && after.exit == s.exit
            &&& after.tasks == s.tasks && after.cpus == s.cpus && after.trace == s.trace
                && after.events == s.events
        }),
{
}

/// A CPU that is free and online looks for a task. Where its own queue has one the
/// scheduler is not asked; where it has none it is, with what the CPU ran last. The
/// CPU's time is not behind the event's.
pub proof fn law_a_free_cpu_looks_for_a_task(s: SimView, r: ReplyView, cpu: CpuId)
    requires
        cpu.0 < s.cpus.len(),
        s.cpu(cpu).current_task is None,
        s.cpu(cpu).is_online,
    ensures
        ({
            let (after, request) = s.perform(Work::TryDispatch { cpu }, r);
            let c = s.cpu(cpu);
            let empty = s.local[cpu.0 as int].len() == 0;
            &&& empty ==> {
                &&& request == (Request::Dispatch { cpu, prev: c.prev_task })
                &&& after.current_cpu == cpu
                &&& after.work == s.work.push(Work::Dispatched { cpu, prev: c.prev_task })
                &&& after.local == s.local
            }
            &&& !empty ==> !(request is Dispatch) && !(request is ConsumeGlobal)
            &&& after.cpu(cpu).local_clock >= s.clock
            &&& after.cpu(cpu).local_clock >= c.local_clock
            &&& after.cpu(cpu).local_clock == s.clock || after.cpu(cpu).local_clock
                == c.local_clock
            &&& other_cpus_stay(s, after, cpu)
            &&& after.tasks == s.tasks && after.events == s.events
        }),
{
}

/// After the scheduler had its turn that is recorded, with what the CPU ran last; the
/// kicks go out, then the CPU takes what there is.
pub proof fn law_a_dispatch_is_recorded(s: SimView, r: ReplyView, cpu: CpuId, prev: Option<Pid>)
    requires
        cpu.0 < s.cpus.len(),
    ensures
        ({
            let (after, request) = s.perform(Work::Dispatched { cpu, prev }, r);
            let n = s.work.len() as int;
            let looked = prev is Some && s.find(prev->0) is Some;
            &&& request is Continue
            &&& after.trace == (s.trace + r.records).push(
                TraceEvent {
                    time_ns: after.cpu(cpu).local_clock,
                    cpu,
                    kind: TraceKind::Balance { prev_pid: prev },
                },
            )
            &&& after.work[n] == (Work::PostDispatch { cpu, notify: true })
            &&& after.work[n + 1] is FlushStaged
            &&& !looked ==> after.work.len() == n + 2
            &&& looked ==> after.work.len() == n + 3 && after.work[n + 2] == (Work::Probe {
                point: ProbePoint::Dispatched,
                pid: prev->0,
                cpu,
            })
            &&& after.tasks == s.tasks && after.events == s.events
        }),
{
    lemma_charge(s.absorb(r), cpu, r.cost);
}

/// A CPU takes from the global queue exactly where its own is empty, and a task that
/// the global queue gave is recorded as moved.
pub proof fn law_the_global_queue_is_asked_last(s: SimView, r: ReplyView, cpu: CpuId, notify: bool)
    requires
        cpu.0 < s.cpus.len(),
        cpu.0 < s.local.len(),
        r.inserts.len() == 0,
    ensures
        ({
            let (after, request) = s.perform(Work::PostDispatch { cpu, notify }, r);
            let empty = s.local[cpu.0 as int].len() == 0;
            &&& empty ==> request == (Request::ConsumeGlobal { cpu }) && after.work == s.work.push(
                Work::Consumed { cpu, notify },
            )
            &&& !empty ==> !(request is ConsumeGlobal)
        }),
        ({
            let after = s.perform(Work::Consumed { cpu, notify }, r).0;
            let m = (s.trace.len() + r.records.len()) as int;
            r.value != 0 ==> after.trace.len() > m && after.trace[m] == (TraceEvent {
                time_ns: s.cpu(cpu).local_clock,
                cpu,
                kind: TraceKind::DsqMoveToLocal {
                    dsq_id: crate::types::DsqId(crate::types::DSQ_GLOBAL),
                    success: true,
                },
            })
        }),
{
}

/// The first task of a CPU's queue runs, unless it is in a control group: then the group
/// is asked about first. The task leaves the queue as it is picked, which is recorded;
/// the others keep their places, and no other queue changes. Without a task the CPU is
/// marked idle.
pub proof fn law_the_first_task_of_the_queue_runs(s: SimView, r: ReplyView, cpu: CpuId, notify: bool, i: int)
    requires
        cpu.0 < s.cpus.len(),
        cpu.0 < s.local.len(),
        s.local[cpu.0 as int].len() > 0,
        stands_at(s, s.local[cpu.0 as int][0], i),
    ensures
        ({
            let (after, request) = s.perform(Work::PostDispatch { cpu, notify }, r);
            let q = s.local[cpu.0 as int];
            let pid = q[0];
            let t = s.tasks[i];
            &&& t.cgid is Some ==> {
                &&& request == (Request::IsThrottled { cgid: t.cgid->0 })
                &&& after == (SimView {
                    work: s.work.push(Work::Gated { cpu, notify, pid, cgid: t.cgid->0 }),
                    ..s
                })
            }
            &&& t.cgid is None ==> {
                &&& request is Continue
                &&& picked(s, after, cpu, pid)
            }
        }),
{
    let after = s.perform(Work::PostDispatch { cpu, notify }, r).0;
    let q = s.local[cpu.0 as int];
    assert(seq![q[0]] + q.skip(1) =~= q);
}

/// Whether the first task of a queue was picked to run.
pub open spec fn picked(a: SimView, b: SimView, cpu: CpuId, pid: Pid) -> bool {
    &&& a.local[cpu.0 as int] == seq![pid] + b.local[cpu.0 as int]
    &&& b.local.len() == a.local.len()
    &&& forall|c: int| 0 <= c < a.local.len() && c != cpu.0 ==> #[trigger] b.local[c] == a.local[c]
    &&& recorded(a, b, a.cpu(cpu).local_clock, cpu, TraceKind::PickTask { pid })
    &&& b.work == a.work.push(Work::StartRunning { cpu, pid })
    &&& b.tasks == a.tasks && b.cpus == a.cpus && b.events == a.events && b.blocked == a.blocked
}

/// Whether a CPU is being marked idle: it forgets what it ran, that it idles is recorded
/// at the end, and the scheduler hears of it first if it is to.
pub open spec fn goes_idle(a: SimView, b: SimView, request: Request, cpu: CpuId, notify: bool) -> bool {
    let n = a.work.len() as int;
    &&& request == (Request::MarkIdle { cpu })
    &&& b.cpu(cpu) == (SimCpu { prev_task: None, ..a.cpu(cpu) })
    &&& other_cpus_stay(a, b, cpu)
    &&& b.work[n] == (Work::Note {
        at: a.cpu(cpu).local_clock,
        cpu,
        kind: TraceKind::CpuIdle,
    })
    &&& !notify ==> b.work.len() == n + 1
    &&& notify ==> b.work.len() == n + 2 && b.work[n + 1] == (Work::Call {
        request: Request::UpdateIdle { cpu, idle: true },
        cpu,
        charge: Some(cpu),
        note: Some(TraceKind::UpdateIdle { cpu, idle: true }),
    })
    &&& b.tasks == a.tasks && b.events == a.events
}

/// A task whose control group has no bandwidth left is held back, behind those held
/// back before, which is recorded, and its CPU goes idle. One whose group has some
/// runs.
pub proof fn law_a_throttled_task_is_held_back(
    s: SimView,
    r: ReplyView,
    cpu: CpuId,
    notify: bool,
    pid: Pid,
    cgid: crate::types::CgroupId,
)
    requires
        cpu.0 < s.cpus.len(),
        cpu.0 < s.local.len(),
        s.local[cpu.0 as int].len() > 0,
        s.local[cpu.0 as int][0] == pid,
    ensures
        ({
            let (after, request) = s.perform(Work::Gated { cpu, notify, pid, cgid }, r);
            &&& r.value == 1 ==> {
                &&& s.local[cpu.0 as int] == seq![pid] + after.local[cpu.0 as int]
                &&& after.blocked == s.blocked.push((cgid, pid))
                &&& recorded(
                    s,
                    after,
                    s.cpu(cpu).local_clock,
                    cpu,
                    TraceKind::CgroupBwDequeueOnThrottle { pid, cgid },
                )
                &&& goes_idle(s, after, request, cpu, notify)
            }
            &&& r.value != 1 ==> picked(s, after, cpu, pid) && request is Continue
        }),
{
    let q = s.local[cpu.0 as int];
    assert(seq![q[0]] + q.skip(1) =~= q);
}

/// A CPU without a task after the global queue was asked is marked idle.
pub proof fn law_a_cpu_without_a_task_goes_idle(s: SimView, r: ReplyView, cpu: CpuId, notify: bool)
    requires
        cpu.0 < s.cpus.len(),
        cpu.0 < s.local.len(),
        s.local[cpu.0 as int].len() == 0,
        r.inserts.len() == 0,
        r.value == 0,
    ensures
        ({
            let (after, request) = s.perform(Work::Consumed { cpu, notify }, r);
            goes_idle(s, after, request, cpu, notify) && after.trace == s.trace + r.records
                && after.local == s.local
        }),
{
}

/// A state with a CPU's clock brought up to the event being served.
pub open spec fn in_time(s: SimView, cpu: CpuId) -> SimView {
    let c = s.cpus[cpu.0 as int];
    if c.local_clock >= s.clock {
        s
    } else {
        SimView {
            cpus: s.cpus.update(cpu.0 as int, SimCpu { local_clock: s.clock, ..c }),
            ..s
        }
    }
}

pub proof fn lemma_in_time(s: SimView, cpu: CpuId)
    requires
        cpu.0 < s.cpus.len(),
    ensures
        s.advance_cpu_clock(cpu) == in_time(s, cpu),
{
    assert(s.advance_cpu_clock(cpu).cpus =~= in_time(s, cpu).cpus);
}

/// A wakeup event wakes its task.
pub proof fn law_a_wakeup_event_wakes_its_task(
    s: SimView,
    r: ReplyView,
    pid: Pid,
    waker: Option<WakerInfo>,
    cpu: CpuId,
)
    requires
        cpu.0 < s.cpus.len(),
    ensures
        s.perform(Work::Handle { kind: EventKind::TaskWake { pid, waker, cpu } }, r) == in_time(
            s,
            cpu,
        ).perform(Work::Wake { pid, waker }, r),
{
    lemma_in_time(s, cpu);
}

/// At the end of a slice, and at the end of a phase, the running task's slice is asked
/// for, and the task stops after that for the reason that the event gives. An event
/// for a CPU that runs nothing does nothing.
pub proof fn law_the_end_of_a_run_stops_the_task(s: SimView, r: ReplyView, cpu: CpuId)
    requires
        cpu.0 < s.cpus.len(),
        s.cpu(cpu).irq_stolen_ns == 0,
    ensures
        ({
            let a = in_time(s, cpu);
            let (expired, q) = s.perform(
                Work::Handle { kind: EventKind::SliceExpired { cpu } },
                r,
            );
            let (complete, p) = s.perform(
                Work::Handle { kind: EventKind::TaskPhaseComplete { cpu } },
                r,
            );
            match s.cpu(cpu).current_task {
                Some(pid) => {
                    &&& s.find(pid) is Some ==> {
                        &&& q == (Request::Slice { pid }) && p == (Request::Slice { pid })
                        &&& expired == (SimView {
                            work: s.work.push(Work::SliceRead { cpu, pid }),
                            ..a
                        })
                        &&& complete == (SimView {
                            work: s.work.push(Work::PhaseSlice { cpu, pid }),
                            ..a
                        })
                    }
                    &&& s.find(pid) is None ==> expired == a && complete == a && q is Continue
                        && p is Continue
                },
                None => expired == a && complete == a && q is Continue && p is Continue,
            }
        }),
{
    lemma_in_time(s, cpu);
}

/// A kick that preempts takes the running task off its CPU. A kick meant for an idle CPU
/// does nothing to a busy one. Any other makes the CPU look for a task.
pub proof fn law_a_kick_does_what_it_says(
    s: SimView,
    r: ReplyView,
    cpu: CpuId,
    flags: crate::types::KickFlags,
)
    requires
        cpu.0 < s.cpus.len(),
    ensures
        ({
            let a = in_time(s, cpu);
            let after = s.perform(
                Work::Handle { kind: EventKind::KickDelivered { cpu, flags } },
                r,
            );
            let busy = s.cpu(cpu).current_task is Some;
            &&& busy && flags.spec_preempt() ==> after == a.perform(Work::Preempt { cpu }, r)
            &&& busy && flags.spec_idle() && !flags.spec_preempt() ==> after == (
                a,
                Request::Continue,
            )
            &&& !busy || (!flags.spec_preempt() && !flags.spec_idle()) ==> after == a.perform(
                Work::TryDispatch { cpu },
                r,
            )
        }),
{
    lemma_in_time(s, cpu);
}

/// A task is started by an event only on a CPU that runs none, and an event to consume
/// has the CPU take what there is without the scheduler hearing that it idles.
pub proof fn law_start_and_consume_events(s: SimView, r: ReplyView, cpu: CpuId, pid: Pid)
    requires
        cpu.0 < s.cpus.len(),
    ensures
        ({
            let a = in_time(s, cpu);
            let after = s.perform(
                Work::Handle { kind: EventKind::StartRunning { cpu, pid } },
                r,
            );
            &&& s.cpu(cpu).current_task is Some ==> after == (a, Request::Continue)
            &&& s.cpu(cpu).current_task is None ==> after == a.perform(
                Work::StartRunning { cpu, pid },
                r,
            )
        }),
        s.perform(Work::Handle { kind: EventKind::DsqConsume { cpu } }, r) == in_time(
            s,
            cpu,
        ).perform(Work::PostDispatch { cpu, notify: false }, r),
{
    lemma_in_time(s, cpu);
}

/// A timer event fires the timer in its slot, on its CPU.
pub proof fn law_a_timer_event_fires_its_timer(s: SimView, r: ReplyView, cpu: CpuId, slot: u8)
    requires
        cpu.0 < s.cpus.len(),
    ensures
        ({
            let (after, request) = s.perform(
                Work::Handle { kind: EventKind::TimerFired { cpu, slot } },
                r,
            );
            &&& request == (Request::FireTimer { cpu, slot })
            &&& after == (SimView {
                current_cpu: cpu,
                work: s.work.push(Work::TimerDone { cpu }),
                ..in_time(s, cpu)
            })
        }),
{
    lemma_in_time(s, cpu);
    lemma_in_time(in_time(s, cpu), cpu);
    assert(in_time(in_time(s, cpu), cpu) =~= in_time(s, cpu));
}

/// What a timer did takes effect: changes of budgets first, in order, then the timers
/// that it armed, then its kicks.
pub proof fn law_what_a_timer_did_takes_effect(s: SimView, r: ReplyView, cpu: CpuId)
    requires
        cpu.0 < s.cpus.len(),
    ensures
        ({
            let (after, request) = s.perform(Work::TimerDone { cpu }, r);
            let n = s.work.len() as int;
            let k = r.budget_events.len() as int;
            &&& request is Continue
            &&& after.trace == s.trace + r.records
            &&& after.work.len() == n + 2 + k
            &&& after.work[n] is FlushStaged
            &&& after.work[n + 1] is ArmTimers
            &&& forall|j: int|
                0 <= j < k ==> #[trigger] after.work[n + 1 + k - j] == (Work::BudgetEvent {
                    cpu,
                    at: after.cpu(cpu).local_clock,
                    kind: r.budget_events[j],
                })
            &&& after.tasks == s.tasks && after.events == s.events
        }),
{
    let s1 = s.absorb(r).charge(cpu, r.cost);
    lemma_charge(s.absorb(r), cpu, r.cost);
    let s2 = s1.then_do(Work::FlushStaged).then_do(Work::ArmTimers);
    lemma_then_budgets(s2, cpu, s1.cpu(cpu).local_clock, r.budget_events);
    let after = s.perform(Work::TimerDone { cpu }, r).0;
    let n = s.work.len() as int;
    let k = r.budget_events.len() as int;
    assert forall|j: int| 0 <= j < k implies #[trigger] after.work[n + 1 + k - j] == (
    Work::BudgetEvent { cpu, at: after.cpu(cpu).local_clock, kind: r.budget_events[j] }) by {
        assert(after.work[s2.work.len() + k - 1 - j] == (Work::BudgetEvent {
            cpu,
            at: s1.cpu(cpu).local_clock,
            kind: r.budget_events[j],
        }));
    }
}

proof fn lemma_then_budgets(s: SimView, cpu: CpuId, at: TimeNs, kinds: Seq<TraceKind>)
    ensures
        ({
            let after = s.then_budgets(cpu, at, kinds);
            let n = s.work.len() as int;
            &&& after == (SimView { work: after.work, ..s })
            &&& after.work.len() == n + kinds.len()
            &&& forall|j: int| 0 <= j < n ==> after.work[j] == s.work[j]
            &&& forall|j: int|
                0 <= j < kinds.len() ==> #[trigger] after.work[n + kinds.len() - 1 - j] == (
                Work::BudgetEvent { cpu, at, kind: kinds[j] })
        }),
    decreases kinds.len(),
{
    if kinds.len() > 0 {
        let rest = kinds.skip(1);
        lemma_then_budgets(s, cpu, at, rest);
        let before = s.then_budgets(cpu, at, rest);
        let after = s.then_budgets(cpu, at, kinds);
        let n = s.work.len() as int;
        assert forall|j: int| 0 <= j < kinds.len() implies #[trigger] after.work[n + kinds.len()
            - 1 - j] == (Work::BudgetEvent { cpu, at, kind: kinds[j] }) by {
            if j > 0 {
                assert(before.work[n + rest.len() - 1 - (j - 1)] == (Work::BudgetEvent {
                    cpu,
                    at,
                    kind: rest[j - 1],
                }));
            }
        }
    }
}

/// A change of a budget is recorded as the timer reported it. A replenishment after which
/// the group may run lets go of the tasks held back for it; nothing else does.
pub proof fn law_a_replenished_group_lets_its_tasks_go(
    s: SimView,
    r: ReplyView,
    cpu: CpuId,
    at: TimeNs,
    kind: TraceKind,
)
    ensures
        ({
            let (after, request) = s.perform(Work::BudgetEvent { cpu, at, kind }, r);
            let free = kind is CgroupBwReplenish && !kind->CgroupBwReplenish_keep_throttled;
            &&& request is Continue
            &&& recorded(s, after, at, cpu, kind)
            &&& free ==> after.work == s.work.push(
                Work::DrainBlocked { cpu, at, cgid: kind->CgroupBwReplenish_cgid },
            )
            &&& !free ==> after.work == s.work
            &&& after.tasks == s.tasks && after.events == s.events && after.blocked == s.blocked
        }),
{
}

/// A task that is let go is the one of its group that was held back longest. It is woken
/// at the time of the replenishment, which is recorded, and the others follow; where
/// none is held back nothing happens.
pub proof fn law_a_task_let_go_is_woken(
    s: SimView,
    r: ReplyView,
    cpu: CpuId,
    at: TimeNs,
    cgid: crate::types::CgroupId,
    b: int,
    i: int,
)
    requires
        0 <= b < s.blocked.len(),
        s.blocked[b].0 == cgid,
        forall|j: int| 0 <= j < b ==> (#[trigger] s.blocked[j]).0 != cgid,
        stands_at(s, s.blocked[b].1, i),
    ensures
        ({
            let (after, request) = s.perform(Work::DrainBlocked { cpu, at, cgid }, r);
            let pid = s.blocked[b].1;
            &&& request is Continue
            &&& after.blocked == s.blocked.remove(b)
            &&& after.tasks[i] == (SimTask { state: TaskState::Sleeping, ..s.tasks[i] })
            &&& others_stay(s, after, i)
            &&& after.events == s.events.push(at, EventKind::TaskWake { pid, waker: None, cpu })
            &&& recorded(
                s,
                after,
                at,
                cpu,
                TraceKind::CgroupBwReenqueueOnReplenish { pid, cgid },
            )
            &&& after.work == s.work.push(Work::DrainBlocked { cpu, at, cgid })
        }),
{
    lemma_first_of_group(s.blocked, cgid, b);
}

proof fn lemma_first_of_group(
    blocked: Seq<(crate::types::CgroupId, Pid)>,
    cgid: crate::types::CgroupId,
    b: int,
)
    requires
        0 <= b < blocked.len(),
        blocked[b].0 == cgid,
        forall|j: int| 0 <= j < b ==> (#[trigger] blocked[j]).0 != cgid,
    ensures
        crate::sim_state::first_blocked(blocked, cgid) == Some(b),
    decreases blocked.len(),
{
    let rest = blocked.drop_last();
    if b < rest.len() {
        assert forall|j: int| 0 <= j < b implies (#[trigger] rest[j]).0 != cgid by {
            assert(rest[j] == blocked[j]);
        }
        lemma_first_of_group(rest, cgid, b);
    } else {
        lemma_none_of_group(rest, cgid);
    }
}

proof fn lemma_none_of_group(
    blocked: Seq<(crate::types::CgroupId, Pid)>,
    cgid: crate::types::CgroupId,
)
    requires
        forall|j: int| 0 <= j < blocked.len() ==> (#[trigger] blocked[j]).0 != cgid,
    ensures
        crate::sim_state::first_blocked(blocked, cgid) is None,
    decreases blocked.len(),
{
    if blocked.len() > 0 {
        let rest = blocked.drop_last();
        assert forall|j: int| 0 <= j < rest.len() implies (#[trigger] rest[j]).0 != cgid by {
            assert(rest[j] == blocked[j]);
        }
        lemma_none_of_group(rest, cgid);
        assert(blocked[blocked.len() - 1].0 != cgid);
    }
}

/// Without tasks held back for a group nothing is let go.
pub proof fn law_nothing_is_let_go_of_another_group(
    s: SimView,
    r: ReplyView,
    cpu: CpuId,
    at: TimeNs,
    cgid: crate::types::CgroupId,
)
    requires
        forall|j: int| 0 <= j < s.blocked.len() ==> (#[trigger] s.blocked[j]).0 != cgid,
    ensures
        s.perform(Work::DrainBlocked { cpu, at, cgid }, r) == (s, Request::Continue),
{
    lemma_none_of_group(s.blocked, cgid);
}

/// Where no task is stalled an online CPU goes on ticking and an offline one does not.
/// A task that has waited longer than the watchdog allows ends the simulation at the
/// next tick.
pub proof fn law_a_tick_watches_and_goes_on(s: SimView, r: ReplyView, cpu: CpuId)
    requires
        cpu.0 < s.cpus.len(),
    ensures
        ({
            let (after, request) = s.perform(Work::Handle { kind: EventKind::Tick { cpu } }, r);
            let a = in_time(s, cpu);
            let timeout = s.scenario.watchdog_timeout_ns;
            let stalled = timeout is Some && exists|j: int|
                0 <= j < s.tasks.len() && #[trigger] waits_too_long(s, j, timeout->0);
            &&& stalled ==> {
                &&& request is Continue
                &&& after.work == seq![Work::Finish]
                &&& after.exit is ErrorStall
                &&& exists|j: int|
                    0 <= j < s.tasks.len() && #[trigger] waits_too_long(s, j, timeout->0)
                        && after.exit->ErrorStall_pid == s.tasks[j].pid
                        && after.exit->runnable_for_ns == s.clock - s.tasks[j].runnable_at_ns->0
            }
            &&& !stalled && s.cpu(cpu).is_online ==> request is TickJitter && after == (SimView {
                work: s.work.push(Work::TickTimed { cpu }),
                ..a
            })
            &&& !stalled && !s.cpu(cpu).is_online ==> request is Continue && after == a
        }),
{
    lemma_in_time(s, cpu);
    let timeout = s.scenario.watchdog_timeout_ns;
    if timeout is Some {
        crate::engine::law_watchdog_reports_the_lowest_stalled_task(
            s.tasks,
            s.clock,
            timeout->0,
        );
        assert forall|j: int| 0 <= j < s.tasks.len() implies #[trigger] waits_too_long(
            s,
            j,
            timeout->0,
        ) == (crate::engine::stall_of(s.tasks[j], s.clock, timeout->0) is Some) by {}
        match crate::engine::spec_stalled(s.tasks, s.clock, timeout->0) {
            Some((pid, d)) => {
                let j = choose|j: int|
                    0 <= j < s.tasks.len() && (#[trigger] s.tasks[j]).pid == pid
                        && crate::engine::stall_of(s.tasks[j], s.clock, timeout->0) == Some(d);
                assert(waits_too_long(s, j, timeout->0));
            },
            None => {
                assert forall|j: int| 0 <= j < s.tasks.len() implies !#[trigger] waits_too_long(
                    s,
                    j,
                    timeout->0,
                ) by {
                    assert(crate::engine::stall_of(s.tasks[j], s.clock, timeout->0) is None);
                }
            },
        }
    }
}

/// Whether a task has waited to run for longer than it may.
pub open spec fn waits_too_long(s: SimView, j: int, timeout: TimeNs) -> bool {
    &&& s.tasks[j].state is Runnable
    &&& s.tasks[j].runnable_at_ns is Some
    &&& s.clock - s.tasks[j].runnable_at_ns->0 > timeout
}

/// The next tick comes four milliseconds later, give or take what was drawn, and after at
/// least a nanosecond. A running task is recorded as ticked, its queues are sampled and
/// its slice is looked at.
pub proof fn law_ticks_come_at_their_interval(s: SimView, r: ReplyView, cpu: CpuId)
    requires
        cpu.0 < s.cpus.len(),
        s.cpu(cpu).local_clock + 4_000_000 + r.value <= u64::MAX,
        s.cpu(cpu).local_clock < u64::MAX,
    ensures
        ({
            let (after, request) = s.perform(Work::TickTimed { cpu }, r);
            let now = s.cpu(cpu).local_clock;
            let n = s.work.len() as int;
            let next = if 4_000_000 + r.value >= 1 {
                now + 4_000_000 + r.value
            } else {
                now + 1
            };
            let runs = s.cpu(cpu).current_task is Some && s.find(
                s.cpu(cpu).current_task->0,
            ) is Some;
            let pid = s.cpu(cpu).current_task->0;
            &&& request is Continue
            &&& after.events == s.events.push(next as u64, EventKind::Tick { cpu })
            &&& !runs ==> after.work == s.work && after.trace == s.trace
            &&& runs ==> {
                &&& recorded(s, after, now, cpu, TraceKind::Tick { pid })
                &&& after.work.len() == n + 3
                &&& after.work[n] == (Work::TickSlice { cpu, pid })
                &&& after.work[n + 1] == (Work::Ask { request: Request::Slice { pid } })
                &&& after.work[n + 2] == (Work::Ask {
                    request: Request::SampleQueues { time_ns: now },
                })
            }
            &&& after.tasks == s.tasks && after.cpus == s.cpus
        }),
{
}

/// The scheduler hears a tick with the runtime that the task has by now.
pub proof fn law_a_tick_tells_the_runtime(s: SimView, r: ReplyView, cpu: CpuId, pid: Pid, i: int)
    requires
        cpu.0 < s.cpus.len(),
        stands_at(s, pid, i),
        s.cpu(cpu).task_started_at is Some,
        s.cpu(cpu).task_started_at->0 <= s.cpu(cpu).local_clock,
        s.tasks[i].sum_exec_base + s.cpu(cpu).local_clock <= u64::MAX,
    ensures
        ({
            let (after, request) = s.perform(Work::TickSlice { cpu, pid }, r);
            &&& request == (Request::Tick {
                cpu,
                pid,
                sum_exec: (s.tasks[i].sum_exec_base + s.cpu(cpu).local_clock - s.cpu(
                    cpu,
                ).task_started_at->0) as u64,
            })
            &&& after == (SimView {
                current_cpu: cpu,
                work: s.work.push(Work::Ticked { cpu, pid, slice_before: r.slice }),
                ..s
            })
        }),
{
}

/// After a tick the running task is preempted exactly if the scheduler took its slice
/// away or sent its CPU a kick that preempts. Kicks to the CPU itself are used up; those
/// to others go out.
pub proof fn law_a_tick_preempts_when_told_to(
    s: SimView,
    r: ReplyView,
    cpu: CpuId,
    pid: Pid,
    slice_before: TimeNs,
)
    requires
        cpu.0 < s.cpus.len(),
    ensures
        ({
            let (after, request) = s.perform(Work::Ticked { cpu, pid, slice_before }, r);
            let n = s.work.len() as int;
            let all = s.staged + r.kicks;
            let kicked = exists|k: int|
                0 <= k < all.len() && (#[trigger] all[k]).cpu == cpu
                    && all[k].flags.spec_preempt();
            let preempted = s.cpu(cpu).current_task is Some && (kicked || (slice_before > 0
                && r.slice == 0));
            &&& request is Continue
            &&& preempted ==> after.work.len() == n + 2 && after.work[n] == (Work::Preempt { cpu })
                && after.work[n + 1] is FlushStaged
            &&& !preempted ==> after.work.len() == n + 1 && after.work[n] is FlushStaged
            &&& forall|k: int| 0 <= k < after.staged.len() ==> (#[trigger] after.staged[k]).cpu
                != cpu && all.contains(after.staged[k])
            &&& forall|k: int|
                0 <= k < all.len() && (#[trigger] all[k]).cpu != cpu ==> after.staged.contains(
                    all[k],
                )
            &&& after.trace == s.trace + r.records
            &&& after.tasks == s.tasks && after.events == s.events
        }),
{
    lemma_charge(s.absorb(r), cpu, r.cost);
    lemma_kicks_elsewhere(s.staged + r.kicks, cpu);
}

proof fn lemma_kicks_elsewhere(staged: Seq<crate::state::Kick>, c: CpuId)
    ensures
        ({
            let left = crate::sim_state::kicks_elsewhere(staged, c);
            &&& forall|k: int| 0 <= k < left.len() ==> (#[trigger] left[k]).cpu != c
                && staged.contains(left[k])
            &&& forall|k: int|
                0 <= k < staged.len() && (#[trigger] staged[k]).cpu != c ==> left.contains(
                    staged[k],
                )
        }),
    decreases staged.len(),
{
    if staged.len() > 0 {
        let rest = staged.drop_last();
        lemma_kicks_elsewhere(rest, c);
        let before = crate::sim_state::kicks_elsewhere(rest, c);
        let left = crate::sim_state::kicks_elsewhere(staged, c);
        assert forall|k: int| 0 <= k < left.len() implies (#[trigger] left[k]).cpu != c
            && staged.contains(left[k]) by {
            if k < before.len() {
                assert(before[k] == left[k]);
                let j = choose|j: int| 0 <= j < rest.len() && rest[j] == before[k];
                assert(staged[j] == left[k]);
            } else {
                assert(staged[staged.len() - 1] == left[k]);
            }
        }
        assert forall|k: int| 0 <= k < staged.len() && (#[trigger] staged[k]).cpu
            != c implies left.contains(staged[k]) by {
            if k < rest.len() {
                assert(rest[k] == staged[k]);
                let j = choose|j: int| 0 <= j < before.len() && before[j] == rest[k];
                assert(left[j] == staged[k]);
            } else {
                assert(left[left.len() - 1] == staged[k]);
            }
        }
    }
}

/// A kick goes out to its own CPU, with its own flags, at its own time.
pub proof fn law_a_kick_goes_to_its_cpu(s: SimView, r: ReplyView)
    ensures
        s.staged.len() == 0 ==> s.perform(Work::FlushStaged, r) == (s, Request::Continue),
        s.staged.len() > 0 ==> exists|f: int|
            {
                let (after, request) = s.perform(Work::FlushStaged, r);
                &&& 0 <= f < s.staged.len()
                &&& request is Continue
                &&& after.events == s.events.push(
                    (#[trigger] s.staged[f]).time_ns,
                    EventKind::KickDelivered { cpu: s.staged[f].cpu, flags: s.staged[f].flags },
                )
                &&& after.staged == s.staged.remove(f)
                &&& after.work == s.work.push(Work::FlushStaged)
                &&& after.tasks == s.tasks && after.cpus == s.cpus && after.trace == s.trace
            },
{
    if s.staged.len() > 0 {
        crate::sim_state::lemma_first_kick(s.staged);
        let f = crate::sim_state::first_kick(s.staged);
        let k = s.staged[f];
        assert(s.perform(Work::FlushStaged, r).0.events == s.events.push(
            k.time_ns,
            EventKind::KickDelivered { cpu: k.cpu, flags: k.flags },
        ));
    }
}

/// Every armed timer is scheduled for its time, on its CPU and in its slot, once, and no
/// timer is left armed.
pub proof fn law_armed_timers_are_scheduled(s: SimView, n: nat, slot: int)
    requires
        n <= s.timers.len(),
        n <= 256,
        0 <= slot < n,
        crate::event_queue::sorted(s.events.pending),
    ensures
        ({
            let after = crate::sim_state::timers_sent(s, n);
            &&& after.timers.len() == s.timers.len()
            &&& after.timers[slot] is None
            &&& s.timers[slot] is Some ==> exists|k: int|
                0 <= k < after.events.pending.len() && (#[trigger] after.events.pending[k]).time_ns
                    == (s.timers[slot]->0).0 && after.events.pending[k].kind == (
                EventKind::TimerFired { cpu: (s.timers[slot]->0).1, slot: slot as u8 })
            &&& crate::event_queue::sorted(after.events.pending)
            &&& after.tasks == s.tasks && after.cpus == s.cpus && after.trace == s.trace
        }),
    decreases n,
{
    let m = (n - 1) as nat;
    let before = crate::sim_state::timers_sent(s, m);
    let after = crate::sim_state::timers_sent(s, n);
    lemma_timers_kept(s, m);
    if slot < m {
        law_armed_timers_are_scheduled(s, m, slot);
    }
    if s.timers[n - 1] is Some {
        let (at, cpu) = s.timers[n - 1]->0;
        let kind = EventKind::TimerFired { cpu, slot: (n - 1) as u8 };
        let e = before.events.new_event(at, kind);
        crate::event_queue::lemma_inserted(before.events.pending, e);
        if slot < m {
            if s.timers[slot] is Some {
                let k = choose|k: int|
                    0 <= k < before.events.pending.len() && (
                    #[trigger] before.events.pending[k]).time_ns == (s.timers[slot]->0).0
                        && before.events.pending[k].kind == (EventKind::TimerFired {
                        cpu: (s.timers[slot]->0).1,
                        slot: slot as u8,
                    });
                assert(after.events.pending.contains(before.events.pending[k]));
                let x = before.events.pending[k];
                let j = choose|j: int|
                    0 <= j < after.events.pending.len() && after.events.pending[j] == x;
                assert(after.events.pending[j].kind == x.kind);
            }
        } else {
            let j = choose|j: int|
                0 <= j < after.events.pending.len() && after.events.pending[j] == e;
            assert(after.events.pending[j].kind == kind);
        }
    }
}

proof fn lemma_timers_kept(s: SimView, n: nat)
    requires
        n <= s.timers.len(),
        crate::event_queue::sorted(s.events.pending),
    ensures
        ({
            let after = crate::sim_state::timers_sent(s, n);
            &&& after.timers.len() == s.timers.len()
            &&& forall|j: int| n <= j < s.timers.len() ==> #[trigger] after.timers[j]
                == s.timers[j]
            &&& crate::event_queue::sorted(after.events.pending)
            &&& after.tasks == s.tasks && after.cpus == s.cpus && after.trace == s.trace
        }),
    decreases n,
{
    if n > 0 {
        let m = (n - 1) as nat;
        lemma_timers_kept(s, m);
        let before = crate::sim_state::timers_sent(s, m);
        if s.timers[n - 1] is Some {
            let (at, cpu) = s.timers[n - 1]->0;
            let kind = EventKind::TimerFired { cpu, slot: (n - 1) as u8 };
            crate::event_queue::lemma_inserted(
                before.events.pending,
                before.events.new_event(at, kind),
            );
        }
    }
}

/// When timers are armed every slot becomes free, and what was armed in it fires at its
/// time.
pub proof fn law_every_armed_timer_fires(s: SimView, r: ReplyView, slot: int)
    requires
        s.timers.len() == 8,
        0 <= slot < 8,
        crate::event_queue::sorted(s.events.pending),
    ensures
        ({
            let (after, request) = s.perform(Work::ArmTimers, r);
            &&& request is Continue
            &&& after.timers.len() == 8 && after.timers[slot] is None
            &&& s.timers[slot] is Some ==> exists|k: int|
                0 <= k < after.events.pending.len() && (#[trigger] after.events.pending[k]).time_ns
                    == (s.timers[slot]->0).0 && after.events.pending[k].kind == (
                EventKind::TimerFired { cpu: (s.timers[slot]->0).1, slot: slot as u8 })
            &&& after.tasks == s.tasks && after.cpus == s.cpus && after.trace == s.trace
        }),
{
    law_armed_timers_are_scheduled(s, 8, slot);
}

/// Time stolen by interrupts is given back to a task whose slice or phase would end: the
/// end comes again that much later, nothing is stolen any more, and the task runs on.
pub proof fn law_stolen_time_is_given_back(s: SimView, r: ReplyView, cpu: CpuId)
    requires
        cpu.0 < s.cpus.len(),
        s.cpu(cpu).irq_stolen_ns > 0,
        in_time(s, cpu).cpu(cpu).local_clock + s.cpu(cpu).irq_stolen_ns <= u64::MAX,
    ensures
        ({
            let a = in_time(s, cpu);
            let due = (a.cpu(cpu).local_clock + s.cpu(cpu).irq_stolen_ns) as u64;
            let (expired, q) = s.perform(
                Work::Handle { kind: EventKind::SliceExpired { cpu } },
                r,
            );
            let (complete, p) = s.perform(
                Work::Handle { kind: EventKind::TaskPhaseComplete { cpu } },
                r,
            );
            &&& q is Continue && p is Continue
            &&& expired.events == s.events.push(due, EventKind::SliceExpired { cpu })
            &&& complete.events == s.events.push(due, EventKind::TaskPhaseComplete { cpu })
            &&& expired.cpu(cpu) == (SimCpu { irq_stolen_ns: 0, ..a.cpu(cpu) })
            &&& complete.cpu(cpu) == expired.cpu(cpu)
            &&& other_cpus_stay(s, expired, cpu) && other_cpus_stay(s, complete, cpu)
            &&& expired.tasks == s.tasks && complete.tasks == s.tasks
            &&& expired.work == s.work && complete.work == s.work
            &&& expired.trace == s.trace && complete.trace == s.trace
        }),
{
    lemma_in_time(s, cpu);
}

/// Kicks go out in order of their times, those of the same time in order of their CPUs.
pub proof fn law_the_earliest_kick_goes_first(s: SimView, r: ReplyView, k: int)
    requires
        0 <= k < s.staged.len(),
    ensures
        exists|f: int|
            {
                &&& 0 <= f < s.staged.len()
                &&& (#[trigger] s.staged[f]).time_ns < s.staged[k].time_ns || (s.staged[f].time_ns
                    == s.staged[k].time_ns && s.staged[f].cpu.0 <= s.staged[k].cpu.0)
                &&& s.perform(Work::FlushStaged, r).0.staged == s.staged.remove(f)
                &&& s.perform(Work::FlushStaged, r).0.events == s.events.push(
                    s.staged[f].time_ns,
                    EventKind::KickDelivered { cpu: s.staged[f].cpu, flags: s.staged[f].flags },
                )
            },
{
    crate::sim_state::lemma_first_kick(s.staged);
    let f = crate::sim_state::first_kick(s.staged);
    assert(!crate::sim_state::kicks_before(s.staged[k], s.staged[f]));
}

/// A task is found by its number exactly if there is one, and what is found has that
/// number.
pub proof fn law_tasks_are_found_by_their_numbers(s: SimView, pid: Pid, i: int)
    ensures
        s.find(pid) is Some ==> 0 <= s.find(pid)->0 < s.tasks.len() && s.tasks[s.find(pid)->0].pid
            == pid,
        0 <= i < s.tasks.len() && s.tasks[i].pid == pid ==> s.find(pid) is Some,
        0 <= i < s.tasks.len() && s.tasks[i].pid == pid && (forall|j: int|
            0 <= j < s.tasks.len() && j != i ==> (#[trigger] s.tasks[j]).pid != pid) ==> s.find(
            pid,
        ) == Some(i),
    decreases s.tasks.len(),
{
    lemma_task_at(s.tasks, pid);
    if 0 <= i < s.tasks.len() && s.tasks[i].pid == pid {
        lemma_is_found(s.tasks, pid, i);
    }
}

proof fn lemma_is_found(tasks: Seq<SimTask>, pid: Pid, i: int)
    requires
        0 <= i < tasks.len(),
        tasks[i].pid == pid,
    ensures
        crate::sim_state::task_at(tasks, pid) is Some,
    decreases tasks.len(),
{
    if i < tasks.len() - 1 {
        lemma_is_found(tasks.drop_last(), pid, i);
    }
}

/// A sum that does not fit is the greatest number, and a difference below zero is zero.
pub proof fn law_clocks_do_not_wrap(n: int, a: u64, b: u64)
    ensures
        0 <= n <= u64::MAX ==> crate::sim_state::sat(n) == n,
        n > u64::MAX ==> crate::sim_state::sat(n) == u64::MAX,
        n < 0 ==> crate::sim_state::sat(n) == 0,
        crate::sim_state::larger(a, b) >= a && crate::sim_state::larger(a, b) >= b,
        crate::sim_state::larger(a, b) == a || crate::sim_state::larger(a, b) == b,
        0 <= n <= u32::MAX ==> crate::sim_state::sat32(n) == n,
        n > u32::MAX ==> crate::sim_state::sat32(n) == u32::MAX,
{
}

/// A task may run for its slice or for what its group has left, whichever is less; without
/// a slice for what its group has left, without a limit for its slice; and always for
/// something where either says so.
pub proof fn law_grants_are_the_lesser_limit(slice: TimeNs, budget: u64)
    ensures
        crate::run_task::spec_granted(slice, None) == slice,
        slice > 0 && budget >= slice ==> crate::run_task::spec_granted(slice, Some(budget))
            == slice,
        0 < budget < slice ==> crate::run_task::spec_granted(slice, Some(budget)) == budget,
        slice == 0 && budget > 0 ==> crate::run_task::spec_granted(slice, Some(budget)) == budget,
        budget == 0 ==> crate::run_task::spec_granted(slice, Some(budget)) == 1,
{
}

} // verus!
