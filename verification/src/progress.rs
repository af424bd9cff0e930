//! What every step of a simulation keeps: time does not go back, and what has
//! been recorded stays.

use vstd::prelude::*;

use crate::cgroup::preorder;
use crate::cpu_events::cpu_running;
use crate::engine::{step_to, takes_event};
use crate::event_queue::{EventKind, WakerInfo};
use crate::run_task::Step;
use crate::scenario::FutexOp;
use crate::sim_state::{first_blocked, kind_ok, task_at, timers_sent, work_ok, SimView};
use crate::state::{
    Agenda, Cost, ReplyView, Request, SimCpu, SimTask, Work, MAX_BPF_TIMERS,
};
use crate::trace::TraceKind;
use crate::types::{CgroupId, CpuId, KickFlags, Pid, TimeNs, ROOT_CGID};

verus! {

/// Whether one state can come after another: the scenario, the counter, the head of
/// the trace, the rule for simultaneous events, the seed and the numbers drawn are
/// the same, the record has at most grown, no CPU's clock has gone back, and the tasks
/// are the same ones.
pub open spec fn forward(a: SimView, b: SimView) -> bool {
    &&& b.scenario == a.scenario
    &&& b.counter == a.counter
    &&& b.head == a.head
    &&& b.events.fixed_priority == a.events.fixed_priority
    &&& b.events.seed == a.events.seed
    &&& b.events.given == a.events.given
    &&& a.trace.len() <= b.trace.len()
    &&& forall|i: int| 0 <= i < a.trace.len() ==> #[trigger] b.trace[i] == a.trace[i]
    &&& same_machine(a, b)
}

/// Whether two states have the same CPUs and tasks, and no clock has gone
/// back.
pub open spec fn same_machine(a: SimView, b: SimView) -> bool {
    &&& b.cpus.len() == a.cpus.len()
    &&& b.tasks.len() == a.tasks.len()
    &&& forall|c: int|
        0 <= c < a.cpus.len() ==> a.cpus[c].local_clock <= (#[trigger] b.cpus[c]).local_clock
    &&& forall|i: int|
        0 <= i < a.tasks.len() ==> (#[trigger] b.tasks[i]).pid == a.tasks[i].pid
            && b.tasks[i].def == a.tasks[i].def && b.tasks[i].cgid == a.tasks[i].cgid
}

/// Whether a request is made of the scheduler only at the start or at the end.
pub open spec fn lifecycle(request: Request) -> bool {
    ||| request is Init
    ||| request is InitTask
    ||| request is Dump
    ||| request is DumpTask
    ||| request is ExitTask
    ||| request is Exit
}

/// Whether a piece of work is one of those that events give rise to.
pub open spec fn ordinary(w: Work) -> bool {
    match w {
        Work::Call { request, .. } => !lifecycle(request),
        Work::Ask { request } => !lifecycle(request),
        Work::Started => false,
        Work::GroupInit { .. } => false,
        Work::TaskInit { .. } => false,
        Work::IdleAtStart { .. } => false,
        Work::NextEvent => false,
        Work::Finish => false,
        _ => true,
    }
}

/// Whether ordinary work at most was added.
pub open spec fn grows(a: Seq<Work>, b: Seq<Work>) -> bool {
    &&& a.len() <= b.len()
    &&& forall|i: int| 0 <= i < a.len() ==> #[trigger] b[i] == a[i]
    &&& forall|i: int| a.len() <= i < b.len() ==> ordinary(#[trigger] b[i])
}

/// Whether a step adds ordinary work at most, or drops everything to wind the
/// simulation up, and asks nothing that belongs to the start or the end.
pub open spec fn stacks(s: SimView, step: Step) -> bool {
    &&& step.0.work == seq![Work::Finish] || grows(s.work, step.0.work)
    &&& !lifecycle(step.1)
}

/// What comes after what comes after comes after.
pub proof fn lemma_forward_trans(a: SimView, b: SimView, c: SimView)
    requires
        forward(a, b),
        forward(b, c),
    ensures
        forward(a, c),
{
    assert forall|i: int| 0 <= i < a.cpus.len() implies a.cpus[i].local_clock <= (
    #[trigger] c.cpus[i]).local_clock by {
        assert(a.cpus[i].local_clock <= b.cpus[i].local_clock);
    }
    assert forall|i: int| 0 <= i < a.tasks.len() implies (#[trigger] c.tasks[i]).pid
        == a.tasks[i].pid && c.tasks[i].def == a.tasks[i].def && c.tasks[i].cgid
        == a.tasks[i].cgid by {
        assert(b.tasks[i].pid == a.tasks[i].pid);
    }
    assert forall|i: int| 0 <= i < a.trace.len() implies #[trigger] c.trace[i] == a.trace[i] by {
        assert(b.trace[i] == a.trace[i]);
    }
}

/// A task found is there.
pub proof fn lemma_task_at(tasks: Seq<SimTask>, pid: Pid)
    ensures
        match task_at(tasks, pid) {
            Some(i) => 0 <= i < tasks.len() && tasks[i].pid == pid,
            None => forall|i: int| 0 <= i < tasks.len() ==> (#[trigger] tasks[i]).pid != pid,
        },
    decreases tasks.len(),
{
    if tasks.len() > 0 {
        let rest = tasks.drop_last();
        lemma_task_at(rest, pid);
        if task_at(tasks, pid) is None {
            assert forall|i: int| 0 <= i < tasks.len() implies (#[trigger] tasks[i]).pid != pid by {
                if i < rest.len() {
                    assert(rest[i] == tasks[i]);
                }
            }
        }
    }
}

/// What a callback did comes after it was made.
proof fn lemma_absorb(s: SimView, r: ReplyView)
    ensures
        forward(s, s.absorb(r)),
        s.absorb(r).work == s.work,
        s.absorb(r).cpus == s.cpus,
        s.absorb(r).tasks == s.tasks,
{
}

/// Charging a CPU moves its clock forward.
proof fn lemma_charge(s: SimView, c: CpuId, cost: Cost)
    requires
        c.0 < s.cpus.len(),
    ensures
        forward(s, s.charge(c, cost)),
        s.charge(c, cost).work == s.work,
        s.charge(c, cost).tasks == s.tasks,
        s.charge(c, cost).trace == s.trace,
{
    match s.ns_per_branch() {
        Some(ns) => {
            assert(cost.branches * ns >= 0) by (nonlinear_arith);
        },
        None => {},
    }
}

proof fn lemma_start_running(s: SimView, cpu: CpuId, pid: Pid)
    requires
        cpu.0 < s.cpus.len(),
    ensures
        forward(s, s.start_running(cpu, pid).0),
        stacks(s, s.start_running(cpu, pid)),
{
    lemma_task_at(s.tasks, pid);
}

proof fn lemma_marked_busy(
    s: SimView,
    r: ReplyView,
    cpu: CpuId,
    pid: Pid,
    migrated: bool,
    cross_llc: bool,
)
    requires
        cpu.0 < s.cpus.len(),
    ensures
        forward(s, s.marked_busy(r, cpu, pid, migrated, cross_llc).0),
        stacks(s, s.marked_busy(r, cpu, pid, migrated, cross_llc)),
{
    lemma_task_at(s.tasks, pid);
}

proof fn lemma_run_floor(s: SimView, cpu: CpuId, pid: Pid, migrated: bool, cross_llc: bool)
    requires
        cpu.0 < s.cpus.len(),
    ensures
        forward(s, s.run_floor(cpu, pid, migrated, cross_llc).0),
        stacks(s, s.run_floor(cpu, pid, migrated, cross_llc)),
{
    lemma_task_at(s.tasks, pid);
}

proof fn lemma_run_floored(
    s: SimView,
    r: ReplyView,
    cpu: CpuId,
    pid: Pid,
    migrated: bool,
    cross_llc: bool,
    asked: bool,
)
    requires
        cpu.0 < s.cpus.len(),
    ensures
        forward(s, s.run_floored(r, cpu, pid, migrated, cross_llc, asked).0),
        stacks(s, s.run_floored(r, cpu, pid, migrated, cross_llc, asked)),
{
    lemma_task_at(s.tasks, pid);
}

proof fn lemma_run_set(s: SimView, cpu: CpuId, pid: Pid)
    requires
        cpu.0 < s.cpus.len(),
    ensures
        forward(s, s.run_set(cpu, pid).0),
        stacks(s, s.run_set(cpu, pid)),
{
    lemma_task_at(s.tasks, pid);
}

proof fn lemma_run_jittered(s: SimView, r: ReplyView, cpu: CpuId, pid: Pid)
    requires
        cpu.0 < s.cpus.len(),
    ensures
        forward(s, s.run_jittered(r, cpu, pid).0),
        stacks(s, s.run_jittered(r, cpu, pid)),
{
    lemma_task_at(s.tasks, pid);
}

proof fn lemma_run_limits(s: SimView, cpu: CpuId, pid: Pid)
    requires
        cpu.0 < s.cpus.len(),
    ensures
        forward(s, s.run_limits(cpu, pid).0),
        stacks(s, s.run_limits(cpu, pid)),
{
    lemma_task_at(s.tasks, pid);
}

proof fn lemma_run_start(s: SimView, r: ReplyView, cpu: CpuId, pid: Pid)
    requires
        cpu.0 < s.cpus.len(),
    ensures
        forward(s, s.run_start(r, cpu, pid).0),
        stacks(s, s.run_start(r, cpu, pid)),
{
    lemma_task_at(s.tasks, pid);
}

proof fn lemma_slice_expired(s: SimView, cpu: CpuId)
    requires
        cpu.0 < s.cpus.len(),
    ensures
        forward(s, s.slice_expired(cpu).0),
        stacks(s, s.slice_expired(cpu)),
{
}

proof fn lemma_slice_read(s: SimView, r: ReplyView, cpu: CpuId, pid: Pid)
    requires
        cpu.0 < s.cpus.len(),
    ensures
        forward(s, s.slice_read(r, cpu, pid).0),
        stacks(s, s.slice_read(r, cpu, pid)),
{
    lemma_task_at(s.tasks, pid);
}

proof fn lemma_preempt(s: SimView, cpu: CpuId)
    requires
        cpu.0 < s.cpus.len(),
    ensures
        forward(s, s.preempt(cpu).0),
        stacks(s, s.preempt(cpu)),
{
    if let Some(pid) = s.cpu(cpu).current_task {
        lemma_task_at(s.tasks, pid);
    }
}

proof fn lemma_stopped(
    s: SimView,
    r: ReplyView,
    cpu: CpuId,
    pid: Pid,
    consumed: TimeNs,
    left: TimeNs,
    expired: bool,
)
    requires
        cpu.0 < s.cpus.len(),
    ensures
        forward(s, s.stopped(r, cpu, pid, consumed, left, expired).0),
        stacks(s, s.stopped(r, cpu, pid, consumed, left, expired)),
{
    lemma_task_at(s.tasks, pid);
}

proof fn lemma_requeue(s: SimView, cpu: CpuId, pid: Pid, expired: bool)
    requires
        cpu.0 < s.cpus.len(),
    ensures
        forward(s, s.requeue(cpu, pid, expired).0),
        stacks(s, s.requeue(cpu, pid, expired)),
{
    lemma_task_at(s.tasks, pid);
}

proof fn lemma_requeued(s: SimView, cpu: CpuId, pid: Pid, expired: bool)
    requires
        cpu.0 < s.cpus.len(),
    ensures
        forward(s, s.requeued(cpu, pid, expired).0),
        stacks(s, s.requeued(cpu, pid, expired)),
{
}

proof fn lemma_phase_complete(s: SimView, cpu: CpuId)
    requires
        cpu.0 < s.cpus.len(),
    ensures
        forward(s, s.phase_complete(cpu).0),
        stacks(s, s.phase_complete(cpu)),
{
}

proof fn lemma_phase_slice(s: SimView, r: ReplyView, cpu: CpuId, pid: Pid)
    requires
        cpu.0 < s.cpus.len(),
    ensures
        forward(s, s.phase_slice(r, cpu, pid).0),
        stacks(s, s.phase_slice(r, cpu, pid)),
{
    lemma_task_at(s.tasks, pid);
}

proof fn lemma_phase_stopped(
    s: SimView,
    r: ReplyView,
    cpu: CpuId,
    pid: Pid,
    consumed: TimeNs,
    left: TimeNs,
    has_next: bool,
    still_runnable: bool,
)
    requires
        cpu.0 < s.cpus.len(),
    ensures
        forward(s, s.phase_stopped(r, cpu, pid, consumed, left, has_next, still_runnable).0),
        stacks(s, s.phase_stopped(r, cpu, pid, consumed, left, has_next, still_runnable)),
{
    lemma_task_at(s.tasks, pid);
}

proof fn lemma_phase_after(
    s: SimView,
    cpu: CpuId,
    pid: Pid,
    has_next: bool,
    still_runnable: bool,
)
    requires
        cpu.0 < s.cpus.len(),
    ensures
        forward(s, s.phase_after(cpu, pid, has_next, still_runnable).0),
        stacks(s, s.phase_after(cpu, pid, has_next, still_runnable)),
{
    lemma_task_at(s.tasks, pid);
}

proof fn lemma_phase_next(
    s: SimView,
    cpu: CpuId,
    pid: Pid,
    has_next: bool,
    still_runnable: bool,
)
    requires
        cpu.0 < s.cpus.len(),
    ensures
        forward(s, s.phase_next(cpu, pid, has_next, still_runnable).0),
        stacks(s, s.phase_next(cpu, pid, has_next, still_runnable)),
{
    lemma_task_at(s.tasks, pid);
}

proof fn lemma_phase_chain(s: SimView, cpu: CpuId, pid: Pid, at: TimeNs)
    requires
        cpu.0 < s.cpus.len(),
    ensures
        forward(s, s.phase_chain(cpu, pid, at).0),
        stacks(s, s.phase_chain(cpu, pid, at)),
{
    lemma_task_at(s.tasks, pid);
}

proof fn lemma_phase_yielded(s: SimView, cpu: CpuId, pid: Pid)
    requires
        cpu.0 < s.cpus.len(),
    ensures
        forward(s, s.phase_yielded(cpu, pid).0),
        stacks(s, s.phase_yielded(cpu, pid)),
{
}

proof fn lemma_cpu_running(cpus: Seq<SimCpu>, pid: Pid)
    ensures
        cpu_running(cpus, pid) is Some ==> 0 <= cpu_running(cpus, pid)->0 < cpus.len(),
    decreases cpus.len(),
{
    if cpus.len() > 0 {
        lemma_cpu_running(cpus.drop_last(), pid);
    }
}

proof fn lemma_wake(s: SimView, pid: Pid, waker: Option<WakerInfo>)
    ensures
        forward(s, s.wake(pid, waker).0),
        stacks(s, s.wake(pid, waker)),
{
    lemma_task_at(s.tasks, pid);
}

proof fn lemma_advance_to_run_phase(s: SimView, pid: Pid, waker: Option<WakerInfo>)
    ensures
        forward(s, s.advance_to_run_phase(pid, waker).0),
        stacks(s, s.advance_to_run_phase(pid, waker)),
{
    lemma_task_at(s.tasks, pid);
}

proof fn lemma_wake_ready(s: SimView, pid: Pid, waker: Option<WakerInfo>)
    ensures
        forward(s, s.wake_ready(pid, waker).0),
        stacks(s, s.wake_ready(pid, waker)),
{
    lemma_task_at(s.tasks, pid);
}

proof fn lemma_wake_select(
    s: SimView,
    pid: Pid,
    wake_cpu: CpuId,
    prev_cpu: CpuId,
    waker: Option<Pid>,
)
    ensures
        forward(s, s.wake_select(pid, wake_cpu, prev_cpu, waker).0),
        stacks(s, s.wake_select(pid, wake_cpu, prev_cpu, waker)),
{
    lemma_task_at(s.tasks, pid);
}

proof fn lemma_wake_selected(
    s: SimView,
    r: ReplyView,
    pid: Pid,
    wake_cpu: CpuId,
    prev_cpu: CpuId,
    waker: Option<Pid>,
)
    requires
        prev_cpu.0 < s.cpus.len(),
        s.cpus.len() <= u32::MAX,
    ensures
        forward(s, s.wake_selected(r, pid, wake_cpu, prev_cpu, waker).0),
        stacks(s, s.wake_selected(r, pid, wake_cpu, prev_cpu, waker)),
{
    let cpu = crate::wake::spec_selected(r.value, prev_cpu, s.cpus.len());
    lemma_task_at(s.tasks, pid);
    lemma_absorb(s, r);
    lemma_charge(s.absorb(r), cpu, r.cost);
    lemma_forward_trans(s, s.absorb(r), s.absorb(r).charge(cpu, r.cost));
    lemma_forward_trans(
        s,
        s.absorb(r).charge(cpu, r.cost),
        s.wake_selected(r, pid, wake_cpu, prev_cpu, waker).0,
    );
}

proof fn lemma_then_try_idle(s: SimView, from: nat)
    ensures
        forward(s, s.then_try_idle(from)),
        grows(s.work, s.then_try_idle(from).work),
    decreases s.cpus.len() - from,
{
    if from < s.cpus.len() {
        lemma_then_try_idle(s, from + 1);
    }
}

proof fn lemma_wake_enqueued(s: SimView, pid: Pid, cpu: CpuId)
    ensures
        forward(s, s.wake_enqueued(pid, cpu).0),
        stacks(s, s.wake_enqueued(pid, cpu)),
{
    let s1 = s.record(
        s.clock,
        cpu,
        TraceKind::EnqueueTask { pid, enq_flags: crate::wake::SCX_ENQ_WAKEUP },
    );
    lemma_then_try_idle(s1, 0);
    lemma_forward_trans(s, s1, s1.then_try_idle(0));
}

proof fn lemma_go_idle(s: SimView, cpu: CpuId, notify: bool)
    requires
        cpu.0 < s.cpus.len(),
    ensures
        forward(s, s.go_idle(cpu, notify).0),
        stacks(s, s.go_idle(cpu, notify)),
{
}

proof fn lemma_pick(s: SimView, cpu: CpuId, notify: bool)
    requires
        cpu.0 < s.cpus.len(),
    ensures
        forward(s, s.pick(cpu, notify).0),
        stacks(s, s.pick(cpu, notify)),
{
    lemma_go_idle(s, cpu, notify);
}

proof fn lemma_gate(s: SimView, cpu: CpuId, notify: bool)
    requires
        cpu.0 < s.cpus.len(),
    ensures
        forward(s, s.gate(cpu, notify).0),
        stacks(s, s.gate(cpu, notify)),
{
    lemma_pick(s, cpu, notify);
}

proof fn lemma_post_dispatch(s: SimView, cpu: CpuId, notify: bool)
    requires
        cpu.0 < s.cpus.len(),
    ensures
        forward(s, s.post_dispatch(cpu, notify).0),
        stacks(s, s.post_dispatch(cpu, notify)),
{
    lemma_gate(s, cpu, notify);
}

proof fn lemma_try_dispatch(s: SimView, cpu: CpuId)
    requires
        cpu.0 < s.cpus.len(),
    ensures
        forward(s, s.try_dispatch(cpu).0),
        stacks(s, s.try_dispatch(cpu)),
{
    let s1 = s.advance_cpu_clock(cpu);
    lemma_post_dispatch(s1, cpu, true);
    lemma_forward_trans(s, s1, s1.post_dispatch(cpu, true).0);
}

proof fn lemma_dispatched(s: SimView, r: ReplyView, cpu: CpuId, prev: Option<Pid>)
    requires
        cpu.0 < s.cpus.len(),
    ensures
        forward(s, s.dispatched(r, cpu, prev).0),
        stacks(s, s.dispatched(r, cpu, prev)),
{
    lemma_absorb(s, r);
    let s1 = s.absorb(r);
    lemma_charge(s1, cpu, r.cost);
    lemma_forward_trans(s, s1, s1.charge(cpu, r.cost));
    lemma_forward_trans(s, s1.charge(cpu, r.cost), s.dispatched(r, cpu, prev).0);
}

proof fn lemma_consumed(s: SimView, r: ReplyView, cpu: CpuId, notify: bool)
    requires
        cpu.0 < s.cpus.len(),
    ensures
        forward(s, s.consumed(r, cpu, notify).0),
        stacks(s, s.consumed(r, cpu, notify)),
{
    lemma_absorb(s, r);
    let s1 = s.absorb(r);
    let s2 = s1.record_now(
        cpu,
        TraceKind::DsqMoveToLocal {
            dsq_id: crate::types::DsqId(crate::types::DSQ_GLOBAL),
            success: true,
        },
    );
    lemma_gate(s1, cpu, notify);
    lemma_gate(s2, cpu, notify);
    lemma_forward_trans(s, s1, s1.gate(cpu, notify).0);
    lemma_forward_trans(s, s1, s2);
    lemma_forward_trans(s, s2, s2.gate(cpu, notify).0);
}

proof fn lemma_gated(
    s: SimView,
    r: ReplyView,
    cpu: CpuId,
    notify: bool,
    pid: Pid,
    cgid: CgroupId,
)
    requires
        cpu.0 < s.cpus.len(),
    ensures
        forward(s, s.gated(r, cpu, notify, pid, cgid).0),
        stacks(s, s.gated(r, cpu, notify, pid, cgid)),
{
    lemma_pick(s, cpu, notify);
}

proof fn lemma_flush_staged(s: SimView)
    ensures
        forward(s, s.flush_staged().0),
        stacks(s, s.flush_staged()),
{
}

proof fn lemma_tick(s: SimView, cpu: CpuId)
    ensures
        forward(s, s.tick(cpu).0),
        stacks(s, s.tick(cpu)),
{
}

proof fn lemma_tick_timed(s: SimView, r: ReplyView, cpu: CpuId)
    ensures
        forward(s, s.tick_timed(r, cpu).0),
        stacks(s, s.tick_timed(r, cpu)),
{
}

proof fn lemma_tick_slice(s: SimView, r: ReplyView, cpu: CpuId, pid: Pid)
    ensures
        forward(s, s.tick_slice(r, cpu, pid).0),
        stacks(s, s.tick_slice(r, cpu, pid)),
{
}

proof fn lemma_ticked(s: SimView, r: ReplyView, cpu: CpuId, pid: Pid, slice_before: TimeNs)
    requires
        cpu.0 < s.cpus.len(),
    ensures
        forward(s, s.ticked(r, cpu, pid, slice_before).0),
        stacks(s, s.ticked(r, cpu, pid, slice_before)),
{
    lemma_absorb(s, r);
    let s1 = s.absorb(r);
    lemma_charge(s1, cpu, r.cost);
    lemma_forward_trans(s, s1, s1.charge(cpu, r.cost));
    lemma_forward_trans(s, s1.charge(cpu, r.cost), s.ticked(r, cpu, pid, slice_before).0);
}

proof fn lemma_timer_fired(s: SimView, cpu: CpuId, slot: u8)
    requires
        cpu.0 < s.cpus.len(),
    ensures
        forward(s, s.timer_fired(cpu, slot).0),
        stacks(s, s.timer_fired(cpu, slot)),
{
}

proof fn lemma_then_budgets(s: SimView, cpu: CpuId, at: TimeNs, kinds: Seq<TraceKind>)
    ensures
        forward(s, s.then_budgets(cpu, at, kinds)),
        grows(s.work, s.then_budgets(cpu, at, kinds).work),
    decreases kinds.len(),
{
    if kinds.len() > 0 {
        lemma_then_budgets(s, cpu, at, kinds.skip(1));
    }
}

proof fn lemma_timer_done(s: SimView, r: ReplyView, cpu: CpuId)
    requires
        cpu.0 < s.cpus.len(),
    ensures
        forward(s, s.timer_done(r, cpu).0),
        stacks(s, s.timer_done(r, cpu)),
{
    lemma_absorb(s, r);
    let s1 = s.absorb(r).charge(cpu, r.cost);
    lemma_charge(s.absorb(r), cpu, r.cost);
    lemma_forward_trans(s, s.absorb(r), s1);
    let s2 = s1.then_do(Work::FlushStaged).then_do(Work::ArmTimers);
    lemma_then_budgets(s2, cpu, s1.cpu(cpu).local_clock, r.budget_events);
    lemma_forward_trans(s, s1, s2);
    lemma_forward_trans(s, s2, s.timer_done(r, cpu).0);
}

proof fn lemma_budget_event(s: SimView, cpu: CpuId, at: TimeNs, kind: TraceKind)
    ensures
        forward(s, s.budget_event(cpu, at, kind).0),
        stacks(s, s.budget_event(cpu, at, kind)),
{
}

proof fn lemma_drain_blocked(s: SimView, cpu: CpuId, at: TimeNs, cgid: CgroupId)
    ensures
        forward(s, s.drain_blocked(cpu, at, cgid).0),
        stacks(s, s.drain_blocked(cpu, at, cgid)),
{
    if let Some(b) = first_blocked(s.blocked, cgid) {
        lemma_task_at(s.tasks, s.blocked[b].1);
    }
}

proof fn lemma_cpu_offline(s: SimView, cpu: CpuId)
    ensures
        forward(s, s.cpu_offline(cpu).0),
        stacks(s, s.cpu_offline(cpu)),
{
}

proof fn lemma_then_enqueue_all(s: SimView, cpu: CpuId, pids: Seq<Pid>)
    ensures
        forward(s, s.then_enqueue_all(cpu, pids)),
        grows(s.work, s.then_enqueue_all(cpu, pids).work),
    decreases pids.len(),
{
    if pids.len() > 0 {
        lemma_then_enqueue_all(s, cpu, pids.skip(1));
    }
}

proof fn lemma_drain_local(s: SimView, cpu: CpuId)
    ensures
        forward(s, s.drain_local(cpu).0),
        stacks(s, s.drain_local(cpu)),
{
    let s1 = s.set_local(cpu, Seq::empty());
    lemma_then_enqueue_all(s1, cpu, s.local[cpu.0 as int]);
    lemma_forward_trans(s, s1, s.drain_local(cpu).0);
}

proof fn lemma_restart_tick(s: SimView, cpu: CpuId)
    ensures
        forward(s, s.restart_tick(cpu).0),
        stacks(s, s.restart_tick(cpu)),
{
}

proof fn lemma_cpu_online(s: SimView, cpu: CpuId)
    requires
        cpu.0 < s.cpus.len(),
    ensures
        forward(s, s.cpu_online(cpu).0),
        stacks(s, s.cpu_online(cpu)),
{
}

proof fn lemma_cpu_release(s: SimView, cpu: CpuId)
    ensures
        forward(s, s.cpu_release(cpu).0),
        stacks(s, s.cpu_release(cpu)),
{
}

proof fn lemma_cpu_acquire(s: SimView, cpu: CpuId)
    requires
        cpu.0 < s.cpus.len(),
    ensures
        forward(s, s.cpu_acquire(cpu).0),
        stacks(s, s.cpu_acquire(cpu)),
{
}

proof fn lemma_then_wake_all(s: SimView, pids: Seq<Pid>)
    ensures
        forward(s, s.then_wake_all(pids)),
        grows(s.work, s.then_wake_all(pids).work),
    decreases pids.len(),
{
    if pids.len() > 0 {
        lemma_then_wake_all(s, pids.skip(1));
    }
}

proof fn lemma_irq_start(s: SimView, event: int, cpu: CpuId)
    requires
        cpu.0 < s.cpus.len(),
    ensures
        forward(s, s.irq_start(event, cpu).0),
        stacks(s, s.irq_start(event, cpu)),
{
    let e = s.scenario.irq_events@[event];
    let s1 = s.irq_entered(event, cpu);
    lemma_then_wake_all(s1, e.wake_pids@);
    lemma_forward_trans(s, s1, s1.then_wake_all(e.wake_pids@));
}

proof fn lemma_irq_finish(s: SimView, cpu: CpuId, duration_ns: TimeNs)
    ensures
        forward(s, s.irq_finish(cpu, duration_ns).0),
        stacks(s, s.irq_finish(cpu, duration_ns)),
{
}

proof fn lemma_irq_end(s: SimView, cpu: CpuId)
    requires
        cpu.0 < s.cpus.len(),
    ensures
        forward(s, s.irq_end(cpu).0),
        stacks(s, s.irq_end(cpu)),
{
}

proof fn lemma_futex_op(s: SimView, event: int, pid: Pid)
    requires
        s.cpus.len() <= u32::MAX,
    ensures
        forward(s, s.futex_op(event, pid).0),
        stacks(s, s.futex_op(event, pid)),
{
    lemma_cpu_running(s.cpus, pid);
}

proof fn lemma_futex_done(s: SimView, r: ReplyView, cpu: CpuId, pid: Pid, op: FutexOp)
    requires
        cpu.0 < s.cpus.len(),
    ensures
        forward(s, s.futex_done(r, cpu, pid, op).0),
        stacks(s, s.futex_done(r, cpu, pid, op)),
{
    lemma_absorb(s, r);
    let s1 = s.absorb(r);
    lemma_charge(s1, cpu, r.cost);
    lemma_forward_trans(s, s1, s1.charge(cpu, r.cost));
    lemma_forward_trans(s, s1.charge(cpu, r.cost), s.futex_done(r, cpu, pid, op).0);
}

proof fn lemma_start_event(s: SimView, cpu: CpuId, pid: Pid)
    requires
        cpu.0 < s.cpus.len(),
    ensures
        forward(s, s.start_event(cpu, pid).0),
        stacks(s, s.start_event(cpu, pid)),
{
    lemma_start_running(s, cpu, pid);
}

proof fn lemma_kicked(s: SimView, cpu: CpuId, flags: KickFlags)
    requires
        cpu.0 < s.cpus.len(),
    ensures
        forward(s, s.kicked(cpu, flags).0),
        stacks(s, s.kicked(cpu, flags)),
{
    lemma_preempt(s, cpu);
    lemma_try_dispatch(s, cpu);
}

proof fn lemma_cgroup_migrate(s: SimView, event: int)
    ensures
        forward(s, s.cgroup_migrate(event).0),
        stacks(s, s.cgroup_migrate(event)),
{
}

proof fn lemma_migrate_dequeue(s: SimView, pid: Pid, cpu: CpuId)
    ensures
        forward(s, s.migrate_dequeue(pid, cpu).0),
        stacks(s, s.migrate_dequeue(pid, cpu)),
{
    lemma_task_at(s.tasks, pid);
}

proof fn lemma_cgroup_create(s: SimView, event: int)
    ensures
        forward(s, s.cgroup_create(event).0),
        stacks(s, s.cgroup_create(event)),
{
}

proof fn lemma_cgroup_created(
    s: SimView,
    r: ReplyView,
    event: int,
    cgid: CgroupId,
    cpu: CpuId,
    at: TimeNs,
    count: u32,
)
    requires
        cpu.0 < s.cpus.len(),
    ensures
        forward(s, s.cgroup_created(r, event, cgid, cpu, at, count).0),
        stacks(s, s.cgroup_created(r, event, cgid, cpu, at, count)),
{
    lemma_absorb(s, r);
    let s1 = s.absorb(r);
    let s2 = s1.record(
        at,
        cpu,
        TraceKind::CgroupInit { cgid, rc: crate::cgroup_events::rc_of(r.value) },
    );
    lemma_charge(s2, cpu, r.cost);
    lemma_forward_trans(s, s1, s2);
    lemma_forward_trans(s, s2, s2.charge(cpu, r.cost));
}

proof fn lemma_cgroup_destroy(s: SimView, event: int)
    ensures
        forward(s, s.cgroup_destroy(event).0),
        stacks(s, s.cgroup_destroy(event)),
{
}

proof fn lemma_cgroup_cpuset_change(s: SimView, event: int)
    ensures
        forward(s, s.cgroup_cpuset_change(event).0),
        stacks(s, s.cgroup_cpuset_change(event)),
{
}

proof fn lemma_cpuset_inited(s: SimView, r: ReplyView, cgid: CgroupId, cpu: CpuId, at: TimeNs)
    requires
        cpu.0 < s.cpus.len(),
    ensures
        forward(s, s.cpuset_inited(r, cgid, cpu, at).0),
        stacks(s, s.cpuset_inited(r, cgid, cpu, at)),
{
    lemma_absorb(s, r);
    let s1 = s.absorb(r);
    let s2 = s1.record(
        at,
        cpu,
        TraceKind::CgroupInit { cgid, rc: crate::cgroup_events::rc_of(r.value) },
    );
    lemma_charge(s2, cpu, r.cost);
    lemma_forward_trans(s, s1, s2);
    lemma_forward_trans(s, s2, s2.charge(cpu, r.cost));
}

pub proof fn lemma_timers_sent(s: SimView, n: nat)
    ensures
        forward(s, timers_sent(s, n)),
        timers_sent(s, n).work == s.work,
    decreases n,
{
    if n > 0 {
        lemma_timers_sent(s, (n - 1) as nat);
    }
}

proof fn lemma_started(s: SimView, r: ReplyView)
    requires
        s.cpus.len() > 0,
    ensures
        forward(s, s.started(r).0),
        stacks(s, s.started(r)),
{
    lemma_absorb(s, r);
    lemma_charge(s.absorb(r), CpuId(0), r.cost);
    lemma_forward_trans(s, s.absorb(r), s.absorb(r).charge(CpuId(0), r.cost));
}

proof fn lemma_noted(s: SimView, r: ReplyView, at: TimeNs, cpu: CpuId, kind: TraceKind, c: CpuId)
    requires
        c.0 < s.cpus.len(),
    ensures
        forward(s, s.absorb(r).record(at, cpu, kind).charge(c, r.cost)),
        forward(s, s.absorb(r).record(at, cpu, kind)),
        forward(s, s.absorb(r).charge(c, r.cost)),
{
    lemma_absorb(s, r);
    let s1 = s.absorb(r);
    let s2 = s1.record(at, cpu, kind);
    lemma_charge(s1, c, r.cost);
    lemma_charge(s2, c, r.cost);
    lemma_forward_trans(s, s1, s2);
    lemma_forward_trans(s, s2, s2.charge(c, r.cost));
    lemma_forward_trans(s, s1, s1.charge(c, r.cost));
}

proof fn lemma_returned(
    s: SimView,
    r: ReplyView,
    cpu: CpuId,
    at: TimeNs,
    charge: Option<CpuId>,
    note: Option<TraceKind>,
)
    requires
        charge is Some ==> (charge->0).0 < s.cpus.len(),
        s.cpus.len() > 0,
    ensures
        forward(s, s.returned(r, cpu, at, charge, note).0),
        stacks(s, s.returned(r, cpu, at, charge, note)),
{
    let c = match charge {
        Some(c) => c,
        None => CpuId(0),
    };
    let kind = match note {
        Some(k) => k,
        None => TraceKind::CpuIdle,
    };
    lemma_noted(s, r, at, cpu, kind, c);
    lemma_absorb(s, r);
}

proof fn lemma_group_inited(s: SimView, r: ReplyView, cgid: CgroupId, at: TimeNs)
    requires
        s.cpus.len() > 0,
    ensures
        forward(s, s.group_inited(r, cgid, at).0),
        stacks(s, s.group_inited(r, cgid, at)),
{
    let kind = TraceKind::CgroupInit { cgid, rc: crate::cgroup_events::rc_of(r.value) };
    lemma_noted(s, r, at, CpuId(0), kind, CpuId(0));
}

proof fn lemma_task_inited(s: SimView, r: ReplyView, pid: Pid, at: TimeNs)
    requires
        s.cpus.len() > 0,
    ensures
        forward(s, s.task_inited(r, pid, at).0),
        stacks(s, s.task_inited(r, pid, at)),
{
    let kind = TraceKind::InitTask { pid, rc: crate::cgroup_events::rc_of(r.value) };
    lemma_noted(s, r, at, CpuId(0), kind, CpuId(0));
}

proof fn lemma_seed(s: SimView, agenda: Agenda, index: usize)
    ensures
        forward(s, s.seed(agenda, index).0),
        stacks(s, s.seed(agenda, index)),
{
}

proof fn lemma_with_end_records(s: SimView, n: nat)
    ensures
        forward(s, s.with_end_records(n)),
    decreases n,
{
    if n > 0 {
        lemma_with_end_records(s, (n - 1) as nat);
    }
}

proof fn lemma_then_group_exits(s: SimView, cpu: CpuId, ids: Seq<u64>)
    ensures
        forward(s, s.then_group_exits(cpu, ids)),
    decreases ids.len(),
{
    if ids.len() > 0 {
        lemma_then_group_exits(s, cpu, ids.drop_last());
    }
}

proof fn lemma_then_task_exits(s: SimView, cpu: CpuId, from: nat)
    ensures
        forward(s, s.then_task_exits(cpu, from)),
    decreases s.tasks.len() - from,
{
    if from < s.tasks.len() {
        lemma_then_task_exits(s, cpu, from + 1);
    }
}

proof fn lemma_then_task_dumps(s: SimView, cpu: CpuId, from: nat)
    ensures
        forward(s, s.then_task_dumps(cpu, from)),
    decreases s.tasks.len() - from,
{
    if from < s.tasks.len() {
        lemma_then_task_dumps(s, cpu, from + 1);
    }
}

proof fn lemma_finish(s: SimView)
    ensures
        forward(s, s.finish().0),
{
    let cpu = s.current_cpu;
    let ids = preorder(s.registry.groups, ROOT_CGID);
    let s1 = s.with_end_records(s.cpus.len());
    lemma_with_end_records(s, s.cpus.len());
    let s2 = s1.then_final_call(cpu, Request::Exit, None);
    lemma_forward_trans(s, s1, s2);
    let s3 = s2.then_group_exits(cpu, ids);
    lemma_then_group_exits(s2, cpu, ids);
    lemma_forward_trans(s, s2, s3);
    let s4 = s3.then_task_exits(cpu, 0);
    lemma_then_task_exits(s3, cpu, 0);
    lemma_forward_trans(s, s3, s4);
    let s5 = s4.then_task_dumps(cpu, 0);
    lemma_then_task_dumps(s4, cpu, 0);
    lemma_forward_trans(s, s4, s5);
    lemma_forward_trans(s, s5, s5.then_final_call(cpu, Request::Dump, None));
}

proof fn lemma_watched_tick(s: SimView, cpu: CpuId)
    ensures
        forward(s, s.watched_tick(cpu).0),
        stacks(s, s.watched_tick(cpu)),
{
    lemma_tick(s, cpu);
}

/// Every event's effects come after it.
proof fn lemma_handle(s: SimView, kind: EventKind)
    requires
        s.ok(),
        kind_ok(kind, s.cpus.len(), s.scenario),
    ensures
        forward(s, s.handle(kind).0),
        stacks(s, s.handle(kind)),
{
    if let EventKind::FutexOp { event, pid } = kind {
        lemma_futex_op(s, event as int, pid);
    } else {
        let cpu = kind_cpu(kind);
        let s1 = s.advance_cpu_clock(cpu);
        assert(forward(s, s1));
        assert(s1.cpus.len() == s.cpus.len());
        match kind {
            EventKind::TaskWake { pid, waker, cpu } => lemma_wake(s1, pid, waker),
            EventKind::SliceExpired { cpu } => lemma_slice_expired(s1, cpu),
            EventKind::TaskPhaseComplete { cpu } => lemma_phase_complete(s1, cpu),
            EventKind::TimerFired { cpu, slot } => lemma_timer_fired(s1, cpu, slot),
            EventKind::Tick { cpu } => lemma_watched_tick(s1, cpu),
            EventKind::CpuOffline { cpu } => lemma_cpu_offline(s1, cpu),
            EventKind::CpuOnline { cpu } => lemma_cpu_online(s1, cpu),
            EventKind::CpuRelease { cpu } => lemma_cpu_release(s1, cpu),
            EventKind::CpuAcquire { cpu } => lemma_cpu_acquire(s1, cpu),
            EventKind::CgroupMigrate { event, cpu } => lemma_cgroup_migrate(s1, event as int),
            EventKind::CgroupCreate { event, cpu } => lemma_cgroup_create(s1, event as int),
            EventKind::CgroupDestroy { event, cpu } => lemma_cgroup_destroy(s1, event as int),
            EventKind::CgroupCpusetChange { event, cpu } => lemma_cgroup_cpuset_change(
                s1,
                event as int,
            ),
            EventKind::IrqStart { event, cpu } => lemma_irq_start(s1, event as int, cpu),
            EventKind::IrqEnd { cpu } => lemma_irq_end(s1, cpu),
            EventKind::FutexOp { event, pid } => {},
            EventKind::DsqConsume { cpu } => lemma_post_dispatch(s1, cpu, false),
            EventKind::StartRunning { cpu, pid } => lemma_start_event(s1, cpu, pid),
            EventKind::KickDelivered { cpu, flags } => lemma_kicked(s1, cpu, flags),
        }
        lemma_forward_trans(s, s1, s.handle(kind).0);
    }
}

/// The CPU of an event that has one.
spec fn kind_cpu(kind: EventKind) -> CpuId {
    match kind {
        EventKind::TaskWake { cpu, .. } => cpu,
        EventKind::SliceExpired { cpu } => cpu,
        EventKind::TaskPhaseComplete { cpu } => cpu,
        EventKind::TimerFired { cpu, .. } => cpu,
        EventKind::Tick { cpu } => cpu,
        EventKind::CpuOffline { cpu } => cpu,
        EventKind::CpuOnline { cpu } => cpu,
        EventKind::CpuRelease { cpu } => cpu,
        EventKind::CpuAcquire { cpu } => cpu,
        EventKind::CgroupMigrate { cpu, .. } => cpu,
        EventKind::CgroupCreate { cpu, .. } => cpu,
        EventKind::CgroupDestroy { cpu, .. } => cpu,
        EventKind::CgroupCpusetChange { cpu, .. } => cpu,
        EventKind::IrqStart { cpu, .. } => cpu,
        EventKind::IrqEnd { cpu } => cpu,
        EventKind::FutexOp { .. } => CpuId(0),
        EventKind::DsqConsume { cpu } => cpu,
        EventKind::StartRunning { cpu, .. } => cpu,
        EventKind::KickDelivered { cpu, .. } => cpu,
    }
}

/// The work whose effects come after it: all but telling the scheduler at the
/// start that the CPUs are idle, which shows it another time for a moment.
pub open spec fn keeps_time(w: Work) -> bool {
    !(w is IdleAtStart) && !(w is IdleAtStarted)
}

/// Every piece of work's effects come after it.
pub proof fn lemma_perform(s: SimView, w: Work, r: ReplyView)
    requires
        s.ok(),
        work_ok(w, s.cpus.len(), s.scenario),
        keeps_time(w),
    ensures
        forward(s, s.perform(w, r).0),
        ordinary(w) ==> stacks(s, s.perform(w, r)),
{
    match w {
        Work::Call { request, cpu, charge, note } => {},
        Work::Returned { cpu, at, charge, note } => lemma_returned(s, r, cpu, at, charge, note),
        Work::Ask { request } => {},
        Work::Note { at, cpu, kind } => {},
        Work::Probe { point, pid, cpu } => {},
        Work::FlushStaged => lemma_flush_staged(s),
        Work::ArmTimers => lemma_timers_sent(s, MAX_BPF_TIMERS as nat),
        Work::SetOnline { cpu, online } => {},
        Work::SetOps { pid, ops_state } => lemma_task_at(s.tasks, pid),
        Work::RestartTick { cpu } => lemma_restart_tick(s, cpu),
        Work::Started => lemma_started(s, r),
        Work::GroupInit { cgid } => {},
        Work::GroupInited { cgid, at } => lemma_group_inited(s, r, cgid, at),
        Work::TaskInit { pid, mask } => {},
        Work::TaskInited { pid, at } => lemma_task_inited(s, r, pid, at),
        Work::IdleAtStart { cpu } => {},
        Work::IdleAtStarted { cpu } => {},
        Work::Seed { agenda, index } => lemma_seed(s, agenda, index),
        Work::NextEvent => {},
        Work::CheckError => {},
        Work::Handle { kind } => lemma_handle(s, kind),
        Work::Finish => lemma_finish(s),
        Work::Wake { pid, waker } => lemma_wake(s, pid, waker),
        Work::AdvancePhase { pid, waker } => lemma_advance_to_run_phase(s, pid, waker),
        Work::WakeReady { pid, waker } => lemma_wake_ready(s, pid, waker),
        Work::WakeSelect { pid, wake_cpu, prev_cpu, waker } => {
            lemma_wake_select(s, pid, wake_cpu, prev_cpu, waker)
        },
        Work::WakeSelected { pid, wake_cpu, prev_cpu, waker } => {
            lemma_wake_selected(s, r, pid, wake_cpu, prev_cpu, waker)
        },
        Work::WakeEnqueued { pid, cpu } => lemma_wake_enqueued(s, pid, cpu),
        Work::TryDispatch { cpu } => lemma_try_dispatch(s, cpu),
        Work::Dispatched { cpu, prev } => lemma_dispatched(s, r, cpu, prev),
        Work::PostDispatch { cpu, notify } => lemma_post_dispatch(s, cpu, notify),
        Work::Consumed { cpu, notify } => lemma_consumed(s, r, cpu, notify),
        Work::Gated { cpu, notify, pid, cgid } => lemma_gated(s, r, cpu, notify, pid, cgid),
        Work::StartRunning { cpu, pid } => lemma_start_running(s, cpu, pid),
        Work::MarkedBusy { cpu, pid, migrated, cross_llc } => {
            lemma_marked_busy(s, r, cpu, pid, migrated, cross_llc)
        },
        Work::RunFloor { cpu, pid, migrated, cross_llc } => {
            lemma_run_floor(s, cpu, pid, migrated, cross_llc)
        },
        Work::RunFloored { cpu, pid, migrated, cross_llc, asked } => {
            lemma_run_floored(s, r, cpu, pid, migrated, cross_llc, asked)
        },
        Work::RunSet { cpu, pid } => lemma_run_set(s, cpu, pid),
        Work::RunJittered { cpu, pid } => lemma_run_jittered(s, r, cpu, pid),
        Work::RunLimits { cpu, pid } => lemma_run_limits(s, cpu, pid),
        Work::RunStart { cpu, pid } => lemma_run_start(s, r, cpu, pid),
        Work::SliceRead { cpu, pid } => lemma_slice_read(s, r, cpu, pid),
        Work::Preempt { cpu } => lemma_preempt(s, cpu),
        Work::Stopped { cpu, pid, consumed, left, expired } => {
            lemma_stopped(s, r, cpu, pid, consumed, left, expired)
        },
        Work::Requeue { cpu, pid, expired } => lemma_requeue(s, cpu, pid, expired),
        Work::Requeued { cpu, pid, expired } => lemma_requeued(s, cpu, pid, expired),
        Work::PhaseSlice { cpu, pid } => lemma_phase_slice(s, r, cpu, pid),
        Work::PhaseStopped { cpu, pid, consumed, left, has_next, still_runnable } => {
            lemma_phase_stopped(s, r, cpu, pid, consumed, left, has_next, still_runnable)
        },
        Work::PhaseAfter { cpu, pid, has_next, still_runnable } => {
            lemma_phase_after(s, cpu, pid, has_next, still_runnable)
        },
        Work::PhaseNext { cpu, pid, has_next, still_runnable } => {
            lemma_phase_next(s, cpu, pid, has_next, still_runnable)
        },
        Work::PhaseChain { cpu, pid, at } => lemma_phase_chain(s, cpu, pid, at),
        Work::PhaseYielded { cpu, pid } => lemma_phase_yielded(s, cpu, pid),
        Work::TickTimed { cpu } => lemma_tick_timed(s, r, cpu),
        Work::TickSlice { cpu, pid } => lemma_tick_slice(s, r, cpu, pid),
        Work::Ticked { cpu, pid, slice_before } => lemma_ticked(s, r, cpu, pid, slice_before),
        Work::TimerDone { cpu } => lemma_timer_done(s, r, cpu),
        Work::BudgetEvent { cpu, at, kind } => lemma_budget_event(s, cpu, at, kind),
        Work::DrainBlocked { cpu, at, cgid } => lemma_drain_blocked(s, cpu, at, cgid),
        Work::DrainLocal { cpu } => lemma_drain_local(s, cpu),
        Work::MigrateDequeue { pid, cpu } => lemma_migrate_dequeue(s, pid, cpu),
        Work::CgroupCreated { event, cgid, cpu, at, count } => {
            lemma_cgroup_created(s, r, event as int, cgid, cpu, at, count)
        },
        Work::CpusetInited { cgid, cpu, at } => lemma_cpuset_inited(s, r, cgid, cpu, at),
        Work::IrqFinish { cpu, duration_ns } => lemma_irq_finish(s, cpu, duration_ns),
        Work::FutexDone { cpu, pid, op } => lemma_futex_done(s, r, cpu, pid, op),
    }
}

/// Whatever the scheduler answers, no step takes back what was recorded, turns
/// a CPU's clock back, or changes the scenario or which tasks there are. (The
/// steps that announce the idle CPUs at the start are the exception: they show
/// the scheduler another time and put the clock back to 0.)
pub proof fn law_steps_go_forward(s: SimView, r: ReplyView, next: SimView, request: Request)
    requires
        s.ok(),
        step_to(s, r, next, request),
        s.work.len() > 0 ==> keeps_time(s.work.last()),
    ensures
        forward(s, next),
{
    reveal(step_to);
    if s.work.len() > 0 {
        let w = s.work.last();
        let popped = SimView { work: s.work.drop_last(), ..s };
        assert(work_ok(s.work[s.work.len() - 1], s.cpus.len(), s.scenario));
        assert forall|i: int| 0 <= i < popped.work.len() implies work_ok(
            #[trigger] popped.work[i],
            popped.cpus.len(),
            popped.scenario,
        ) by {
            assert(popped.work[i] == s.work[i]);
        }
        assert(popped.ok());
        if w is NextEvent {
            assert(takes_event(popped, next));
        } else {
            lemma_perform(popped, w, r);
        }
    }
}

/// No step changes the scenario, the number of CPUs, the head of the trace, the rule
/// for simultaneous events or the seed, and none draws a number: those that it needs
/// are ready.
pub proof fn law_scenario_stays(s: SimView, r: ReplyView, next: SimView, request: Request)
    requires
        s.ok(),
        step_to(s, r, next, request),
    ensures
        next.scenario == s.scenario,
        next.cpus.len() == s.cpus.len(),
        next.head == s.head,
        next.events.fixed_priority == s.events.fixed_priority,
        next.events.seed == s.events.seed,
        next.events.given == s.events.given,
{
    if s.work.len() > 0 && !keeps_time(s.work.last()) {
        reveal(step_to);
    } else {
        law_steps_go_forward(s, r, next, request);
    }
}

/// What was recorded stays, whatever the step.
pub proof fn law_record_stays(s: SimView, r: ReplyView, next: SimView, request: Request)
    requires
        s.ok(),
        step_to(s, r, next, request),
    ensures
        s.trace.len() <= next.trace.len(),
        forall|i: int| 0 <= i < s.trace.len() ==> #[trigger] next.trace[i] == s.trace[i],
{
    if s.work.len() > 0 && !keeps_time(s.work.last()) {
        reveal(step_to);
    } else {
        law_steps_go_forward(s, r, next, request);
    }
}

} // verus!
