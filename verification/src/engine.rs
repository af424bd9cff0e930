//! The simulation engine: one step at a time, and whole runs.

use vstd::prelude::*;

use crate::cgroup::cpuset_view;
use crate::event_queue::{EventKind, QueueView};
use crate::lifecycle::{counter_for, scenario_ok, spec_counter_for, start_head};
use crate::run_task::Step;
use crate::scenario::Scenario;
use crate::sim_state::{kind_ok, sat, SimState, SimView, EVENTS_PER_STEP};
use crate::state::{
    BranchCounter, Cost, ExitView, HaltReason, ProbePoint, RbcStats, Reply, ReplyView, Request,
    SimTask, StructopInfo, TaskState, Work,
};
use crate::trace::{texts_view, ExitKind, Trace, TraceEvent, TraceHead, TraceKind};
use crate::types::{CpuId, Pid, TimeNs};

verus! {

/// How long a task has waited, if it has for longer than the timeout.
pub open spec fn stall_of(t: SimTask, clock: TimeNs, timeout: TimeNs) -> Option<TimeNs> {
    if t.state is Runnable && t.runnable_at_ns is Some && sat(clock - t.runnable_at_ns->0)
        > timeout {
        Some(sat(clock - t.runnable_at_ns->0))
    } else {
        None
    }
}

/// The stalled task with the lowest number, and how long it has waited.
pub open spec fn spec_stalled(tasks: Seq<SimTask>, clock: TimeNs, timeout: TimeNs) -> Option<
    (Pid, TimeNs),
>
    decreases tasks.len(),
{
    if tasks.len() == 0 {
        None
    } else {
        let t = tasks.last();
        let before = spec_stalled(tasks.drop_last(), clock, timeout);
        match stall_of(t, clock, timeout) {
            Some(d) => if before is None || t.pid.0 < (before->0).0.0 {
                Some((t.pid, d))
            } else {
                before
            },
            None => before,
        }
    }
}

/// The watchdog reports a stalled task if there is one, and of those the one
/// with the lowest number.
pub proof fn law_watchdog_reports_the_lowest_stalled_task(
    tasks: Seq<SimTask>,
    clock: TimeNs,
    timeout: TimeNs,
)
    ensures
        match spec_stalled(tasks, clock, timeout) {
            Some((pid, d)) => {
                &&& d > timeout
                &&& exists|i: int|
                    0 <= i < tasks.len() && (#[trigger] tasks[i]).pid == pid && stall_of(
                        tasks[i],
                        clock,
                        timeout,
                    ) == Some(d)
                &&& forall|j: int|
                    0 <= j < tasks.len() && stall_of(#[trigger] tasks[j], clock, timeout) is Some
                        ==> pid.0 <= tasks[j].pid.0
            },
            None => forall|j: int|
                0 <= j < tasks.len() ==> stall_of(#[trigger] tasks[j], clock, timeout) is None,
        },
    decreases tasks.len(),
{
    if tasks.len() > 0 {
        let rest = tasks.drop_last();
        law_watchdog_reports_the_lowest_stalled_task(rest, clock, timeout);
        assert forall|j: int| 0 <= j < rest.len() implies #[trigger] tasks[j] == rest[j] by {}
        match spec_stalled(rest, clock, timeout) {
            Some((pid, d)) => {
                let i = choose|i: int|
                    0 <= i < rest.len() && (#[trigger] rest[i]).pid == pid && stall_of(
                        rest[i],
                        clock,
                        timeout,
                    ) == Some(d);
                assert(tasks[i].pid == pid);
            },
            None => {},
        }
        assert(tasks[tasks.len() - 1] == tasks.last());
        assert forall|j: int|
            0 <= j < tasks.len() && stall_of(
                #[trigger] tasks[j],
                clock,
                timeout,
            ) is Some implies spec_stalled(tasks, clock, timeout) is Some && (spec_stalled(
            tasks,
            clock,
            timeout,
        )->0).0.0 <= tasks[j].pid.0 by {
            if j < rest.len() {
                assert(stall_of(rest[j], clock, timeout) is Some);
            }
        }
    }
}

impl SimView {
    /// A callback is made.
    pub open spec fn call(
        self,
        request: Request,
        cpu: CpuId,
        charge: Option<CpuId>,
        note: Option<TraceKind>,
    ) -> Step {
        (
            self.on_cpu(cpu).then_do(
                Work::Returned { cpu, at: self.cpu(cpu).local_clock, charge, note },
            ),
            request,
        )
    }

    /// A callback has returned: what it did takes effect, is recorded, and is
    /// charged for.
    pub open spec fn returned(
        self,
        r: ReplyView,
        cpu: CpuId,
        at: TimeNs,
        charge: Option<CpuId>,
        note: Option<TraceKind>,
    ) -> Step {
        let s1 = self.absorb(r);
        let s2 = match note {
            Some(kind) => s1.record(at, cpu, kind),
            None => s1,
        };
        (
            match charge {
                Some(c) => s2.charge(c, r.cost),
                None => s2,
            },
            Request::Continue,
        )
    }

    /// An error that the scheduler raised ends the simulation, unless errors
    /// are ignored.
    pub open spec fn check_error(self) -> Step {
        let s1 = SimView { error: None, ..self };
        (
            if self.error is Some && !self.scenario.ignore_bpf_errors {
                s1.ended(ExitView::ErrorBpf(self.error->0))
            } else {
                s1
            },
            Request::Continue,
        )
    }

    /// An event takes place. The clock of its CPU is at its time or later.
    pub open spec fn handle(self, kind: EventKind) -> Step {
        match kind {
            EventKind::TaskWake { pid, waker, cpu } => self.advance_cpu_clock(cpu).wake(pid, waker),
            EventKind::SliceExpired { cpu } => self.advance_cpu_clock(cpu).slice_expired(cpu),
            EventKind::TaskPhaseComplete { cpu } => self.advance_cpu_clock(cpu).phase_complete(cpu),
            EventKind::TimerFired { cpu, slot } => self.advance_cpu_clock(cpu).timer_fired(
                cpu,
                slot,
            ),
            EventKind::Tick { cpu } => self.advance_cpu_clock(cpu).watched_tick(cpu),
            EventKind::CpuOffline { cpu } => self.advance_cpu_clock(cpu).cpu_offline(cpu),
            EventKind::CpuOnline { cpu } => self.advance_cpu_clock(cpu).cpu_online(cpu),
            EventKind::CpuRelease { cpu } => self.advance_cpu_clock(cpu).cpu_release(cpu),
            EventKind::CpuAcquire { cpu } => self.advance_cpu_clock(cpu).cpu_acquire(cpu),
            EventKind::CgroupMigrate { event, cpu } => self.advance_cpu_clock(cpu).cgroup_migrate(
                event as int,
            ),
            EventKind::CgroupCreate { event, cpu } => self.advance_cpu_clock(cpu).cgroup_create(
                event as int,
            ),
            EventKind::CgroupDestroy { event, cpu } => self.advance_cpu_clock(cpu).cgroup_destroy(
                event as int,
            ),
            EventKind::CgroupCpusetChange { event, cpu } => self.advance_cpu_clock(
                cpu,
            ).cgroup_cpuset_change(event as int),
            EventKind::IrqStart { event, cpu } => self.advance_cpu_clock(cpu).irq_start(
                event as int,
                cpu,
            ),
            EventKind::IrqEnd { cpu } => self.advance_cpu_clock(cpu).irq_end(cpu),
            EventKind::FutexOp { event, pid } => self.futex_op(event as int, pid),
            EventKind::DsqConsume { cpu } => self.advance_cpu_clock(cpu).post_dispatch(cpu, false),
            EventKind::StartRunning { cpu, pid } => self.advance_cpu_clock(cpu).start_event(
                cpu,
                pid,
            ),
            EventKind::KickDelivered { cpu, flags } => self.advance_cpu_clock(cpu).kicked(
                cpu,
                flags,
            ),
        }
    }

    /// A tick: the watchdog, if there is one, looks for stalled tasks first.
    pub open spec fn watched_tick(self, cpu: CpuId) -> Step {
        let stalled = match self.scenario.watchdog_timeout_ns {
            Some(timeout) => spec_stalled(self.tasks, self.clock, timeout),
            None => None,
        };
        match stalled {
            Some((pid, runnable_for_ns)) => (
                self.ended(ExitView::ErrorStall { pid, runnable_for_ns }),
                Request::Continue,
            ),
            None => self.tick(cpu),
        }
    }

    /// One piece of work, other than taking the next event, is done.
    pub open spec fn perform(self, w: Work, r: ReplyView) -> Step {
        match w {
            Work::Call { request, cpu, charge, note } => self.call(request, cpu, charge, note),
            Work::Returned { cpu, at, charge, note } => self.returned(r, cpu, at, charge, note),
            Work::Ask { request } => (self, request),
            Work::Note { at, cpu, kind } => (self.record(at, cpu, kind), Request::Continue),
            Work::Probe { point, pid, cpu } => (
                self,
                Request::Probe { point, pid, cpu, time_ns: self.cpu(cpu).local_clock },
            ),
            Work::FlushStaged => self.flush_staged(),
            Work::ArmTimers => self.arm_timers(),
            Work::SetOnline { cpu, online } => (self.set_online(cpu, online), Request::Continue),
            Work::SetOps { pid, ops_state } => (self.set_ops(pid, ops_state), Request::Continue),
            Work::RestartTick { cpu } => self.restart_tick(cpu),
            Work::Started => self.started(r),
            Work::GroupInit { cgid } => self.group_init(cgid),
            Work::GroupInited { cgid, at } => self.group_inited(r, cgid, at),
            Work::TaskInit { pid, mask } => self.task_init(pid, mask),
            Work::TaskInited { pid, at } => self.task_inited(r, pid, at),
            Work::IdleAtStart { cpu } => self.idle_at_start(cpu),
            Work::IdleAtStarted { cpu } => self.idle_at_started(r, cpu),
            Work::Seed { agenda, index } => self.seed(agenda, index),
            Work::NextEvent => (self, Request::Continue),
            Work::CheckError => self.check_error(),
            Work::Handle { kind } => self.handle(kind),
            Work::Finish => self.finish(),
            Work::Wake { pid, waker } => self.wake(pid, waker),
            Work::AdvancePhase { pid, waker } => self.advance_to_run_phase(pid, waker),
            Work::WakeReady { pid, waker } => self.wake_ready(pid, waker),
            Work::WakeSelect { pid, wake_cpu, prev_cpu, waker } => self.wake_select(
                pid,
                wake_cpu,
                prev_cpu,
                waker,
            ),
            Work::WakeSelected { pid, wake_cpu, prev_cpu, waker } => self.wake_selected(
                r,
                pid,
                wake_cpu,
                prev_cpu,
                waker,
            ),
            Work::WakeEnqueued { pid, cpu } => self.wake_enqueued(pid, cpu),
            Work::TryDispatch { cpu } => self.try_dispatch(cpu),
            Work::Dispatched { cpu, prev } => self.dispatched(r, cpu, prev),
            Work::PostDispatch { cpu, notify } => self.post_dispatch(cpu, notify),
            Work::Consumed { cpu, notify } => self.consumed(r, cpu, notify),
            Work::Gated { cpu, notify, pid, cgid } => self.gated(r, cpu, notify, pid, cgid),
            Work::StartRunning { cpu, pid } => self.start_running(cpu, pid),
            Work::MarkedBusy { cpu, pid, migrated, cross_llc } => self.marked_busy(
                r,
                cpu,
                pid,
                migrated,
                cross_llc,
            ),
            Work::RunFloor { cpu, pid, migrated, cross_llc } => self.run_floor(
                cpu,
                pid,
                migrated,
                cross_llc,
            ),
            Work::RunFloored { cpu, pid, migrated, cross_llc, asked } => self.run_floored(
                r,
                cpu,
                pid,
                migrated,
                cross_llc,
                asked,
            ),
            Work::RunSet { cpu, pid } => self.run_set(cpu, pid),
            Work::RunJittered { cpu, pid } => self.run_jittered(r, cpu, pid),
            Work::RunLimits { cpu, pid } => self.run_limits(cpu, pid),
            Work::RunStart { cpu, pid } => self.run_start(r, cpu, pid),
            Work::SliceRead { cpu, pid } => self.slice_read(r, cpu, pid),
            Work::Preempt { cpu } => self.preempt(cpu),
            Work::Stopped { cpu, pid, consumed, left, expired } => self.stopped(
                r,
                cpu,
                pid,
                consumed,
                left,
                expired,
            ),
            Work::Requeue { cpu, pid, expired } => self.requeue(cpu, pid, expired),
            Work::Requeued { cpu, pid, expired } => self.requeued(cpu, pid, expired),
            Work::PhaseSlice { cpu, pid } => self.phase_slice(r, cpu, pid),
            Work::PhaseStopped { cpu, pid, consumed, left, has_next, still_runnable } =>
                self.phase_stopped(r, cpu, pid, consumed, left, has_next, still_runnable),
            Work::PhaseAfter { cpu, pid, has_next, still_runnable } => self.phase_after(
                cpu,
                pid,
                has_next,
                still_runnable,
            ),
            Work::PhaseNext { cpu, pid, has_next, still_runnable } => self.phase_next(
                cpu,
                pid,
                has_next,
                still_runnable,
            ),
            Work::PhaseChain { cpu, pid, at } => self.phase_chain(cpu, pid, at),
            Work::PhaseYielded { cpu, pid } => self.phase_yielded(cpu, pid),
            Work::TickTimed { cpu } => self.tick_timed(r, cpu),
            Work::TickSlice { cpu, pid } => self.tick_slice(r, cpu, pid),
            Work::Ticked { cpu, pid, slice_before } => self.ticked(r, cpu, pid, slice_before),
            Work::TimerDone { cpu } => self.timer_done(r, cpu),
            Work::BudgetEvent { cpu, at, kind } => self.budget_event(cpu, at, kind),
            Work::DrainBlocked { cpu, at, cgid } => self.drain_blocked(cpu, at, cgid),
            Work::DrainLocal { cpu } => self.drain_local(cpu),
            Work::MigrateDequeue { pid, cpu } => self.migrate_dequeue(pid, cpu),
            Work::CgroupCreated { event, cgid, cpu, at, count } => self.cgroup_created(
                r,
                event as int,
                cgid,
                cpu,
                at,
                count,
            ),
            Work::CpusetInited { cgid, cpu, at } => self.cpuset_inited(r, cgid, cpu, at),
            Work::IrqFinish { cpu, duration_ns } => self.irq_finish(cpu, duration_ns),
            Work::FutexDone { cpu, pid, op } => self.futex_done(r, cpu, pid, op),
        }
    }
}

/// A piece of work is done, or the next event is taken. When nothing is left
/// to do the simulation is over.
#[verifier::opaque]
pub open spec fn step_to(s: SimView, r: ReplyView, next: SimView, request: Request) -> bool {
    if s.work.len() == 0 {
        next == s && request == Request::Finished
    } else {
        let popped = SimView { work: s.work.drop_last(), ..s };
        if s.work.last() is NextEvent {
            request == Request::Continue && takes_event(popped, next)
        } else {
            (next, request) == popped.perform(s.work.last(), r)
        }
    }
}

/// The earliest event is taken, unless none is left or it is due after the
/// simulation's end: then the simulation is wound up.
pub open spec fn takes_event(s: SimView, next: SimView) -> bool {
    if s.events.pending.len() == 0 {
        next == s.then_do(Work::Finish)
    } else {
        next == s.taken()
    }
}

impl SimView {
    /// After the next event was taken.
    pub open spec fn taken(self) -> SimView {
        let e = self.events.pending[0];
        if e.time_ns > self.scenario.duration_ns {
            self.then_do(Work::Finish)
        } else {
            SimView { clock: e.time_ns, events: self.events.take(0), ..self }.then_do(
                Work::NextEvent,
            ).then_do(Work::CheckError).then_do(Work::Handle { kind: e.kind })
        }
    }
}

/// The simulation's clock goes through the times of its events in order, and
/// no event after the simulation's end takes place.
pub proof fn law_clock_follows_the_earliest_event(s: SimView, next: SimView, j: int)
    requires
        s.events.in_order(),
        takes_event(s, next),
        next.clock != s.clock,
        0 <= j < s.events.pending.len(),
    ensures
        next.clock <= s.events.pending[j].time_ns,
        next.clock <= s.scenario.duration_ns,
{
    assert(s.events.pending[0].before(s.events.pending[j]));
}

impl SimState {
    /// The stalled task with the lowest number.
    fn check_watchdog(&self, timeout: TimeNs) -> (r: Option<(Pid, TimeNs)>)
        ensures
            r == spec_stalled(self@.tasks, self@.clock, timeout),
    {
        let clock = self.clock();
        let mut worst: Option<(Pid, TimeNs)> = None;
        let mut i: usize = 0;
        let ghost tasks = self@.tasks;
        while i < self.nr_tasks()
            invariant
                tasks == self@.tasks,
                clock == self@.clock,
                i <= tasks.len(),
                worst == spec_stalled(tasks.take(i as int), clock, timeout),
            decreases tasks.len() - i,
        {
            let t = self.task(i);
            proof {
                assert(tasks.take(i + 1).drop_last() =~= tasks.take(i as int));
                assert(tasks.take(i + 1).last() == t);
            }
            let waits = match t.state {
                TaskState::Runnable => true,
                _ => false,
            };
            if waits {
                if let Some(since) = t.runnable_at_ns {
                    let d = clock.saturating_sub(since);
                    if d > timeout {
                        let lower = match worst {
                            Some((pid, _)) => t.pid.0 < pid.0,
                            None => true,
                        };
                        if lower {
                            worst = Some((t.pid, d));
                        }
                    }
                }
            }
            i = i + 1;
        }
        proof {
            assert(tasks.take(i as int) =~= tasks);
        }
        worst
    }

    fn watched_tick(&mut self, cpu: CpuId) -> (r: Request)
        requires
            old(self).wf(),
            cpu.0 < old(self)@.cpus.len(),
        ensures
            final(self).wf(),
            (final(self)@, r) == old(self)@.watched_tick(cpu),
    {
        if let Some(timeout) = self.scenario().watchdog_timeout_ns {
            if let Some((pid, runnable_for_ns)) = self.check_watchdog(timeout) {
                self.end(ExitKind::ErrorStall { pid, runnable_for_ns });
                return Request::Continue;
            }
        }
        self.tick(cpu)
    }

    fn call(
        &mut self,
        request: Request,
        cpu: CpuId,
        charge: Option<CpuId>,
        note: Option<TraceKind>,
    ) -> (r: Request)
        requires
            old(self).wf(),
            cpu.0 < old(self)@.cpus.len(),
            charge is Some ==> (charge->0).0 < old(self)@.cpus.len(),
        ensures
            final(self).wf(),
            (final(self)@, r) == old(self)@.call(request, cpu, charge, note),
    {
        self.set_current_cpu(cpu);
        let at = self.cpu(cpu).local_clock;
        self.then_do(Work::Returned { cpu, at, charge, note });
        request
    }

    fn returned(
        &mut self,
        reply: &Reply,
        cpu: CpuId,
        at: TimeNs,
        charge: Option<CpuId>,
        note: Option<TraceKind>,
    ) -> (r: Request)
        requires
            old(self).wf(),
            reply@.ok(old(self)@.cpus.len()),
            charge is Some ==> (charge->0).0 < old(self)@.cpus.len(),
        ensures
            final(self).wf(),
            (final(self)@, r) == old(self)@.returned(reply@, cpu, at, charge, note),
    {
        self.absorb(reply);
        if let Some(kind) = note {
            self.record(at, cpu, kind);
        }
        if let Some(c) = charge {
            self.charge_sched_time(c, reply.cost);
        }
        Request::Continue
    }

    fn check_error(&mut self) -> (r: Request)
        requires
            old(self).wf(),
        ensures
            final(self).wf(),
            (final(self)@, r) == old(self)@.check_error(),
    {
        let error = self.take_error();
        if !self.scenario().ignore_bpf_errors {
            if let Some(message) = error {
                self.end(ExitKind::ErrorBpf(message));
            }
        }
        Request::Continue
    }

    fn handle(&mut self, kind: EventKind) -> (r: Request)
        requires
            old(self).wf(),
            old(self)@.has_room(),
            kind_ok(kind, old(self)@.cpus.len(), old(self)@.scenario),
        ensures
            final(self).wf(),
            (final(self)@, r) == old(self)@.handle(kind),
    {
        match kind {
            EventKind::TaskWake { pid, waker, cpu } => {
                self.advance_cpu_clock(cpu);
                self.wake(pid, waker)
            },
            EventKind::SliceExpired { cpu } => {
                self.advance_cpu_clock(cpu);
                self.slice_expired(cpu)
            },
            EventKind::TaskPhaseComplete { cpu } => {
                self.advance_cpu_clock(cpu);
                self.phase_complete(cpu)
            },
            EventKind::TimerFired { cpu, slot } => {
                self.advance_cpu_clock(cpu);
                self.timer_fired(cpu, slot)
            },
            EventKind::Tick { cpu } => {
                self.advance_cpu_clock(cpu);
                self.watched_tick(cpu)
            },
            EventKind::CpuOffline { cpu } => {
                self.advance_cpu_clock(cpu);
                self.cpu_offline(cpu)
            },
            EventKind::CpuOnline { cpu } => {
                self.advance_cpu_clock(cpu);
                self.cpu_online(cpu)
            },
            EventKind::CpuRelease { cpu } => {
                self.advance_cpu_clock(cpu);
                self.cpu_release(cpu)
            },
            EventKind::CpuAcquire { cpu } => {
                self.advance_cpu_clock(cpu);
                self.cpu_acquire(cpu)
            },
            EventKind::CgroupMigrate { event, cpu } => {
                self.advance_cpu_clock(cpu);
                self.cgroup_migrate(event)
            },
            EventKind::CgroupCreate { event, cpu } => {
                self.advance_cpu_clock(cpu);
                self.cgroup_create(event)
            },
            EventKind::CgroupDestroy { event, cpu } => {
                self.advance_cpu_clock(cpu);
                self.cgroup_destroy(event)
            },
            EventKind::CgroupCpusetChange { event, cpu } => {
                self.advance_cpu_clock(cpu);
                self.cgroup_cpuset_change(event)
            },
            EventKind::IrqStart { event, cpu } => {
                self.advance_cpu_clock(cpu);
                self.irq_start(event, cpu)
            },
            EventKind::IrqEnd { cpu } => {
                self.advance_cpu_clock(cpu);
                self.irq_end(cpu)
            },
            EventKind::FutexOp { event, pid } => self.futex_op(event, pid),
            EventKind::DsqConsume { cpu } => {
                self.advance_cpu_clock(cpu);
                self.post_dispatch(cpu, false)
            },
            EventKind::StartRunning { cpu, pid } => {
                self.advance_cpu_clock(cpu);
                self.start_event(cpu, pid)
            },
            EventKind::KickDelivered { cpu, flags } => {
                self.advance_cpu_clock(cpu);
                self.kicked(cpu, flags)
            },
        }
    }

    fn take_event(&mut self)
        requires
            old(self).wf(),
        ensures
            final(self).wf(),
            takes_event(old(self)@, final(self)@),
    {
        match self.peek_time() {
            None => {
                self.then_do(Work::Finish);
            },
            Some(t) => {
                if t > self.scenario().duration_ns {
                    self.then_do(Work::Finish);
                } else {
                    let e = self.pop_event();
                    self.set_sim_clock(e.time_ns);
                    self.then_do(Work::NextEvent);
                    self.then_do(Work::CheckError);
                    self.then_do(Work::Handle { kind: e.kind });
                }
            },
        }
    }
}

impl SimState {
    /// Does one piece of work. `reply` answers the request made last.
    pub fn step(&mut self, reply: &Reply) -> (r: Request)
        requires
            old(self).wf(),
            old(self)@.has_room(),
            reply@.ok(old(self)@.cpus.len()),
        ensures
            final(self).wf(),
            step_to(old(self)@, reply@, final(self)@, r),
    {
        reveal(step_to);
        if self.is_done() {
            return Request::Finished;
        }
        let w = self.pop_work();
        match w {
            Work::Call { request, cpu, charge, note } => self.call(request, cpu, charge, note),
            Work::Returned { cpu, at, charge, note } => self.returned(reply, cpu, at, charge, note),
            Work::Ask { request } => request,
            Work::Note { at, cpu, kind } => {
                self.record(at, cpu, kind);
                Request::Continue
            },
            Work::Probe { point, pid, cpu } => {
                let time_ns = self.cpu(cpu).local_clock;
                Request::Probe { point, pid, cpu, time_ns }
            },
            Work::FlushStaged => self.flush_staged(),
            Work::ArmTimers => self.arm_timers(),
            Work::SetOnline { cpu, online } => {
                self.set_online(cpu, online);
                Request::Continue
            },
            Work::SetOps { pid, ops_state } => {
                self.set_ops(pid, ops_state);
                Request::Continue
            },
            Work::RestartTick { cpu } => self.restart_tick(cpu),
            Work::Started => self.started(reply),
            Work::GroupInit { cgid } => self.group_init(cgid),
            Work::GroupInited { cgid, at } => self.group_inited(reply, cgid, at),
            Work::TaskInit { pid, mask } => self.task_init(pid, mask),
            Work::TaskInited { pid, at } => self.task_inited(reply, pid, at),
            Work::IdleAtStart { cpu } => self.idle_at_start(cpu),
            Work::IdleAtStarted { cpu } => self.idle_at_started(reply, cpu),
            Work::Seed { agenda, index } => self.seed(agenda, index),
            Work::NextEvent => {
                self.take_event();
                Request::Continue
            },
            Work::CheckError => self.check_error(),
            Work::Handle { kind } => self.handle(kind),
            Work::Finish => self.finish(),
            Work::Wake { pid, waker } => self.wake(pid, waker),
            Work::AdvancePhase { pid, waker } => self.advance_to_run_phase(pid, waker),
            Work::WakeReady { pid, waker } => self.wake_ready(pid, waker),
            Work::WakeSelect { pid, wake_cpu, prev_cpu, waker } => self.wake_select(
                pid,
                wake_cpu,
                prev_cpu,
                waker,
            ),
            Work::WakeSelected { pid, wake_cpu, prev_cpu, waker } => self.wake_selected(
                reply,
                pid,
                wake_cpu,
                prev_cpu,
                waker,
            ),
            Work::WakeEnqueued { pid, cpu } => self.wake_enqueued(pid, cpu),
            Work::TryDispatch { cpu } => self.try_dispatch(cpu),
            Work::Dispatched { cpu, prev } => self.dispatched(reply, cpu, prev),
            Work::PostDispatch { cpu, notify } => self.post_dispatch(cpu, notify),
            Work::Consumed { cpu, notify } => self.consumed(reply, cpu, notify),
            Work::Gated { cpu, notify, pid, cgid } => self.gated(reply, cpu, notify, pid, cgid),
            Work::StartRunning { cpu, pid } => self.start_running(cpu, pid),
            Work::MarkedBusy { cpu, pid, migrated, cross_llc } => self.marked_busy(
                reply,
                cpu,
                pid,
                migrated,
                cross_llc,
            ),
            Work::RunFloor { cpu, pid, migrated, cross_llc } => self.run_floor(
                cpu,
                pid,
                migrated,
                cross_llc,
            ),
            Work::RunFloored { cpu, pid, migrated, cross_llc, asked } => self.run_floored(
                reply,
                cpu,
                pid,
                migrated,
                cross_llc,
                asked,
            ),
            Work::RunSet { cpu, pid } => self.run_set(cpu, pid),
            Work::RunJittered { cpu, pid } => self.run_jittered(reply, cpu, pid),
            Work::RunLimits { cpu, pid } => self.run_limits(cpu, pid),
            Work::RunStart { cpu, pid } => self.run_start(reply, cpu, pid),
            Work::SliceRead { cpu, pid } => self.slice_read(reply, cpu, pid),
            Work::Preempt { cpu } => self.preempt(cpu),
            Work::Stopped { cpu, pid, consumed, left, expired } => self.stopped(
                reply,
                cpu,
                pid,
                consumed,
                left,
                expired,
            ),
            Work::Requeue { cpu, pid, expired } => self.requeue(cpu, pid, expired),
            Work::Requeued { cpu, pid, expired } => self.requeued(cpu, pid, expired),
            Work::PhaseSlice { cpu, pid } => self.phase_slice(reply, cpu, pid),
            Work::PhaseStopped { cpu, pid, consumed, left, has_next, still_runnable } =>
                self.phase_stopped(reply, cpu, pid, consumed, left, has_next, still_runnable),
            Work::PhaseAfter { cpu, pid, has_next, still_runnable } => self.phase_after(
                cpu,
                pid,
                has_next,
                still_runnable,
            ),
            Work::PhaseNext { cpu, pid, has_next, still_runnable } => self.phase_next(
                cpu,
                pid,
                has_next,
                still_runnable,
            ),
            Work::PhaseChain { cpu, pid, at } => self.phase_chain(cpu, pid, at),
            Work::PhaseYielded { cpu, pid } => self.phase_yielded(cpu, pid),
            Work::TickTimed { cpu } => self.tick_timed(reply, cpu),
            Work::TickSlice { cpu, pid } => self.tick_slice(reply, cpu, pid),
            Work::Ticked { cpu, pid, slice_before } => self.ticked(reply, cpu, pid, slice_before),
            Work::TimerDone { cpu } => self.timer_done(reply, cpu),
            Work::BudgetEvent { cpu, at, kind } => self.budget_event(cpu, at, kind),
            Work::DrainBlocked { cpu, at, cgid } => self.drain_blocked(cpu, at, cgid),
            Work::DrainLocal { cpu } => self.drain_local(cpu),
            Work::MigrateDequeue { pid, cpu } => self.migrate_dequeue(pid, cpu),
            Work::CgroupCreated { event, cgid, cpu, at, count } => self.cgroup_created(
                reply,
                event,
                cgid,
                cpu,
                at,
                count,
            ),
            Work::CpusetInited { cgid, cpu, at } => self.cpuset_inited(reply, cgid, cpu, at),
            Work::IrqFinish { cpu, duration_ns } => self.irq_finish(cpu, duration_ns),
            Work::FutexDone { cpu, pid, op } => self.futex_done(reply, cpu, pid, op),
        }
    }
}

/// What a scheduler was asked, in which state of the simulation, and what it
/// answered.
#[verifier::ext_equal]
pub struct Exchange {
    pub request: Request,
    pub state: SimView,
    pub reply: ReplyView,
}

/// What an observer was shown: at which moment, of which task, where and when, with
/// the trace so far.
#[verifier::ext_equal]
pub struct Look {
    pub point: ProbePoint,
    pub pid: Pid,
    pub cpu: CpuId,
    pub time_ns: TimeNs,
    pub head: TraceHead,
    pub events: Seq<TraceEvent>,
}

/// What a scheduler under test does. It answers the requests that the
/// simulation makes of it and of the world around it; nothing is promised of
/// the answers.
pub trait Scheduler {
    /// What it was asked and what it answered so far, in order. An implementation
    /// that is verified keeps it.
    open spec fn log(&self) -> Seq<Exchange> {
        Seq::empty()
    }

    /// The text of a CPU mask.
    open spec fn mask_text(allowed: Option<Seq<CpuId>>, nr_cpus: u32) -> Seq<char> {
        Seq::empty()
    }

    /// Answers a request.
    fn answer(&mut self, request: Request, state: &SimState) -> (r: Reply)
        ensures
            final(self).log() == old(self).log().push(
                Exchange { request, state: state@, reply: r@ },
            ),
    ;

    /// The text of a CPU mask.
    fn cpumask_hex(&mut self, allowed: &Option<Vec<CpuId>>, nr_cpus: u32) -> (r: String)
        ensures
            r@ == Self::mask_text(cpuset_view(*allowed), nr_cpus),
            final(self).log() == old(self).log(),
    ;
}

/// An observer that looks at the scheduler's state at certain moments.
pub trait Monitor {
    /// What it was shown so far, in order. An implementation that is verified keeps
    /// it.
    open spec fn seen(&self) -> Seq<Look> {
        Seq::empty()
    }

    fn sample(
        &mut self,
        point: ProbePoint,
        pid: Pid,
        cpu: CpuId,
        time_ns: TimeNs,
        trace: &Trace,
    )
        ensures
            final(self).seen() == old(self).seen().push(
                Look { point, pid, cpu, time_ns, head: trace.head(), events: trace.events@ },
            ),
    ;
}

/// An observer that does not look.
pub struct NoopMonitor {
    /// What it was shown.
    seen: Ghost<Seq<Look>>,
}

impl NoopMonitor {
    /// An observer that was shown nothing yet.
    pub fn new() -> (r: NoopMonitor)
        ensures
            r.seen() == Seq::<Look>::empty(),
    {
        NoopMonitor { seen: Ghost(Seq::empty()) }
    }
}

impl Monitor for NoopMonitor {
    closed spec fn seen(&self) -> Seq<Look> {
        self.seen@
    }

    fn sample(
        &mut self,
        point: ProbePoint,
        pid: Pid,
        cpu: CpuId,
        time_ns: TimeNs,
        trace: &Trace,
    ) {
        self.seen = Ghost(
            self.seen@.push(
                Look { point, pid, cpu, time_ns, head: trace.head(), events: trace.events@ },
            ),
        );
    }
}

/// What a simulation leaves behind.
pub struct SimulationResult {
    pub trace: Trace,
    pub tasks: Vec<SimTask>,
    pub exit: ExitKind,
    /// When the last event was served.
    pub clock: TimeNs,
    pub stats: RbcStats,
    /// The callback counts of each CPU.
    pub structops: Vec<StructopInfo>,
}

/// A run so far: the state, the answer that the next step reads, what the
/// scheduler was asked, what the observer was shown, and the numbers drawn to order
/// simultaneous events.
#[verifier::ext_equal]
pub struct RunView {
    pub state: SimView,
    pub reply: ReplyView,
    pub asked: Seq<Exchange>,
    pub shown: Seq<Look>,
    pub drawn: Seq<u32>,
}

impl RunView {
    /// A run before its first step.
    pub open spec fn start(s: Scenario, counter: BranchCounter, masks: Seq<Seq<char>>) -> RunView {
        RunView {
            state: SimView::initial(s, counter, masks),
            reply: ReplyView::silent(None),
            asked: Seq::empty(),
            shown: Seq::empty(),
            drawn: Seq::empty(),
        }
    }

    /// The state of a run once the numbers for a step were drawn, given all that were
    /// drawn by then.
    pub open spec fn readied(self, drawn: Seq<u32>) -> SimView {
        self.state.supplied(drawn.skip(self.drawn.len() as int))
    }
}

/// Whether the numbers drawn so far go on with those that a step needs.
pub open spec fn draws_on(s: SimView, before: Seq<u32>, after: Seq<u32>) -> bool {
    &&& after.len() == before.len() + s.events.lacks(EVENTS_PER_STEP as nat)
    &&& after.take(before.len() as int) == before
    &&& s.events.may_draw(after.skip(before.len() as int))
}

/// The answer that the simulation goes by: an answer that names what does not
/// exist is an error.
pub open spec fn heard(answer: ReplyView, nr_cpus: nat) -> ReplyView {
    if answer.ok(nr_cpus) {
        answer
    } else {
        ReplyView::silent(Some(BAD_ANSWER@))
    }
}

/// Whether a request goes to the scheduler.
pub open spec fn for_scheduler(request: Request) -> bool {
    !(request is Continue) && !(request is Finished) && !(request is Halt) && !(request is Probe)
}

/// Whether a run makes one step, whose request is put to whom it concerns.
pub open spec fn moves(a: RunView, b: RunView, request: Request) -> bool {
    &&& a.state.work.len() > 0
    &&& a.state.ok()
    &&& a.reply.ok(a.state.cpus.len())
    &&& draws_on(a.state, a.drawn, b.drawn)
    &&& step_to(a.readied(b.drawn), a.reply, b.state, request)
    &&& if for_scheduler(request) {
        let reply = b.asked.last().reply;
        &&& b.asked == a.asked.push(Exchange { request, state: b.state, reply })
        &&& b.reply == heard(reply, b.state.cpus.len())
    } else {
        b.asked == a.asked && b.reply == a.reply
    }
    &&& b.shown == match request {
        Request::Probe { point, pid, cpu, time_ns } => a.shown.push(
            Look { point, pid, cpu, time_ns, head: b.state.head, events: b.state.trace },
        ),
        _ => a.shown,
    }
}

/// Whether `n` steps, none of which halts, lead from one moment of a run to
/// another.
pub open spec fn gets_to(from: RunView, to: RunView, n: nat) -> bool
    decreases n,
{
    if n == 0 {
        to == from
    } else {
        exists|mid: RunView, request: Request|
            gets_to(from, mid, (n - 1) as nat) && !(request is Halt) && #[trigger] moves(
                mid,
                to,
                request,
            )
    }
}

/// A step has one outcome: the state and the answer determine what comes next and
/// what is asked.
pub proof fn law_each_step_is_determined(
    s: SimView,
    r: ReplyView,
    a: SimView,
    x: Request,
    b: SimView,
    y: Request,
)
    requires
        step_to(s, r, a, x),
        step_to(s, r, b, y),
    ensures
        a == b,
        x == y,
{
    reveal(step_to);
}

/// Whether a list begins with another.
pub open spec fn begins(all: Seq<Exchange>, first: Seq<Exchange>) -> bool {
    first.len() <= all.len() && all.take(first.len() as int) == first
}

/// Whether two schedulers answered alike as long as they were asked alike.
pub open spec fn answer_alike(a: Seq<Exchange>, b: Seq<Exchange>) -> bool {
    forall|k: int|
        0 <= k < a.len() && k < b.len() && a.take(k) == b.take(k) && a[k].request == b[k].request
            && a[k].state == b[k].state ==> (#[trigger] a[k]).reply == (#[trigger] b[k]).reply
}

/// Whether the same numbers were drawn, as far as both lists go.
pub open spec fn drawn_alike(a: Seq<u32>, b: Seq<u32>) -> bool {
    forall|k: int| 0 <= k < a.len() && k < b.len() ==> #[trigger] a[k] == #[trigger] b[k]
}

/// Whether a list of numbers begins with another.
pub open spec fn starts(all: Seq<u32>, first: Seq<u32>) -> bool {
    first.len() <= all.len() && all.take(first.len() as int) == first
}

/// A step adds to what was asked and drawn at most.
proof fn lemma_asked_grows(a: RunView, b: RunView, request: Request)
    requires
        moves(a, b, request),
    ensures
        begins(b.asked, a.asked),
        starts(b.drawn, a.drawn),
{
    assert(b.asked.take(a.asked.len() as int) =~= a.asked);
}

proof fn lemma_starts_trans(a: Seq<u32>, b: Seq<u32>, c: Seq<u32>)
    requires
        starts(a, b),
        starts(b, c),
    ensures
        starts(a, c),
{
    assert(a.take(c.len() as int) =~= b.take(c.len() as int));
}

/// The order of simultaneous events rests on the scenario's seed and on what its
/// generator gives, and on nothing under fixed priority: the numbers of a run are
/// those that the generator has given.
pub proof fn law_ties_go_by_the_generator(
    s: Scenario,
    counter: BranchCounter,
    masks: Seq<Seq<char>>,
    to: RunView,
    n: nat,
)
    requires
        gets_to(RunView::start(s, counter, masks), to, n),
    ensures
        to.state.events.seed == s.seed,
        to.state.events.fixed_priority == s.fixed_priority,
        to.state.events.given == if s.fixed_priority {
            Seq::empty()
        } else {
            to.drawn
        },
    decreases n,
{
    let from = RunView::start(s, counter, masks);
    if n == 0 {
        lemma_start_keeps_rule(s, counter, masks);
    } else {
        let (p, r) = choose|mid: RunView, request: Request|
            gets_to(from, mid, (n - 1) as nat) && !(request is Halt) && #[trigger] moves(
                mid,
                to,
                request,
            );
        law_ties_go_by_the_generator(s, counter, masks, p, (n - 1) as nat);
        crate::progress::law_scenario_stays(p.readied(to.drawn), p.reply, to.state, r);
        assert(p.drawn + to.drawn.skip(p.drawn.len() as int) =~= to.drawn);
    }
}

/// Under fixed priority nothing but zeros stands for what is drawn.
proof fn lemma_nothing_drawn(from: RunView, to: RunView, n: nat)
    requires
        gets_to(from, to, n),
        from.state.events.fixed_priority,
        from.drawn.len() == 0,
    ensures
        to.state.events.fixed_priority,
        forall|k: int| 0 <= k < to.drawn.len() ==> #[trigger] to.drawn[k] == 0,
    decreases n,
{
    if n > 0 {
        let (p, r) = choose|mid: RunView, request: Request|
            gets_to(from, mid, (n - 1) as nat) && !(request is Halt) && #[trigger] moves(
                mid,
                to,
                request,
            );
        lemma_nothing_drawn(from, p, (n - 1) as nat);
        crate::progress::law_scenario_stays(p.readied(to.drawn), p.reply, to.state, r);
        assert forall|k: int| 0 <= k < to.drawn.len() implies #[trigger] to.drawn[k] == 0 by {
            let m = p.drawn.len() as int;
            if k < m {
                assert(to.drawn.take(m)[k] == p.drawn[k]);
            } else {
                assert(to.drawn.skip(m)[k - m] == 0);
            }
        }
    }
}

proof fn lemma_begins_trans(a: Seq<Exchange>, b: Seq<Exchange>, c: Seq<Exchange>)
    requires
        begins(a, b),
        begins(b, c),
    ensures
        begins(a, c),
{
    assert(a.take(c.len() as int) =~= b.take(c.len() as int));
}

/// Runs of schedulers that answer alike, for which the same numbers are drawn, are
/// the same after the same number of steps.
proof fn lemma_runs_alike(
    from: RunView,
    x: RunView,
    y: RunView,
    n: nat,
    a: Seq<Exchange>,
    b: Seq<Exchange>,
    u: Seq<u32>,
    v: Seq<u32>,
)
    requires
        gets_to(from, x, n),
        gets_to(from, y, n),
        begins(a, x.asked),
        begins(b, y.asked),
        answer_alike(a, b),
        starts(u, x.drawn),
        starts(v, y.drawn),
        drawn_alike(u, v),
    ensures
        x == y,
    decreases n,
{
    if n > 0 {
        let m = (n - 1) as nat;
        let (p, r) = choose|mid: RunView, request: Request|
            gets_to(from, mid, m) && !(request is Halt) && #[trigger] moves(mid, x, request);
        let (q, t) = choose|mid: RunView, request: Request|
            gets_to(from, mid, m) && !(request is Halt) && #[trigger] moves(mid, y, request);
        lemma_asked_grows(p, x, r);
        lemma_asked_grows(q, y, t);
        lemma_begins_trans(a, x.asked, p.asked);
        lemma_begins_trans(b, y.asked, q.asked);
        lemma_starts_trans(u, x.drawn, p.drawn);
        lemma_starts_trans(v, y.drawn, q.drawn);
        lemma_runs_alike(from, p, q, m, a, b, u, v);
        assert forall|k: int| 0 <= k < x.drawn.len() implies #[trigger] x.drawn[k]
            == y.drawn[k] by {
            assert(u.take(x.drawn.len() as int)[k] == u[k]);
            assert(v.take(y.drawn.len() as int)[k] == v[k]);
        }
        assert(x.drawn =~= y.drawn);
        law_each_step_is_determined(p.readied(x.drawn), p.reply, x.state, r, y.state, t);
        if for_scheduler(r) {
            let k = p.asked.len() as int;
            assert(a[k] == a.take(x.asked.len() as int)[k]);
            assert(b[k] == b.take(y.asked.len() as int)[k]);
            assert(a[k] == x.asked[k]);
            assert(b[k] == y.asked[k]);
            assert(a.take(k) == b.take(k));
            assert(x.asked.last() == y.asked.last());
        }
        assert(x =~= y);
    }
}

/// A run has been everywhere on its way.
proof fn lemma_on_the_way(from: RunView, to: RunView, n: nat, k: nat) -> (at: RunView)
    requires
        gets_to(from, to, n),
        k <= n,
    ensures
        gets_to(from, at, k),
        begins(to.asked, at.asked),
        starts(to.drawn, at.drawn),
        k < n ==> at.state.work.len() > 0,
        k == n ==> at == to,
    decreases n,
{
    if k == n {
        assert(to.asked.take(to.asked.len() as int) =~= to.asked);
        assert(to.drawn.take(to.drawn.len() as int) =~= to.drawn);
        to
    } else {
        let m = (n - 1) as nat;
        let (p, r) = choose|mid: RunView, request: Request|
            gets_to(from, mid, m) && !(request is Halt) && #[trigger] moves(mid, to, request);
        let at = lemma_on_the_way(from, p, m, k);
        lemma_asked_grows(p, to, r);
        lemma_begins_trans(to.asked, p.asked, at.asked);
        lemma_starts_trans(to.drawn, p.drawn, at.drawn);
        at
    }
}

/// Two runs that come to their ends, with schedulers that answer alike and the same
/// numbers drawn, come to the same.
proof fn lemma_ends_alike(from: RunView, x: RunView, n: nat, y: RunView, m: nat)
    requires
        gets_to(from, x, n),
        gets_to(from, y, m),
        x.state.work.len() == 0,
        y.state.work.len() == 0,
        answer_alike(x.asked, y.asked),
        drawn_alike(x.drawn, y.drawn),
    ensures
        x == y,
{
    assert(x.asked.take(x.asked.len() as int) =~= x.asked);
    assert(y.asked.take(y.asked.len() as int) =~= y.asked);
    assert(x.drawn.take(x.drawn.len() as int) =~= x.drawn);
    assert(y.drawn.take(y.drawn.len() as int) =~= y.drawn);
    if n <= m {
        let at = lemma_on_the_way(from, y, m, n);
        lemma_runs_alike(from, x, at, n, x.asked, y.asked, x.drawn, y.drawn);
    } else {
        let at = lemma_on_the_way(from, x, n, m);
        lemma_runs_alike(from, at, y, m, x.asked, y.asked, x.drawn, y.drawn);
    }
}

/// Whether two results are the same.
pub open spec fn same_result(a: SimulationResult, b: SimulationResult) -> bool {
    &&& a.trace.head() == b.trace.head()
    &&& a.trace.events@ == b.trace.events@
    &&& a.tasks@ == b.tasks@
    &&& a.exit@ == b.exit@
    &&& a.clock == b.clock
    &&& a.stats == b.stats
    &&& a.structops@ == b.structops@
}

/// Runs can be repeated: where the same numbers are drawn to order simultaneous
/// events, schedulers that answer alike as long as they are asked alike are asked the
/// same, and the results are the same. The observer makes no difference: it may be
/// another, or none.
pub proof fn law_runs_are_repeatable(
    s: Scenario,
    pmu_available: bool,
    masks: Seq<Seq<char>>,
    asked_a: Seq<Exchange>,
    shown_a: Seq<Look>,
    drawn_a: Seq<u32>,
    a: SimulationResult,
    asked_b: Seq<Exchange>,
    shown_b: Seq<Look>,
    drawn_b: Seq<u32>,
    b: SimulationResult,
)
    requires
        run_ok(s, pmu_available, masks, asked_a, shown_a, drawn_a, Ok(a)),
        run_ok(s, pmu_available, masks, asked_b, shown_b, drawn_b, Ok(b)),
        answer_alike(asked_a, asked_b),
        drawn_alike(drawn_a, drawn_b),
    ensures
        asked_a == asked_b,
        shown_a == shown_b,
        drawn_a == drawn_b,
        same_result(a, b),
{
    let from = RunView::start(s, spec_counter_for(s, pmu_available), masks);
    let (x, n) = choose|end: RunView, n: nat| #[trigger]
        gets_to(from, end, n) && ends_with(end, asked_a, shown_a, drawn_a, a);
    let (y, m) = choose|end: RunView, n: nat| #[trigger]
        gets_to(from, end, n) && ends_with(end, asked_b, shown_b, drawn_b, b);
    lemma_ends_alike(from, x, n, y, m);
}

/// Runs with fixed priority can be repeated, whatever is drawn: nothing is.
pub proof fn law_fixed_priority_makes_runs_repeatable(
    s: Scenario,
    pmu_available: bool,
    masks: Seq<Seq<char>>,
    asked_a: Seq<Exchange>,
    shown_a: Seq<Look>,
    drawn_a: Seq<u32>,
    a: SimulationResult,
    asked_b: Seq<Exchange>,
    shown_b: Seq<Look>,
    drawn_b: Seq<u32>,
    b: SimulationResult,
)
    requires
        s.fixed_priority,
        run_ok(s, pmu_available, masks, asked_a, shown_a, drawn_a, Ok(a)),
        run_ok(s, pmu_available, masks, asked_b, shown_b, drawn_b, Ok(b)),
        answer_alike(asked_a, asked_b),
    ensures
        asked_a == asked_b,
        shown_a == shown_b,
        same_result(a, b),
{
    let from = RunView::start(s, spec_counter_for(s, pmu_available), masks);
    lemma_start_keeps_rule(s, spec_counter_for(s, pmu_available), masks);
    let (x, n) = choose|end: RunView, n: nat| #[trigger]
        gets_to(from, end, n) && ends_with(end, asked_a, shown_a, drawn_a, a);
    let (y, m) = choose|end: RunView, n: nat| #[trigger]
        gets_to(from, end, n) && ends_with(end, asked_b, shown_b, drawn_b, b);
    lemma_nothing_drawn(from, x, n);
    lemma_nothing_drawn(from, y, m);
    lemma_ends_alike(from, x, n, y, m);
}

/// The rule for simultaneous events and the seed are the scenario's from the start.
proof fn lemma_start_keeps_rule(s: Scenario, counter: BranchCounter, masks: Seq<Seq<char>>)
    ensures
        SimView::initial(s, counter, masks).events == QueueView::empty(s.seed, s.fixed_priority),
        SimView::initial(s, counter, masks).head == start_head(s, masks),
{
    crate::calls::lemma_initial(s, counter, masks);
}

/// A run keeps its scenario, its CPUs and the head of its trace, and what it has
/// recorded once stays recorded to the end.
pub proof fn law_runs_keep_their_record(from: RunView, to: RunView, n: nat)
    requires
        gets_to(from, to, n),
    ensures
        to.state.scenario == from.state.scenario,
        to.state.cpus.len() == from.state.cpus.len(),
        to.state.head == from.state.head,
        from.state.trace.len() <= to.state.trace.len(),
        forall|i: int|
            0 <= i < from.state.trace.len() ==> #[trigger] to.state.trace[i]
                == from.state.trace[i],
    decreases n,
{
    if n > 0 {
        let (p, r) = choose|mid: RunView, request: Request|
            gets_to(from, mid, (n - 1) as nat) && !(request is Halt) && #[trigger] moves(
                mid,
                to,
                request,
            );
        law_runs_keep_their_record(from, p, (n - 1) as nat);
        crate::progress::law_scenario_stays(p.readied(to.drawn), p.reply, to.state, r);
        crate::progress::law_record_stays(p.readied(to.drawn), p.reply, to.state, r);
    }
}

/// Runs scenarios against a scheduler.
pub struct Simulator<S: Scheduler> {
    pub scheduler: S,
    /// Whether the processor can count branches.
    pub pmu_available: bool,
}

/// An answer that says nothing but that an error was raised, if one was.
fn no_reply(error: Option<String>) -> (r: Reply)
    ensures
        r@ == ReplyView::silent(crate::state::text_view(error)),
        forall|n: nat| r@.ok(n),
{
    Reply {
        value: 0,
        cost: Cost { branches: 0, final_interval: 0, kfunc_calls: 0, kfunc_ns: 0 },
        slice: 0,
        sum_exec: 0,
        budget: None,
        direct: None,
        records: Vec::new(),
        kicks: Vec::new(),
        timers: Vec::new(),
        inserts: Vec::new(),
        budget_events: Vec::new(),
        error,
    }
}

impl<S: Scheduler> Simulator<S> {
    /// A simulator of a scheduler.
    pub fn new(scheduler: S, pmu_available: bool) -> (r: Simulator<S>)
        ensures
            r.scheduler == scheduler,
            r.pmu_available == pmu_available,
    {
        Simulator { scheduler, pmu_available }
    }

    /// Runs a scenario to its end.
    pub fn run(&mut self, scenario: Scenario) -> (r: Result<SimulationResult, HaltReason>)
        requires
            scenario_ok(scenario),
        ensures
            final(self).pmu_available == old(self).pmu_available,
            logs_on(old(self).scheduler.log(), final(self).scheduler.log()),
            exists|shown: Seq<Look>, drawn: Seq<u32>| #[trigger]
                run_ok(
                    scenario,
                    old(self).pmu_available,
                    masks_of::<S>(scenario),
                    since(old(self).scheduler.log(), final(self).scheduler.log()),
                    shown,
                    drawn,
                    r,
                ),
    {
        let mut monitor = NoopMonitor::new();
        self.run_monitored(scenario, &mut monitor)
    }

    /// The texts of the tasks' CPU masks.
    fn mask_texts(&mut self, scenario: &Scenario) -> (r: Vec<String>)
        ensures
            texts_view(r@) == masks_of::<S>(*scenario),
            final(self).pmu_available == old(self).pmu_available,
            final(self).scheduler.log() == old(self).scheduler.log(),
    {
        let mut r: Vec<String> = Vec::new();
        let mut i: usize = 0;
        while i < scenario.tasks.len()
            invariant
                i <= scenario.tasks@.len(),
                texts_view(r@) == masks_of::<S>(*scenario).take(i as int),
                self.pmu_available == old(self).pmu_available,
                self.scheduler.log() == old(self).scheduler.log(),
            decreases scenario.tasks@.len() - i,
        {
            let ghost before = r@;
            r.push(
                self.scheduler.cpumask_hex(&scenario.tasks[i].allowed_cpus, scenario.nr_cpus),
            );
            i = i + 1;
            proof {
                assert(texts_view(r@) =~= texts_view(before).push(r@.last()@));
                assert(texts_view(r@) =~= masks_of::<S>(*scenario).take(i as int));
            }
        }
        proof {
            assert(masks_of::<S>(*scenario).take(i as int) =~= masks_of::<S>(*scenario));
        }
        r
    }

    /// Runs a scenario to its end while an observer looks on. Answers that
    /// name a CPU or a timer slot that does not exist are an error of the
    /// scheduler.
    pub fn run_monitored<M: Monitor>(&mut self, scenario: Scenario, monitor: &mut M) -> (r: Result<
        SimulationResult,
        HaltReason,
    >)
        requires
            scenario_ok(scenario),
        ensures
            final(self).pmu_available == old(self).pmu_available,
            logs_on(old(self).scheduler.log(), final(self).scheduler.log()),
            looks_on(old(monitor).seen(), final(monitor).seen()),
            exists|drawn: Seq<u32>| #[trigger]
                run_ok(
                    scenario,
                    old(self).pmu_available,
                    masks_of::<S>(scenario),
                    since(old(self).scheduler.log(), final(self).scheduler.log()),
                    final(monitor).seen().skip(old(monitor).seen().len() as int),
                    drawn,
                    r,
                ),
    {
        let counter = counter_for(&scenario, self.pmu_available);
        let masks = self.mask_texts(&scenario);
        let ghost s = scenario;
        let ghost texts = texts_view(masks@);
        let ghost log = old(self).scheduler.log();
        let ghost seen = old(monitor).seen();
        let ghost from = RunView::start(s, counter, texts);
        let mut state = SimState::prepare(scenario, counter, masks);
        let mut reply = no_reply(None);
        let mut fuel: u64 = u64::MAX;
        let ghost mut run = from;
        proof {
            lemma_start_keeps_rule(s, counter, texts);
            assert(since(log, self.scheduler.log()) =~= Seq::empty());
            assert(monitor.seen().skip(seen.len() as int) =~= Seq::empty());
            assert(log.take(log.len() as int) =~= log);
            assert(seen.take(seen.len() as int) =~= seen);
        }
        while !state.is_done()
            invariant
                state.wf(),
                s == scenario,
                texts == masks_of::<S>(scenario),
                log == old(self).scheduler.log(),
                seen == old(monitor).seen(),
                self.pmu_available == old(self).pmu_available,
                counter == spec_counter_for(s, old(self).pmu_available),
                from == RunView::start(s, counter, texts),
                from.state.head == start_head(s, texts),
                logs_on(log, self.scheduler.log()),
                looks_on(seen, monitor.seen()),
                run.state == state@,
                run.reply == reply@,
                run.asked == since(log, self.scheduler.log()),
                run.shown == monitor.seen().skip(seen.len() as int),
                reply@.ok(state@.cpus.len()),
                gets_to(from, run, (u64::MAX - fuel) as nat),
            decreases fuel,
        {
            if fuel == 0 || state.nr_events() > u64::MAX - EVENTS_PER_STEP as u64 {
                assert(runs_out(run, (u64::MAX - fuel) as nat));
                assert(run_ok(
                    s,
                    old(self).pmu_available,
                    texts,
                    run.asked,
                    run.shown,
                    run.drawn,
                    Err(HaltReason::OutOfRange),
                ));
                return Err(HaltReason::OutOfRange);
            }
            let ghost before = run;
            proof {
                state.lemma_wf();
            }
            state.supply();
            let ghost ready = state@;
            let ghost new = choose|new: Seq<u32>|
                {
                    &&& ready == #[trigger] before.state.supplied(new)
                    &&& before.state.events.may_draw(new)
                    &&& new.len() == before.state.events.lacks(EVENTS_PER_STEP as nat)
                };
            let ghost drawn = before.drawn + new;
            proof {
                assert(drawn.skip(before.drawn.len() as int) =~= new);
                assert(drawn.take(before.drawn.len() as int) =~= before.drawn);
            }
            let request = state.step(&reply);
            proof {
                crate::progress::law_scenario_stays(ready, before.reply, state@, request);
                run = RunView { state: state@, drawn, ..before };
            }
            match request {
                Request::Continue | Request::Finished => {
                    assert(moves(before, run, request));
                },
                Request::Halt(why) => {
                    assert(moves(before, run, Request::Halt(why)));
                    assert(halts(before, why));
                    assert(run_ok(
                        s,
                        old(self).pmu_available,
                        texts,
                        before.asked,
                        before.shown,
                        before.drawn,
                        Err(why),
                    ));
                    return Err(why);
                },
                Request::Probe { point, pid, cpu, time_ns } => {
                    let ghost looked = monitor.seen();
                    monitor.sample(point, pid, cpu, time_ns, state.trace());
                    proof {
                        let look = Look {
                            point,
                            pid,
                            cpu,
                            time_ns,
                            head: state@.head,
                            events: state@.trace,
                        };
                        run = RunView { shown: before.shown.push(look), ..run };
                        assert(monitor.seen().skip(seen.len() as int) =~= run.shown);
                        assert(monitor.seen().take(seen.len() as int) =~= looked.take(
                            seen.len() as int,
                        ));
                        assert(moves(before, run, request));
                    }
                },
                _ => {
                    let ghost logged = self.scheduler.log();
                    reply = self.scheduler.answer(request, &state);
                    let ghost answer = reply@;
                    if !reply.is_ok(state.nr_cpus()) {
                        reply = no_reply(Some(BAD_ANSWER.to_string()));
                    }
                    proof {
                        let e = Exchange { request, state: state@, reply: answer };
                        run = RunView { asked: before.asked.push(e), reply: reply@, ..run };
                        assert(since(log, self.scheduler.log()) =~= run.asked);
                        assert(self.scheduler.log().take(log.len() as int) =~= logged.take(
                            log.len() as int,
                        ));
                        assert(reply@ == heard(answer, state@.cpus.len()));
                        assert(moves(before, run, request));
                    }
                },
            }
            fuel = fuel - 1;
        }
        proof {
            law_runs_keep_their_record(from, run, (u64::MAX - fuel) as nat);
        }
        let r = state.into_result();
        assert(ends_with(run, run.asked, run.shown, run.drawn, r));
        assert(run_ok(
            s,
            old(self).pmu_available,
            texts,
            run.asked,
            run.shown,
            run.drawn,
            Ok(r),
        ));
        Ok(r)
    }
}

/// The error of a scheduler whose answer names what does not exist.
pub const BAD_ANSWER: &'static str = "the scheduler named a CPU or a timer that does not exist";

/// Whether a log goes on from another.
pub open spec fn logs_on(before: Seq<Exchange>, after: Seq<Exchange>) -> bool {
    before.len() <= after.len() && after.take(before.len() as int) == before
}

/// What a log holds that an earlier one does not.
pub open spec fn since(before: Seq<Exchange>, after: Seq<Exchange>) -> Seq<Exchange> {
    after.skip(before.len() as int)
}

/// Whether what was shown goes on from what was shown before.
pub open spec fn looks_on(before: Seq<Look>, after: Seq<Look>) -> bool {
    before.len() <= after.len() && after.take(before.len() as int) == before
}

/// The texts that a scheduler gives for the tasks' CPU masks.
pub open spec fn masks_of<S: Scheduler>(s: Scenario) -> Seq<Seq<char>> {
    Seq::new(
        s.tasks@.len(),
        |i: int| S::mask_text(cpuset_view(s.tasks@[i].allowed_cpus), s.nr_cpus),
    )
}

/// Whether a run has come to its end, after these exchanges, looks and draws and with
/// this result.
pub open spec fn ends_with(
    end: RunView,
    asked: Seq<Exchange>,
    shown: Seq<Look>,
    drawn: Seq<u32>,
    result: SimulationResult,
) -> bool {
    &&& end.state.work.len() == 0
    &&& end.asked == asked
    &&& end.shown == shown
    &&& end.drawn == drawn
    &&& result.trace.head() == end.state.head
    &&& result.trace.events@ == end.state.trace
    &&& result.tasks@ == end.state.tasks
    &&& result.exit@ == end.state.exit
    &&& result.clock == end.state.clock
    &&& result.stats == end.state.stats
    &&& result.structops@ == end.state.accum
}

/// Whether the next step of a run halts it.
pub open spec fn halts(at: RunView, why: HaltReason) -> bool {
    exists|next: RunView| #[trigger] moves(at, next, Request::Halt(why))
}

/// Whether a run with work left has gone on for so long that its steps or its
/// events can no longer be counted.
pub open spec fn runs_out(at: RunView, n: nat) -> bool {
    at.state.work.len() > 0 && (n >= u64::MAX || at.state.events.count > u64::MAX - EVENTS_PER_STEP)
}

/// What a run of a scenario gives. The steps follow from what the scheduler was
/// asked and answered and from the numbers drawn, and from nothing else, and the
/// observer was shown what they say. The result is that of the state in which nothing is left to do; or the
/// reason for which the simulation could not go on, be it that it went on for too
/// long.
pub open spec fn run_ok(
    s: Scenario,
    pmu_available: bool,
    masks: Seq<Seq<char>>,
    asked: Seq<Exchange>,
    shown: Seq<Look>,
    drawn: Seq<u32>,
    r: Result<SimulationResult, HaltReason>,
) -> bool {
    let from = RunView::start(s, spec_counter_for(s, pmu_available), masks);
    match r {
        Ok(result) => {
            &&& result.trace.head() == start_head(s, masks)
            &&& exists|end: RunView, n: nat| #[trigger]
                gets_to(from, end, n) && ends_with(end, asked, shown, drawn, result)
        },
        Err(why) => exists|at: RunView, n: nat|
            {
                &&& #[trigger] gets_to(from, at, n)
                &&& at.asked == asked
                &&& at.shown == shown
                &&& at.drawn == drawn
                &&& halts(at, why) || (why == HaltReason::OutOfRange && runs_out(at, n))
            },
    }
}

/// An answer counts as it is, unless it names a CPU or a timer slot that does not exist:
/// then it is an error and nothing of it counts.
pub proof fn law_answers_that_name_nothing_are_errors(a: ReplyView, n: nat, i: int)
    ensures
        ({
            let bad = (a.direct is Some && (a.direct->0).0 >= n) || (0 <= i < a.kicks.len()
                && a.kicks[i].cpu.0 >= n) || (0 <= i < a.timers.len() && (a.timers[i].cpu.0 >= n
                || a.timers[i].slot >= 8)) || (0 <= i < a.inserts.len() && a.inserts[i].cpu.0 >= n);
            let h = heard(a, n);
            &&& bad ==> {
                &&& h.error == Some(BAD_ANSWER@)
                &&& h.value == 0 && h.slice == 0 && h.sum_exec == 0 && h.budget is None
                    && h.direct is None
                &&& h.records.len() == 0 && h.kicks.len() == 0 && h.timers.len() == 0
                    && h.inserts.len() == 0 && h.budget_events.len() == 0
                &&& h.cost.branches == 0 && h.cost.kfunc_calls == 0 && h.cost.kfunc_ns == 0
            }
            &&& h != a ==> !a.ok(n)
        }),
{
}

/// The scheduler is asked everything but what only concerns the run itself and what an
/// observer looks at.
pub proof fn law_the_scheduler_is_asked_what_concerns_it(request: Request)
    ensures
        for_scheduler(request) <==> !(request == Request::Continue || request == Request::Finished
            || request is Halt || request is Probe),
{
}

/// A run goes on exactly one step at a time: what the scheduler is asked and what it
/// answers is kept, what an observer is shown is kept, and nothing else is.
pub proof fn law_a_step_keeps_what_was_said(a: RunView, b: RunView, request: Request)
    requires
        moves(a, b, request),
    ensures
        for_scheduler(request) ==> b.asked.len() == a.asked.len() + 1 && b.asked.last().request
            == request && b.asked.drop_last() == a.asked,
        !for_scheduler(request) ==> b.asked == a.asked && b.reply == a.reply,
        request is Probe ==> b.shown.len() == a.shown.len() + 1 && b.shown.drop_last() == a.shown
            && b.shown.last().events == b.state.trace,
        !(request is Probe) ==> b.shown == a.shown,
{
    if for_scheduler(request) {
        assert(b.asked.drop_last() =~= a.asked);
    }
    if request is Probe {
        assert(b.shown.drop_last() =~= a.shown);
    }
}

} // verus!
