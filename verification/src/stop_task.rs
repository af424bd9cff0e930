//! Taking a task off its CPU: at the end of its slice, by preemption, or when
//! its phase is complete.

use vstd::prelude::*;

use crate::event_queue::{EventKind, WakerInfo};
use crate::progress::lemma_task_at;
use crate::run_task::{delay, delay_of, Step};
use crate::scenario::Phase;
use crate::sim_state::{add_sat, sat, SimState, SimView};
use crate::state::{
    OpsTaskState, ProbePoint, Reply, ReplyView, Request, SimCpu, SimTask, TaskState, Work,
};
use crate::trace::TraceKind;
use crate::types::{CpuId, Pid, TimeNs};

verus! {

/// The flag of a dequeue because the task sleeps.
pub const SCX_DEQ_SLEEP: u64 = 1;

impl SimView {
    /// A CPU that no longer runs a task.
    pub open spec fn vacated(self, cpu: CpuId, pid: Pid) -> SimView {
        self.set_cpu(
            cpu,
            SimCpu {
                current_task: None,
                prev_task: Some(pid),
                task_started_at: None,
                task_original_slice: None,
                ..self.cpu(cpu)
            },
        )
    }

    /// With the time stolen by interrupts given back: what was due is due
    /// again that much later.
    pub open spec fn postponed(self, cpu: CpuId, kind: EventKind) -> SimView {
        self.set_cpu(cpu, SimCpu { irq_stolen_ns: 0, ..self.cpu(cpu) }).event(
            sat(self.cpu(cpu).local_clock + self.cpu(cpu).irq_stolen_ns),
            kind,
        )
    }

    /// With the time a task ran recorded against its control group.
    pub open spec fn bw_charged(self, cpu: CpuId, t: SimTask, consumed: TimeNs) -> SimView {
        if consumed > 0 && t.cgid is Some {
            self.record_now(
                cpu,
                TraceKind::CgroupBwCharge { pid: t.pid, cgid: t.cgid->0, delta_ns: consumed },
            )
        } else {
            self
        }
    }

    /// A task's time is up.
    pub open spec fn slice_expired(self, cpu: CpuId) -> Step {
        let c = self.cpu(cpu);
        if c.irq_stolen_ns > 0 {
            (self.postponed(cpu, EventKind::SliceExpired { cpu }), Request::Continue)
        } else {
            match c.current_task {
                Some(pid) if self.find(pid) is Some => (
                    self.then_do(Work::SliceRead { cpu, pid }),
                    Request::Slice { pid },
                ),
                _ => (self, Request::Continue),
            }
        }
    }

    /// The whole slice was used.
    pub open spec fn slice_read(self, r: ReplyView, cpu: CpuId, pid: Pid) -> Step {
        match self.find(pid) {
            None => (self, Request::Continue),
            Some(i) => {
                let t = self.tasks[i];
                self.set_task(
                    i,
                    SimTask {
                        run_remaining_ns: sat(t.run_remaining_ns - r.slice),
                        state: TaskState::Runnable,
                        ..t
                    },
                ).stop(cpu, pid, r.slice, 0, true)
            },
        }
    }

    /// The running task is preempted; what it did not use of its slice is
    /// left.
    pub open spec fn preempt(self, cpu: CpuId) -> Step {
        let c = self.cpu(cpu);
        match c.current_task {
            None => (self, Request::Continue),
            Some(pid) => match self.find(pid) {
                None => (self, Request::Continue),
                Some(i) => {
                    let t = self.tasks[i];
                    let since = match c.task_started_at {
                        Some(at) => at,
                        None => c.local_clock,
                    };
                    let consumed = sat(c.local_clock - since);
                    let slice = match c.task_original_slice {
                        Some(sl) => sl,
                        None => 0,
                    };
                    self.record_now(cpu, TraceKind::TaskPreempted { pid }).set_task(
                        i,
                        SimTask {
                            run_remaining_ns: sat(t.run_remaining_ns - consumed),
                            state: TaskState::Runnable,
                            ..t
                        },
                    ).stop(cpu, pid, consumed, sat(slice - consumed), false)
                },
            },
        }
    }

    /// The CPU is vacated and the cost of the switch asked for.
    pub open spec fn stop(
        self,
        cpu: CpuId,
        pid: Pid,
        consumed: TimeNs,
        left: TimeNs,
        expired: bool,
    ) -> Step {
        (
            self.vacated(cpu, pid).then_do(Work::Stopped { cpu, pid, consumed, left, expired }),
            Request::SwitchCost { voluntary: false },
        )
    }

    /// The scheduler hears that the task stops, then gets it back.
    pub open spec fn stopped(
        self,
        r: ReplyView,
        cpu: CpuId,
        pid: Pid,
        consumed: TimeNs,
        left: TimeNs,
        expired: bool,
    ) -> Step {
        match self.find(pid) {
            None => (self, Request::Continue),
            Some(i) => {
                let t = self.tasks[i];
                (
                    self.add_clock(cpu, delay(r.value) as int).bw_charged(cpu, t, consumed).then_do(
                        Work::Requeue { cpu, pid, expired },
                    ).then_do(Work::Probe { point: ProbePoint::Stopping, pid, cpu }).then_call(
                        cpu,
                        Request::Stopping {
                            cpu,
                            pid,
                            runnable: true,
                            slice: left,
                            sum_exec: sat(t.sum_exec_base + consumed),
                        },
                        None,
                    ),
                    Request::Continue,
                )
            },
        }
    }

    /// With what the scheduler holds of a task changed.
    pub open spec fn set_ops(self, pid: Pid, ops_state: OpsTaskState) -> SimView {
        match self.find(pid) {
            None => self,
            Some(i) => self.set_task(i, SimTask { ops_state, ..self.tasks[i] }),
        }
    }

    /// The task goes back to the scheduler.
    pub open spec fn requeue(self, cpu: CpuId, pid: Pid, expired: bool) -> Step {
        let s1 = if expired {
            self.record_now(cpu, TraceKind::PutPrevTask { pid, still_runnable: true })
        } else {
            self
        };
        (
            s1.set_ops(pid, OpsTaskState::Queued).then_do(
                Work::Requeued { cpu, pid, expired },
            ).then_call_free(cpu, Request::Enqueue { cpu, pid, flags: 0 }),
            Request::Continue,
        )
    }

    /// Kicks go out and the CPU looks for another task.
    pub open spec fn then_next_task(self, cpu: CpuId) -> SimView {
        self.then_do(Work::TryDispatch { cpu }).then_do(Work::FlushStaged)
    }

    /// The task is back with the scheduler.
    pub open spec fn requeued(self, cpu: CpuId, pid: Pid, expired: bool) -> Step {
        let s1 = if expired {
            self.record_now(cpu, TraceKind::EnqueueTask { pid, enq_flags: 0 }).record_now(
                cpu,
                TraceKind::TaskPreempted { pid },
            )
        } else {
            self
        };
        (s1.then_next_task(cpu), Request::Continue)
    }

    /// A task has done the work of its phase.
    pub open spec fn phase_complete(self, cpu: CpuId) -> Step {
        let c = self.cpu(cpu);
        if c.irq_stolen_ns > 0 {
            (self.postponed(cpu, EventKind::TaskPhaseComplete { cpu }), Request::Continue)
        } else {
            match c.current_task {
                Some(pid) if self.find(pid) is Some => (
                    self.then_do(Work::PhaseSlice { cpu, pid }),
                    Request::Slice { pid },
                ),
                _ => (self, Request::Continue),
            }
        }
    }

    /// The task enters its next phase and leaves the CPU. It stays runnable
    /// if the next phase computes.
    pub open spec fn phase_slice(self, r: ReplyView, cpu: CpuId, pid: Pid) -> Step {
        match self.find(pid) {
            None => (self, Request::Continue),
            Some(i) => {
                let t = self.tasks[i];
                let consumed = t.run_remaining_ns;
                let has_next = self.has_next_phase(t);
                let moved = self.advance_phase(t);
                let next = self.current_phase(moved);
                let still_runnable = has_next && next is Some && next->0 is Run;
                (
                    self.set_task(i, moved).vacated(cpu, pid).then_do(
                        Work::PhaseStopped {
                            cpu,
                            pid,
                            consumed,
                            left: sat(r.slice - consumed),
                            has_next,
                            still_runnable,
                        },
                    ),
                    Request::SwitchCost { voluntary: true },
                )
            },
        }
    }

    /// The scheduler hears that the task stops.
    pub open spec fn phase_stopped(
        self,
        r: ReplyView,
        cpu: CpuId,
        pid: Pid,
        consumed: TimeNs,
        left: TimeNs,
        has_next: bool,
        still_runnable: bool,
    ) -> Step {
        match self.find(pid) {
            None => (self, Request::Continue),
            Some(i) => {
                let t = self.tasks[i];
                (
                    self.add_clock(cpu, delay(r.value) as int).bw_charged(cpu, t, consumed).then_do(
                        Work::PhaseAfter { cpu, pid, has_next, still_runnable },
                    ).then_do(Work::Probe { point: ProbePoint::Stopping, pid, cpu }).then_call(
                        cpu,
                        Request::Stopping {
                            cpu,
                            pid,
                            runnable: still_runnable,
                            slice: left,
                            sum_exec: sat(t.sum_exec_base + consumed),
                        },
                        None,
                    ),
                    Request::Continue,
                )
            },
        }
    }

    /// A task that is no longer runnable leaves the scheduler's queues and
    /// goes quiet.
    pub open spec fn phase_after(
        self,
        cpu: CpuId,
        pid: Pid,
        has_next: bool,
        still_runnable: bool,
    ) -> Step {
        match self.find(pid) {
            None => (self, Request::Continue),
            Some(i) => {
                let s1 = self.then_do(Work::PhaseNext { cpu, pid, has_next, still_runnable });
                let f = SCX_DEQ_SLEEP;
                (
                    if still_runnable {
                        s1
                    } else {
                        let s2 = s1.then_do(
                            Work::Probe { point: ProbePoint::Quiescent, pid, cpu },
                        ).then_call(
                            cpu,
                            Request::Quiescent { cpu, pid, flags: f },
                            Some(TraceKind::Quiescent { pid, deq_flags: f }),
                        );
                        if self.tasks[i].ops_state is Queued {
                            s2.then_do(
                                Work::SetOps { pid, ops_state: OpsTaskState::Free },
                            ).then_call(
                                cpu,
                                Request::Dequeue { cpu, pid, flags: f },
                                Some(TraceKind::Dequeue { pid, deq_flags: f }),
                            )
                        } else {
                            s2
                        }
                    },
                    Request::Continue,
                )
            },
        }
    }

    /// With a task that will not run again.
    pub open spec fn exited(self, i: int, at: TimeNs, cpu: CpuId) -> SimView {
        let t = self.tasks[i];
        self.set_task(i, SimTask { state: TaskState::Exited, ..t }).record(
            at,
            cpu,
            TraceKind::TaskCompleted { pid: t.pid },
        )
    }

    /// The task is off the CPU; its next phase begins.
    pub open spec fn phase_next(
        self,
        cpu: CpuId,
        pid: Pid,
        has_next: bool,
        still_runnable: bool,
    ) -> Step {
        match self.find(pid) {
            None => (self, Request::Continue),
            Some(i) => {
                let now = self.cpu(cpu).local_clock;
                let s1 = self.record_now(
                    cpu,
                    TraceKind::PutPrevTask { pid, still_runnable },
                ).then_next_task(cpu);
                (
                    if has_next {
                        s1.then_do(Work::PhaseChain { cpu, pid, at: now })
                    } else {
                        s1.exited(i, now, cpu)
                    },
                    Request::Continue,
                )
            },
        }
    }

    /// The phase that a task is in takes effect: it sleeps and is woken when
    /// its sleep ends within the simulation, or it goes back to the scheduler,
    /// or it wakes another task and enters its next phase at once.
    pub open spec fn phase_chain(self, cpu: CpuId, pid: Pid, at: TimeNs) -> Step {
        match self.find(pid) {
            None => (self, Request::Continue),
            Some(i) => {
                let t = self.tasks[i];
                (
                    match self.current_phase(t) {
                        Some(Phase::Sleep(ns)) => {
                            let s1 = self.set_task(
                                i,
                                SimTask { state: TaskState::Sleeping, ..t },
                            ).record(at, cpu, TraceKind::TaskSlept { pid });
                            if sat(at + ns) <= self.scenario.duration_ns {
                                s1.event(
                                    sat(at + ns),
                                    EventKind::TaskWake { pid, waker: None, cpu: t.prev_cpu },
                                )
                            } else {
                                s1
                            }
                        },
                        Some(Phase::Run(ns)) => self.set_task(
                            i,
                            SimTask {
                                state: TaskState::Runnable,
                                ops_state: OpsTaskState::Queued,
                                ..t
                            },
                        ).then_do(Work::PhaseYielded { cpu, pid }).then_call_free(
                            cpu,
                            Request::Enqueue { cpu, pid, flags: 0 },
                        ),
                        Some(Phase::Wake(target)) => {
                            let s1 = self.event(
                                at,
                                EventKind::TaskWake {
                                    pid: target,
                                    waker: Some(WakerInfo { pid, cpu }),
                                    cpu,
                                },
                            ).set_task(i, self.advance_phase(t));
                            if self.has_next_phase(t) {
                                s1.then_do(Work::PhaseChain { cpu, pid, at })
                            } else {
                                s1.exited(i, at, cpu)
                            }
                        },
                        None => self.exited(i, at, cpu),
                    },
                    Request::Continue,
                )
            },
        }
    }

    /// The task yielded.
    pub open spec fn phase_yielded(self, cpu: CpuId, pid: Pid) -> Step {
        (
            self.record_now(cpu, TraceKind::EnqueueTask { pid, enq_flags: 0 }).record_now(
                cpu,
                TraceKind::TaskYielded { pid },
            ),
            Request::Continue,
        )
    }
}

/// Time stolen by interrupts delays the end of a run by exactly that time, and
/// is given back once.
pub proof fn law_stolen_time_delays_the_end(s: SimView, cpu: CpuId)
    requires
        cpu.0 < s.cpus.len(),
        s.cpu(cpu).irq_stolen_ns > 0,
    ensures
        ({
            let c = s.cpu(cpu);
            let due = sat(c.local_clock + c.irq_stolen_ns);
            &&& s.slice_expired(cpu).0.events == s.events.push(due, EventKind::SliceExpired { cpu })
            &&& s.slice_expired(cpu).0.cpu(cpu).irq_stolen_ns == 0
            &&& s.phase_complete(cpu).0.events == s.events.push(
                due,
                EventKind::TaskPhaseComplete { cpu },
            )
            &&& s.phase_complete(cpu).0.cpu(cpu).irq_stolen_ns == 0
            &&& s.slice_expired(cpu).0.tasks == s.tasks
            &&& s.phase_complete(cpu).0.tasks == s.tasks
        }),
{
}

/// A preempted task keeps the rest of its work: what it ran is taken off once.
pub proof fn law_preemption_keeps_the_work(s: SimView, cpu: CpuId)
    requires
        cpu.0 < s.cpus.len(),
        s.cpu(cpu).current_task is Some,
        s.find(s.cpu(cpu).current_task->0) is Some,
        s.cpu(cpu).task_started_at is Some,
        s.cpu(cpu).task_started_at->0 <= s.cpu(cpu).local_clock,
    ensures
        ({
            let i = s.find(s.cpu(cpu).current_task->0)->0;
            let ran = s.cpu(cpu).local_clock - s.cpu(cpu).task_started_at->0;
            let after = s.preempt(cpu).0;
            &&& after.tasks[i].run_remaining_ns == sat(s.tasks[i].run_remaining_ns - ran)
            &&& after.tasks[i].state is Runnable
            &&& after.cpu(cpu).current_task is None
        }),
{
    lemma_task_at(s.tasks, s.cpu(cpu).current_task->0);
}

impl SimState {
    fn vacate(&mut self, cpu: CpuId, pid: Pid)
        requires
            old(self).wf(),
            cpu.0 < old(self)@.cpus.len(),
        ensures
            final(self).wf(),
            final(self)@ == old(self)@.vacated(cpu, pid),
    {
        let mut c = self.cpu(cpu);
        c.current_task = None;
        c.prev_task = Some(pid);
        c.task_started_at = None;
        c.task_original_slice = None;
        self.put_cpu(cpu, c);
    }

    fn postpone(&mut self, cpu: CpuId, kind: EventKind)
        requires
            old(self).wf(),
            old(self)@.has_room(),
            cpu.0 < old(self)@.cpus.len(),
            crate::sim_state::kind_ok(kind, old(self)@.cpus.len(), old(self)@.scenario),
        ensures
            final(self).wf(),
            final(self)@ == old(self)@.postponed(cpu, kind),
    {
        let mut c = self.cpu(cpu);
        let due = add_sat(c.local_clock, c.irq_stolen_ns);
        c.irq_stolen_ns = 0;
        self.put_cpu(cpu, c);
        self.push_event(due, kind);
    }

    fn charge_cgroup_bw(&mut self, cpu: CpuId, t: &SimTask, consumed: TimeNs)
        requires
            old(self).wf(),
            cpu.0 < old(self)@.cpus.len(),
        ensures
            final(self).wf(),
            final(self)@ == old(self)@.bw_charged(cpu, *t, consumed),
    {
        if consumed > 0 {
            if let Some(cgid) = t.cgid {
                self.record_now(
                    cpu,
                    TraceKind::CgroupBwCharge { pid: t.pid, cgid, delta_ns: consumed },
                );
            }
        }
    }

    pub(crate) fn slice_expired(&mut self, cpu: CpuId) -> (r: Request)
        requires
            old(self).wf(),
            old(self)@.has_room(),
            cpu.0 < old(self)@.cpus.len(),
        ensures
            final(self).wf(),
            (final(self)@, r) == old(self)@.slice_expired(cpu),
    {
        let c = self.cpu(cpu);
        if c.irq_stolen_ns > 0 {
            self.postpone(cpu, EventKind::SliceExpired { cpu });
            return Request::Continue;
        }
        if let Some(pid) = c.current_task {
            if self.find_task(pid).is_some() {
                self.then_do(Work::SliceRead { cpu, pid });
                return Request::Slice { pid };
            }
        }
        Request::Continue
    }

    fn stop(
        &mut self,
        cpu: CpuId,
        pid: Pid,
        consumed: TimeNs,
        left: TimeNs,
        expired: bool,
    ) -> (r: Request)
        requires
            old(self).wf(),
            cpu.0 < old(self)@.cpus.len(),
        ensures
            final(self).wf(),
            (final(self)@, r) == old(self)@.stop(cpu, pid, consumed, left, expired),
    {
        self.vacate(cpu, pid);
        self.then_do(Work::Stopped { cpu, pid, consumed, left, expired });
        Request::SwitchCost { voluntary: false }
    }

    pub(crate) fn slice_read(&mut self, reply: &Reply, cpu: CpuId, pid: Pid) -> (r: Request)
        requires
            old(self).wf(),
            cpu.0 < old(self)@.cpus.len(),
        ensures
            final(self).wf(),
            (final(self)@, r) == old(self)@.slice_read(reply@, cpu, pid),
    {
        proof {
            self.lemma_wf();
        }
        match self.find_task(pid) {
            None => Request::Continue,
            Some(i) => {
                let mut t = self.task(i);
                t.run_remaining_ns = t.run_remaining_ns.saturating_sub(reply.slice);
                t.state = TaskState::Runnable;
                self.put_task(i, t);
                self.stop(cpu, pid, reply.slice, 0, true)
            },
        }
    }

    pub(crate) fn preempt(&mut self, cpu: CpuId) -> (r: Request)
        requires
            old(self).wf(),
            cpu.0 < old(self)@.cpus.len(),
        ensures
            final(self).wf(),
            (final(self)@, r) == old(self)@.preempt(cpu),
    {
        proof {
            self.lemma_wf();
        }
        let c = self.cpu(cpu);
        if let Some(pid) = c.current_task {
            if let Some(i) = self.find_task(pid) {
                let mut t = self.task(i);
                let since = match c.task_started_at {
                    Some(at) => at,
                    None => c.local_clock,
                };
                let consumed = c.local_clock.saturating_sub(since);
                let slice: TimeNs = match c.task_original_slice {
                    Some(sl) => sl,
                    None => 0,
                };
                self.record_now(cpu, TraceKind::TaskPreempted { pid });
                t.run_remaining_ns = t.run_remaining_ns.saturating_sub(consumed);
                t.state = TaskState::Runnable;
                self.put_task(i, t);
                return self.stop(cpu, pid, consumed, slice.saturating_sub(consumed), false);
            }
        }
        Request::Continue
    }

    pub(crate) fn stopped(
        &mut self,
        reply: &Reply,
        cpu: CpuId,
        pid: Pid,
        consumed: TimeNs,
        left: TimeNs,
        expired: bool,
    ) -> (r: Request)
        requires
            old(self).wf(),
            cpu.0 < old(self)@.cpus.len(),
        ensures
            final(self).wf(),
            (final(self)@, r) == old(self)@.stopped(reply@, cpu, pid, consumed, left, expired),
    {
        match self.find_task(pid) {
            None => {},
            Some(i) => {
                let t = self.task(i);
                self.add_clock(cpu, delay_of(reply.value));
                self.charge_cgroup_bw(cpu, &t, consumed);
                self.then_do(Work::Requeue { cpu, pid, expired });
                self.then_do(Work::Probe { point: ProbePoint::Stopping, pid, cpu });
                self.then_call(
                    cpu,
                    Request::Stopping {
                        cpu,
                        pid,
                        runnable: true,
                        slice: left,
                        sum_exec: add_sat(t.sum_exec_base, consumed),
                    },
                    None,
                );
            },
        }
        Request::Continue
    }

    pub(crate) fn set_ops(&mut self, pid: Pid, ops_state: OpsTaskState)
        requires
            old(self).wf(),
        ensures
            final(self).wf(),
            final(self)@ == old(self)@.set_ops(pid, ops_state),
    {
        proof {
            self.lemma_wf();
        }
        if let Some(i) = self.find_task(pid) {
            let mut t = self.task(i);
            t.ops_state = ops_state;
            self.put_task(i, t);
        }
    }

    pub(crate) fn requeue(&mut self, cpu: CpuId, pid: Pid, expired: bool) -> (r: Request)
        requires
            old(self).wf(),
            cpu.0 < old(self)@.cpus.len(),
        ensures
            final(self).wf(),
            (final(self)@, r) == old(self)@.requeue(cpu, pid, expired),
    {
        if expired {
            self.record_now(cpu, TraceKind::PutPrevTask { pid, still_runnable: true });
        }
        self.set_ops(pid, OpsTaskState::Queued);
        self.then_do(Work::Requeued { cpu, pid, expired });
        self.then_call_free(cpu, Request::Enqueue { cpu, pid, flags: 0 });
        Request::Continue
    }

    pub(crate) fn then_next_task(&mut self, cpu: CpuId)
        requires
            old(self).wf(),
            cpu.0 < old(self)@.cpus.len(),
        ensures
            final(self).wf(),
            final(self)@ == old(self)@.then_next_task(cpu),
    {
        self.then_do(Work::TryDispatch { cpu });
        self.then_do(Work::FlushStaged);
    }

    pub(crate) fn requeued(&mut self, cpu: CpuId, pid: Pid, expired: bool) -> (r: Request)
        requires
            old(self).wf(),
            cpu.0 < old(self)@.cpus.len(),
        ensures
            final(self).wf(),
            (final(self)@, r) == old(self)@.requeued(cpu, pid, expired),
    {
        if expired {
            self.record_now(cpu, TraceKind::EnqueueTask { pid, enq_flags: 0 });
            self.record_now(cpu, TraceKind::TaskPreempted { pid });
        }
        self.then_next_task(cpu);
        Request::Continue
    }

    pub(crate) fn phase_complete(&mut self, cpu: CpuId) -> (r: Request)
        requires
            old(self).wf(),
            old(self)@.has_room(),
            cpu.0 < old(self)@.cpus.len(),
        ensures
            final(self).wf(),
            (final(self)@, r) == old(self)@.phase_complete(cpu),
    {
        let c = self.cpu(cpu);
        if c.irq_stolen_ns > 0 {
            self.postpone(cpu, EventKind::TaskPhaseComplete { cpu });
            return Request::Continue;
        }
        if let Some(pid) = c.current_task {
            if self.find_task(pid).is_some() {
                self.then_do(Work::PhaseSlice { cpu, pid });
                return Request::Slice { pid };
            }
        }
        Request::Continue
    }

    pub(crate) fn phase_slice(&mut self, reply: &Reply, cpu: CpuId, pid: Pid) -> (r: Request)
        requires
            old(self).wf(),
            cpu.0 < old(self)@.cpus.len(),
        ensures
            final(self).wf(),
            (final(self)@, r) == old(self)@.phase_slice(reply@, cpu, pid),
    {
        proof {
            self.lemma_wf();
        }
        match self.find_task(pid) {
            None => Request::Continue,
            Some(i) => {
                let t = self.task(i);
                let consumed = t.run_remaining_ns;
                let has_next = self.has_next_phase(&t);
                let moved = self.advance_phase(&t);
                let still_runnable = has_next && match self.current_phase(&moved) {
                    Some(Phase::Run(_)) => true,
                    _ => false,
                };
                self.put_task(i, moved);
                self.vacate(cpu, pid);
                self.then_do(
                    Work::PhaseStopped {
                        cpu,
                        pid,
                        consumed,
                        left: reply.slice.saturating_sub(consumed),
                        has_next,
                        still_runnable,
                    },
                );
                Request::SwitchCost { voluntary: true }
            },
        }
    }

    pub(crate) fn phase_stopped(
        &mut self,
        reply: &Reply,
        cpu: CpuId,
        pid: Pid,
        consumed: TimeNs,
        left: TimeNs,
        has_next: bool,
        still_runnable: bool,
    ) -> (r: Request)
        requires
            old(self).wf(),
            cpu.0 < old(self)@.cpus.len(),
        ensures
            final(self).wf(),
            (final(self)@, r) == old(self)@.phase_stopped(
                reply@,
                cpu,
                pid,
                consumed,
                left,
                has_next,
                still_runnable,
            ),
    {
        match self.find_task(pid) {
            None => {},
            Some(i) => {
                let t = self.task(i);
                self.add_clock(cpu, delay_of(reply.value));
                self.charge_cgroup_bw(cpu, &t, consumed);
                self.then_do(Work::PhaseAfter { cpu, pid, has_next, still_runnable });
                self.then_do(Work::Probe { point: ProbePoint::Stopping, pid, cpu });
                self.then_call(
                    cpu,
                    Request::Stopping {
                        cpu,
                        pid,
                        runnable: still_runnable,
                        slice: left,
                        sum_exec: add_sat(t.sum_exec_base, consumed),
                    },
                    None,
                );
            },
        }
        Request::Continue
    }

    pub(crate) fn phase_after(
        &mut self,
        cpu: CpuId,
        pid: Pid,
        has_next: bool,
        still_runnable: bool,
    ) -> (r: Request)
        requires
            old(self).wf(),
            cpu.0 < old(self)@.cpus.len(),
        ensures
            final(self).wf(),
            (final(self)@, r) == old(self)@.phase_after(cpu, pid, has_next, still_runnable),
    {
        if let Some(i) = self.find_task(pid) {
            let ops_state = self.task(i).ops_state;
            self.then_do(Work::PhaseNext { cpu, pid, has_next, still_runnable });
            if !still_runnable {
                self.then_do(Work::Probe { point: ProbePoint::Quiescent, pid, cpu });
                self.then_call(
                    cpu,
                    Request::Quiescent { cpu, pid, flags: SCX_DEQ_SLEEP },
                    Some(TraceKind::Quiescent { pid, deq_flags: SCX_DEQ_SLEEP }),
                );
                if let OpsTaskState::Queued = ops_state {
                    self.then_do(Work::SetOps { pid, ops_state: OpsTaskState::Free });
                    self.then_call(
                        cpu,
                        Request::Dequeue { cpu, pid, flags: SCX_DEQ_SLEEP },
                        Some(TraceKind::Dequeue { pid, deq_flags: SCX_DEQ_SLEEP }),
                    );
                }
            }
        }
        Request::Continue
    }

    pub(crate) fn exit_task(&mut self, i: usize, at: TimeNs, cpu: CpuId)
        requires
            old(self).wf(),
            i < old(self)@.tasks.len(),
        ensures
            final(self).wf(),
            final(self)@ == old(self)@.exited(i as int, at, cpu),
    {
        proof {
            self.lemma_wf();
        }
        let mut t = self.task(i);
        t.state = TaskState::Exited;
        self.put_task(i, t);
        self.record(at, cpu, TraceKind::TaskCompleted { pid: t.pid });
    }

    pub(crate) fn phase_next(
        &mut self,
        cpu: CpuId,
        pid: Pid,
        has_next: bool,
        still_runnable: bool,
    ) -> (r: Request)
        requires
            old(self).wf(),
            cpu.0 < old(self)@.cpus.len(),
        ensures
            final(self).wf(),
            (final(self)@, r) == old(self)@.phase_next(cpu, pid, has_next, still_runnable),
    {
        if let Some(i) = self.find_task(pid) {
            let now = self.cpu(cpu).local_clock;
            self.record_now(cpu, TraceKind::PutPrevTask { pid, still_runnable });
            self.then_next_task(cpu);
            if has_next {
                self.then_do(Work::PhaseChain { cpu, pid, at: now });
            } else {
                self.exit_task(i, now, cpu);
            }
        }
        Request::Continue
    }

    pub(crate) fn phase_chain(&mut self, cpu: CpuId, pid: Pid, at: TimeNs) -> (r: Request)
        requires
            old(self).wf(),
            old(self)@.has_room(),
            cpu.0 < old(self)@.cpus.len(),
        ensures
            final(self).wf(),
            (final(self)@, r) == old(self)@.phase_chain(cpu, pid, at),
    {
        proof {
            self.lemma_wf();
        }
        if let Some(i) = self.find_task(pid) {
            let t = self.task(i);
            match self.current_phase(&t) {
                Some(Phase::Sleep(ns)) => {
                    let mut asleep = t;
                    asleep.state = TaskState::Sleeping;
                    self.put_task(i, asleep);
                    self.record(at, cpu, TraceKind::TaskSlept { pid });
                    let wake = add_sat(at, ns);
                    if wake <= self.scenario().duration_ns {
                        self.push_event(
                            wake,
                            EventKind::TaskWake { pid, waker: None, cpu: t.prev_cpu },
                        );
                    }
                },
                Some(Phase::Run(_)) => {
                    let mut ready = t;
                    ready.state = TaskState::Runnable;
                    ready.ops_state = OpsTaskState::Queued;
                    self.put_task(i, ready);
                    self.then_do(Work::PhaseYielded { cpu, pid });
                    self.then_call_free(cpu, Request::Enqueue { cpu, pid, flags: 0 });
                },
                Some(Phase::Wake(target)) => {
                    let has_next = self.has_next_phase(&t);
                    let moved = self.advance_phase(&t);
                    self.push_event(
                        at,
                        EventKind::TaskWake {
                            pid: target,
                            waker: Some(WakerInfo { pid, cpu }),
                            cpu,
                        },
                    );
                    self.put_task(i, moved);
                    if has_next {
                        self.then_do(Work::PhaseChain { cpu, pid, at });
                    } else {
                        self.exit_task(i, at, cpu);
                    }
                },
                None => {
                    self.exit_task(i, at, cpu);
                },
            }
        }
        Request::Continue
    }

    pub(crate) fn phase_yielded(&mut self, cpu: CpuId, pid: Pid) -> (r: Request)
        requires
            old(self).wf(),
            cpu.0 < old(self)@.cpus.len(),
        ensures
            final(self).wf(),
            (final(self)@, r) == old(self)@.phase_yielded(cpu, pid),
    {
        self.record_now(cpu, TraceKind::EnqueueTask { pid, enq_flags: 0 });
        self.record_now(cpu, TraceKind::TaskYielded { pid });
        Request::Continue
    }
}

} // verus!
