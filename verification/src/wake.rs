//! Waking a task.

use vstd::prelude::*;

use crate::event_queue::{EventKind, WakerInfo};
use crate::run_task::Step;
use crate::scenario::Phase;
use crate::sim_state::{waker_ok, SimState, SimView};
use crate::state::{OpsTaskState, Reply, ReplyView, Request, SimTask, TaskState, Work};
use crate::trace::TraceKind;
use crate::types::{CpuId, Pid};

verus! {

/// The enqueue flag of a wakeup.
pub const SCX_ENQ_WAKEUP: u64 = 1;

/// The flags of a wakeup whose waker hands over.
pub const SCX_ENQ_SYNC_WAKEUP: u64 = 17;

/// The wake flag of every wakeup.
pub const SCX_WAKE_TTWU: u64 = 8;

/// The wake flags of a wakeup whose waker hands over.
pub const SCX_WAKE_SYNC_TTWU: u64 = 24;

/// The flags that the scheduler sees when a task becomes runnable.
pub open spec fn enq_flags(synchronous: bool) -> u64 {
    if synchronous {
        SCX_ENQ_SYNC_WAKEUP
    } else {
        SCX_ENQ_WAKEUP
    }
}

/// The flags that the scheduler sees when it selects a CPU.
pub open spec fn wake_flags(synchronous: bool) -> u64 {
    if synchronous {
        SCX_WAKE_SYNC_TTWU
    } else {
        SCX_WAKE_TTWU
    }
}

/// The CPU that a selection means: the one named, or the previous one if it
/// names none.
pub open spec fn spec_selected(value: i64, prev_cpu: CpuId, nr_cpus: nat) -> CpuId {
    if 0 <= value < nr_cpus {
        CpuId(value as u32)
    } else {
        prev_cpu
    }
}

/// The CPU that a selection means.
pub fn selected(value: i64, prev_cpu: CpuId, nr_cpus: usize) -> (r: CpuId)
    requires
        nr_cpus <= u32::MAX,
    ensures
        r == spec_selected(value, prev_cpu, nr_cpus as nat),
{
    if 0 <= value && value < nr_cpus as i64 {
        CpuId(value as u32)
    } else {
        prev_cpu
    }
}

impl SimView {
    /// A task wakes unless it waits, runs or has exited. From its first
    /// wakeup on it counts as waiting.
    pub open spec fn wake(self, pid: Pid, waker: Option<WakerInfo>) -> Step {
        match self.find(pid) {
            Some(i) if self.tasks[i].state is Sleeping => {
                let t = self.tasks[i];
                (
                    self.set_task(
                        i,
                        SimTask {
                            state: TaskState::Runnable,
                            runnable_at_ns: if t.runnable_at_ns is Some {
                                t.runnable_at_ns
                            } else {
                                Some(self.clock)
                            },
                            ..t
                        },
                    ).then_do(Work::AdvancePhase { pid, waker }),
                    Request::Continue,
                )
            },
            _ => (self, Request::Continue),
        }
    }

    /// A woken task moves on to a phase that computes: sleeps are over, and
    /// other tasks are woken on the way. Without such a phase it exits.
    pub open spec fn advance_to_run_phase(self, pid: Pid, waker: Option<WakerInfo>) -> Step {
        match self.find(pid) {
            None => (self, Request::Continue),
            Some(i) => {
                let t = self.tasks[i];
                let ready = Work::WakeReady { pid, waker };
                (
                    match self.current_phase(t) {
                        Some(Phase::Run(ns)) => if t.run_remaining_ns == 0 {
                            self.set_task(i, SimTask { run_remaining_ns: ns, ..t }).then_do(ready)
                        } else {
                            self.then_do(ready)
                        },
                        Some(Phase::Wake(target)) => self.event(
                            self.clock,
                            EventKind::TaskWake { pid: target, waker: None, cpu: t.prev_cpu },
                        ).past_phase(i, waker),
                        Some(Phase::Sleep(ns)) => self.past_phase(i, waker),
                        None => self.exited(i, self.clock, self.current_cpu).then_do(ready),
                    },
                    Request::Continue,
                )
            },
        }
    }

    /// A woken task past its current phase.
    pub open spec fn past_phase(self, i: int, waker: Option<WakerInfo>) -> SimView {
        let t = self.tasks[i];
        let s1 = self.set_task(i, self.advance_phase(t));
        if self.has_next_phase(t) {
            s1.then_do(Work::AdvancePhase { pid: t.pid, waker })
        } else {
            s1.exited(i, self.clock, self.current_cpu).then_do(
                Work::WakeReady { pid: t.pid, waker },
            )
        }
    }

    /// The scheduler hears that the task is runnable, in its waker's context.
    pub open spec fn wake_ready(self, pid: Pid, waker: Option<WakerInfo>) -> Step {
        match self.find(pid) {
            None => (self, Request::Continue),
            Some(i) => {
                let t = self.tasks[i];
                let wake_cpu = match waker {
                    Some(w) => w.cpu,
                    None => t.prev_cpu,
                };
                (
                    if t.state is Exited {
                        self.record(self.clock, wake_cpu, TraceKind::TaskCompleted { pid })
                    } else if t.state is Sleeping {
                        self
                    } else {
                        let by: Option<Pid> = match waker {
                            Some(w) => if self.find(w.pid) is Some {
                                Some(w.pid)
                            } else {
                                None
                            },
                            None => None,
                        };
                        let flags = enq_flags(by is Some);
                        self.record(self.clock, wake_cpu, TraceKind::TaskWoke { pid }).set_task(
                            i,
                            SimTask { enqueued_at_ns: Some(self.clock), ..t },
                        ).then_do(
                            Work::WakeSelect { pid, wake_cpu, prev_cpu: t.prev_cpu, waker: by },
                        ).then_call(
                            wake_cpu,
                            Request::Runnable { cpu: wake_cpu, pid, flags, waker: by },
                            Some(TraceKind::Runnable { pid, enq_flags: flags }),
                        )
                    },
                    Request::Continue,
                )
            },
        }
    }

    /// The scheduler selects a CPU.
    pub open spec fn wake_select(
        self,
        pid: Pid,
        wake_cpu: CpuId,
        prev_cpu: CpuId,
        waker: Option<Pid>,
    ) -> Step {
        (
            self.set_ops(pid, OpsTaskState::Queued).on_cpu(wake_cpu).then_do(
                Work::WakeSelected { pid, wake_cpu, prev_cpu, waker },
            ),
            Request::SelectCpu {
                cpu: wake_cpu,
                pid,
                prev_cpu,
                flags: wake_flags(waker is Some),
                waker,
            },
        )
    }

    /// The task moves to the selected CPU. It was dispatched there already, or
    /// the scheduler gets it.
    pub open spec fn wake_selected(
        self,
        r: ReplyView,
        pid: Pid,
        wake_cpu: CpuId,
        prev_cpu: CpuId,
        waker: Option<Pid>,
    ) -> Step {
        let cpu = spec_selected(r.value, prev_cpu, self.cpus.len());
        let s1 = self.absorb(r).charge(cpu, r.cost).on_cpu(cpu).record(
            self.clock,
            wake_cpu,
            TraceKind::SelectTaskRq { pid, prev_cpu, selected_cpu: cpu },
        );
        let s2 = match self.find(pid) {
            Some(i) => s1.set_task(i, SimTask { prev_cpu: cpu, ..s1.tasks[i] }),
            None => s1,
        };
        (
            match r.direct {
                Some(dd) => s2.on_cpu(dd).then_do(Work::TryDispatch { cpu: dd }),
                None => s2.then_do(Work::WakeEnqueued { pid, cpu }).then_call_free(
                    cpu,
                    Request::Enqueue { cpu, pid, flags: enq_flags(waker is Some) },
                ),
            },
            Request::Continue,
        )
    }

    /// With the idle CPUs from `from` on looking for a task, lowest first.
    pub open spec fn then_try_idle(self, from: nat) -> SimView
        decreases self.cpus.len() - from,
    {
        if from >= self.cpus.len() {
            self
        } else {
            self.then_try_idle(from + 1).then_if(
                self.cpus[from as int].current_task is None,
                Work::TryDispatch { cpu: CpuId(from as u32) },
            )
        }
    }

    /// The scheduler has the task; the idle CPUs look for work.
    pub open spec fn wake_enqueued(self, pid: Pid, cpu: CpuId) -> Step {
        (
            self.record(
                self.clock,
                cpu,
                TraceKind::EnqueueTask { pid, enq_flags: SCX_ENQ_WAKEUP },
            ).then_try_idle(0),
            Request::Continue,
        )
    }
}

/// Waking a task that waits, runs or has exited changes nothing.
pub proof fn law_waking_an_awake_task_does_nothing(s: SimView, pid: Pid, waker: Option<WakerInfo>)
    requires
        s.find(pid) is None || !(s.tasks[s.find(pid)->0].state is Sleeping),
    ensures
        s.wake(pid, waker) == (s, Request::Continue),
{
}

impl SimState {
    pub(crate) fn wake(&mut self, pid: Pid, waker: Option<WakerInfo>) -> (r: Request)
        requires
            old(self).wf(),
            waker_ok(waker, old(self)@.cpus.len()),
        ensures
            final(self).wf(),
            (final(self)@, r) == old(self)@.wake(pid, waker),
    {
        proof {
            self.lemma_wf();
        }
        if let Some(i) = self.find_task(pid) {
            let mut t = self.task(i);
            if let TaskState::Sleeping = t.state {
                t.state = TaskState::Runnable;
                if t.runnable_at_ns.is_none() {
                    t.runnable_at_ns = Some(self.clock());
                }
                self.put_task(i, t);
                self.then_do(Work::AdvancePhase { pid, waker });
            }
        }
        Request::Continue
    }

    fn past_phase(&mut self, i: usize, waker: Option<WakerInfo>)
        requires
            old(self).wf(),
            i < old(self)@.tasks.len(),
            waker_ok(waker, old(self)@.cpus.len()),
        ensures
            final(self).wf(),
            final(self)@ == old(self)@.past_phase(i as int, waker),
    {
        proof {
            self.lemma_wf();
        }
        let t = self.task(i);
        let has_next = self.has_next_phase(&t);
        let moved = self.advance_phase(&t);
        self.put_task(i, moved);
        if has_next {
            self.then_do(Work::AdvancePhase { pid: t.pid, waker });
        } else {
            let (clock, cpu) = (self.clock(), self.current_cpu());
            self.exit_task(i, clock, cpu);
            self.then_do(Work::WakeReady { pid: t.pid, waker });
        }
    }

    pub(crate) fn advance_to_run_phase(&mut self, pid: Pid, waker: Option<WakerInfo>) -> (r: Request)
        requires
            old(self).wf(),
            old(self)@.has_room(),
            waker_ok(waker, old(self)@.cpus.len()),
        ensures
            final(self).wf(),
            (final(self)@, r) == old(self)@.advance_to_run_phase(pid, waker),
    {
        proof {
            self.lemma_wf();
        }
        if let Some(i) = self.find_task(pid) {
            let t = self.task(i);
            let clock = self.clock();
            match self.current_phase(&t) {
                Some(Phase::Run(ns)) => {
                    if t.run_remaining_ns == 0 {
                        let mut fresh = t;
                        fresh.run_remaining_ns = ns;
                        self.put_task(i, fresh);
                    }
                    self.then_do(Work::WakeReady { pid, waker });
                },
                Some(Phase::Wake(target)) => {
                    self.push_event(
                        clock,
                        EventKind::TaskWake { pid: target, waker: None, cpu: t.prev_cpu },
                    );
                    self.past_phase(i, waker);
                },
                Some(Phase::Sleep(_)) => {
                    self.past_phase(i, waker);
                },
                None => {
                    let cpu = self.current_cpu();
                    self.exit_task(i, clock, cpu);
                    self.then_do(Work::WakeReady { pid, waker });
                },
            }
        }
        Request::Continue
    }

    pub(crate) fn wake_ready(&mut self, pid: Pid, waker: Option<WakerInfo>) -> (r: Request)
        requires
            old(self).wf(),
            waker_ok(waker, old(self)@.cpus.len()),
        ensures
            final(self).wf(),
            (final(self)@, r) == old(self)@.wake_ready(pid, waker),
    {
        proof {
            self.lemma_wf();
        }
        if let Some(i) = self.find_task(pid) {
            let mut t = self.task(i);
            let clock = self.clock();
            let wake_cpu = match waker {
                Some(w) => w.cpu,
                None => t.prev_cpu,
            };
            match t.state {
                TaskState::Exited => {
                    self.record(clock, wake_cpu, TraceKind::TaskCompleted { pid });
                },
                TaskState::Sleeping => {},
                _ => {
                    let by: Option<Pid> = match waker {
                        Some(w) => if self.find_task(w.pid).is_some() {
                            Some(w.pid)
                        } else {
                            None
                        },
                        None => None,
                    };
                    let flags: u64 = if by.is_some() {
                        SCX_ENQ_SYNC_WAKEUP
                    } else {
                        SCX_ENQ_WAKEUP
                    };
                    let prev_cpu = t.prev_cpu;
                    self.record(clock, wake_cpu, TraceKind::TaskWoke { pid });
                    t.enqueued_at_ns = Some(clock);
                    self.put_task(i, t);
                    self.then_do(Work::WakeSelect { pid, wake_cpu, prev_cpu, waker: by });
                    self.then_call(
                        wake_cpu,
                        Request::Runnable { cpu: wake_cpu, pid, flags, waker: by },
                        Some(TraceKind::Runnable { pid, enq_flags: flags }),
                    );
                },
            }
        }
        Request::Continue
    }

    pub(crate) fn wake_select(
        &mut self,
        pid: Pid,
        wake_cpu: CpuId,
        prev_cpu: CpuId,
        waker: Option<Pid>,
    ) -> (r: Request)
        requires
            old(self).wf(),
            wake_cpu.0 < old(self)@.cpus.len(),
            prev_cpu.0 < old(self)@.cpus.len(),
        ensures
            final(self).wf(),
            (final(self)@, r) == old(self)@.wake_select(pid, wake_cpu, prev_cpu, waker),
    {
        self.set_ops(pid, OpsTaskState::Queued);
        self.set_current_cpu(wake_cpu);
        self.then_do(Work::WakeSelected { pid, wake_cpu, prev_cpu, waker });
        let flags: u64 = if waker.is_some() {
            SCX_WAKE_SYNC_TTWU
        } else {
            SCX_WAKE_TTWU
        };
        Request::SelectCpu { cpu: wake_cpu, pid, prev_cpu, flags, waker }
    }

    pub(crate) fn wake_selected(
        &mut self,
        reply: &Reply,
        pid: Pid,
        wake_cpu: CpuId,
        prev_cpu: CpuId,
        waker: Option<Pid>,
    ) -> (r: Request)
        requires
            old(self).wf(),
            reply@.ok(old(self)@.cpus.len()),
            wake_cpu.0 < old(self)@.cpus.len(),
            prev_cpu.0 < old(self)@.cpus.len(),
        ensures
            final(self).wf(),
            (final(self)@, r) == old(self)@.wake_selected(reply@, pid, wake_cpu, prev_cpu, waker),
    {
        proof {
            self.lemma_wf();
        }
        let clock = self.clock();
        let cpu = selected(reply.value, prev_cpu, self.nr_cpus());
        self.absorb(reply);
        self.charge_sched_time(cpu, reply.cost);
        self.set_current_cpu(cpu);
        self.record(clock, wake_cpu, TraceKind::SelectTaskRq { pid, prev_cpu, selected_cpu: cpu });
        proof {
            self.lemma_wf();
        }
        if let Some(i) = self.find_task(pid) {
            let mut t = self.task(i);
            t.prev_cpu = cpu;
            self.put_task(i, t);
        }
        match reply.direct {
            Some(dd) => {
                self.set_current_cpu(dd);
                self.then_do(Work::TryDispatch { cpu: dd });
            },
            None => {
                self.then_do(Work::WakeEnqueued { pid, cpu });
                let flags: u64 = if waker.is_some() {
                    SCX_ENQ_SYNC_WAKEUP
                } else {
                    SCX_ENQ_WAKEUP
                };
                self.then_call_free(cpu, Request::Enqueue { cpu, pid, flags });
            },
        }
        Request::Continue
    }

    pub(crate) fn wake_enqueued(&mut self, pid: Pid, cpu: CpuId) -> (r: Request)
        requires
            old(self).wf(),
            cpu.0 < old(self)@.cpus.len(),
        ensures
            final(self).wf(),
            (final(self)@, r) == old(self)@.wake_enqueued(pid, cpu),
    {
        proof {
            self.lemma_wf();
        }
        let clock = self.clock();
        self.record(clock, cpu, TraceKind::EnqueueTask { pid, enq_flags: SCX_ENQ_WAKEUP });
        let ghost s1 = self@;
        let mut from: usize = self.nr_cpus();
        while from > 0
            invariant
                self.wf(),
                from <= s1.cpus.len(),
                s1.cpus.len() <= u32::MAX,
                self@ == s1.then_try_idle(from as nat),
                self@.cpus == s1.cpus,
            decreases from,
        {
            from = from - 1;
            let c = CpuId(from as u32);
            if self.cpu(c).current_task.is_none() {
                self.then_do(Work::TryDispatch { cpu: c });
            }
        }
        Request::Continue
    }
}

} // verus!
