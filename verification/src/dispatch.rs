//! Finding a CPU its next task.

use vstd::prelude::*;

use crate::run_task::Step;
use crate::sim_state::{SimState, SimView};
use crate::state::{ProbePoint, Reply, ReplyView, Request, SimCpu, Work};
use crate::trace::TraceKind;
use crate::types::{CgroupId, CpuId, DsqId, Pid, DSQ_GLOBAL};

verus! {

impl SimView {
    /// A CPU that is online and runs nothing looks for a task: in its own
    /// queue, or by asking the scheduler to fill it.
    pub open spec fn try_dispatch(self, cpu: CpuId) -> Step {
        let c = self.cpu(cpu);
        if c.current_task is Some || !c.is_online {
            (self, Request::Continue)
        } else {
            let s1 = self.advance_cpu_clock(cpu);
            if self.local[cpu.0 as int].len() == 0 {
                let prev = c.prev_task;
                (
                    s1.on_cpu(cpu).then_do(Work::Dispatched { cpu, prev }),
                    Request::Dispatch { cpu, prev },
                )
            } else {
                s1.post_dispatch(cpu, true)
            }
        }
    }

    /// The scheduler had its turn.
    pub open spec fn dispatched(self, r: ReplyView, cpu: CpuId, prev: Option<Pid>) -> Step {
        (
            self.absorb(r).charge(cpu, r.cost).record_now(
                cpu,
                TraceKind::Balance { prev_pid: prev },
            ).then_do(Work::PostDispatch { cpu, notify: true }).then_do(Work::FlushStaged).then_if(
                prev is Some && self.find(prev->0) is Some,
                Work::Probe { point: ProbePoint::Dispatched, pid: prev->0, cpu },
            ),
            Request::Continue,
        )
    }

    /// A CPU whose own queue is empty takes from the global one.
    pub open spec fn post_dispatch(self, cpu: CpuId, notify: bool) -> Step {
        if self.local[cpu.0 as int].len() == 0 {
            (self.then_do(Work::Consumed { cpu, notify }), Request::ConsumeGlobal { cpu })
        } else {
            self.gate(cpu, notify)
        }
    }

    /// The global queue gave a task or was empty.
    pub open spec fn consumed(self, r: ReplyView, cpu: CpuId, notify: bool) -> Step {
        let s1 = self.absorb(r);
        if r.value != 0 {
            s1.record_now(
                cpu,
                TraceKind::DsqMoveToLocal { dsq_id: DsqId(DSQ_GLOBAL), success: true },
            ).gate(cpu, notify)
        } else {
            s1.gate(cpu, notify)
        }
    }

    /// A task in a control group runs only while the group has bandwidth
    /// left.
    pub open spec fn gate(self, cpu: CpuId, notify: bool) -> Step {
        let q = self.local[cpu.0 as int];
        if q.len() > 0 && self.find(q[0]) is Some && self.tasks[self.find(q[0])->0].cgid is Some {
            let cgid = self.tasks[self.find(q[0])->0].cgid->0;
            (
                self.then_do(Work::Gated { cpu, notify, pid: q[0], cgid }),
                Request::IsThrottled { cgid },
            )
        } else {
            self.pick(cpu, notify)
        }
    }

    /// A task without bandwidth is held back and the CPU goes idle.
    pub open spec fn gated(
        self,
        r: ReplyView,
        cpu: CpuId,
        notify: bool,
        pid: Pid,
        cgid: CgroupId,
    ) -> Step {
        let q = self.local[cpu.0 as int];
        if r.value == 1 && q.len() > 0 {
            let s1 = self.set_local(cpu, q.skip(1));
            SimView { blocked: s1.blocked.push((cgid, pid)), ..s1 }.record_now(
                cpu,
                TraceKind::CgroupBwDequeueOnThrottle { pid, cgid },
            ).go_idle(cpu, notify)
        } else {
            self.pick(cpu, notify)
        }
    }

    /// The first task in the CPU's queue runs; without one the CPU goes idle.
    pub open spec fn pick(self, cpu: CpuId, notify: bool) -> Step {
        let q = self.local[cpu.0 as int];
        if q.len() > 0 {
            (
                self.set_local(cpu, q.skip(1)).record_now(
                    cpu,
                    TraceKind::PickTask { pid: q[0] },
                ).then_do(Work::StartRunning { cpu, pid: q[0] }),
                Request::Continue,
            )
        } else {
            self.go_idle(cpu, notify)
        }
    }

    /// The CPU is marked idle and forgets what it ran. The scheduler may hear
    /// of it.
    pub open spec fn go_idle(self, cpu: CpuId, notify: bool) -> Step {
        let c = self.cpu(cpu);
        let s1 = self.set_cpu(cpu, SimCpu { prev_task: None, ..c }).then_do(
            Work::Note { at: c.local_clock, cpu, kind: TraceKind::CpuIdle },
        );
        (
            if notify {
                s1.then_call(
                    cpu,
                    Request::UpdateIdle { cpu, idle: true },
                    Some(TraceKind::UpdateIdle { cpu, idle: true }),
                )
            } else {
                s1
            },
            Request::MarkIdle { cpu },
        )
    }
}

/// The first task of a queue is the one that runs; the others keep their
/// order.
pub proof fn law_local_queue_is_first_in_first_out(s: SimView, cpu: CpuId, notify: bool)
    requires
        s.ok(),
        cpu.0 < s.cpus.len(),
        s.local[cpu.0 as int].len() > 0,
    ensures
        s.pick(cpu, notify).0.work.last() == (Work::StartRunning {
            cpu,
            pid: s.local[cpu.0 as int][0],
        }),
        s.pick(cpu, notify).0.local[cpu.0 as int] == s.local[cpu.0 as int].skip(1),
{
}

/// A CPU that is offline, or that runs a task, gets none.
pub proof fn law_no_dispatch_to_a_busy_or_offline_cpu(s: SimView, cpu: CpuId)
    requires
        s.cpu(cpu).current_task is Some || !s.cpu(cpu).is_online,
    ensures
        s.try_dispatch(cpu) == (s, Request::Continue),
{
}

impl SimState {
    pub(crate) fn try_dispatch(&mut self, cpu: CpuId) -> (r: Request)
        requires
            old(self).wf(),
            cpu.0 < old(self)@.cpus.len(),
        ensures
            final(self).wf(),
            (final(self)@, r) == old(self)@.try_dispatch(cpu),
    {
        let c = self.cpu(cpu);
        if c.current_task.is_some() || !c.is_online {
            return Request::Continue;
        }
        self.advance_cpu_clock(cpu);
        if self.local_front(cpu).is_none() {
            self.set_current_cpu(cpu);
            self.then_do(Work::Dispatched { cpu, prev: c.prev_task });
            Request::Dispatch { cpu, prev: c.prev_task }
        } else {
            self.post_dispatch(cpu, true)
        }
    }

    pub(crate) fn dispatched(&mut self, reply: &Reply, cpu: CpuId, prev: Option<Pid>) -> (r: Request)
        requires
            old(self).wf(),
            cpu.0 < old(self)@.cpus.len(),
            reply@.ok(old(self)@.cpus.len()),
        ensures
            final(self).wf(),
            (final(self)@, r) == old(self)@.dispatched(reply@, cpu, prev),
    {
        let known: Option<Pid> = match prev {
            Some(pid) => if self.find_task(pid).is_some() {
                Some(pid)
            } else {
                None
            },
            None => None,
        };
        self.absorb(reply);
        self.charge_sched_time(cpu, reply.cost);
        self.record_now(cpu, TraceKind::Balance { prev_pid: prev });
        self.then_do(Work::PostDispatch { cpu, notify: true });
        self.then_do(Work::FlushStaged);
        if let Some(pid) = known {
            self.then_do(Work::Probe { point: ProbePoint::Dispatched, pid, cpu });
        }
        Request::Continue
    }

    pub(crate) fn post_dispatch(&mut self, cpu: CpuId, notify: bool) -> (r: Request)
        requires
            old(self).wf(),
            cpu.0 < old(self)@.cpus.len(),
        ensures
            final(self).wf(),
            (final(self)@, r) == old(self)@.post_dispatch(cpu, notify),
    {
        if self.local_front(cpu).is_none() {
            self.then_do(Work::Consumed { cpu, notify });
            Request::ConsumeGlobal { cpu }
        } else {
            self.gate(cpu, notify)
        }
    }

    pub(crate) fn consumed(&mut self, reply: &Reply, cpu: CpuId, notify: bool) -> (r: Request)
        requires
            old(self).wf(),
            cpu.0 < old(self)@.cpus.len(),
            reply@.ok(old(self)@.cpus.len()),
        ensures
            final(self).wf(),
            (final(self)@, r) == old(self)@.consumed(reply@, cpu, notify),
    {
        self.absorb(reply);
        if reply.value != 0 {
            self.record_now(
                cpu,
                TraceKind::DsqMoveToLocal { dsq_id: DsqId(DSQ_GLOBAL), success: true },
            );
        }
        self.gate(cpu, notify)
    }

    fn gate(&mut self, cpu: CpuId, notify: bool) -> (r: Request)
        requires
            old(self).wf(),
            cpu.0 < old(self)@.cpus.len(),
        ensures
            final(self).wf(),
            (final(self)@, r) == old(self)@.gate(cpu, notify),
    {
        if let Some(pid) = self.local_front(cpu) {
            if let Some(i) = self.find_task(pid) {
                if let Some(cgid) = self.task(i).cgid {
                    self.then_do(Work::Gated { cpu, notify, pid, cgid });
                    return Request::IsThrottled { cgid };
                }
            }
        }
        self.pick(cpu, notify)
    }

    pub(crate) fn gated(
        &mut self,
        reply: &Reply,
        cpu: CpuId,
        notify: bool,
        pid: Pid,
        cgid: CgroupId,
    ) -> (r: Request)
        requires
            old(self).wf(),
            cpu.0 < old(self)@.cpus.len(),
        ensures
            final(self).wf(),
            (final(self)@, r) == old(self)@.gated(reply@, cpu, notify, pid, cgid),
    {
        if reply.value == 1 && self.local_front(cpu).is_some() {
            self.pop_local(cpu);
            self.block(cgid, pid);
            self.record_now(cpu, TraceKind::CgroupBwDequeueOnThrottle { pid, cgid });
            self.go_idle(cpu, notify)
        } else {
            self.pick(cpu, notify)
        }
    }

    fn pick(&mut self, cpu: CpuId, notify: bool) -> (r: Request)
        requires
            old(self).wf(),
            cpu.0 < old(self)@.cpus.len(),
        ensures
            final(self).wf(),
            (final(self)@, r) == old(self)@.pick(cpu, notify),
    {
        if self.local_front(cpu).is_some() {
            let pid = self.pop_local(cpu);
            self.record_now(cpu, TraceKind::PickTask { pid });
            self.then_do(Work::StartRunning { cpu, pid });
            Request::Continue
        } else {
            self.go_idle(cpu, notify)
        }
    }

    fn go_idle(&mut self, cpu: CpuId, notify: bool) -> (r: Request)
        requires
            old(self).wf(),
            cpu.0 < old(self)@.cpus.len(),
        ensures
            final(self).wf(),
            (final(self)@, r) == old(self)@.go_idle(cpu, notify),
    {
        let mut c = self.cpu(cpu);
        c.prev_task = None;
        self.put_cpu(cpu, c);
        self.then_do(Work::Note { at: c.local_clock, cpu, kind: TraceKind::CpuIdle });
        if notify {
            self.then_call(
                cpu,
                Request::UpdateIdle { cpu, idle: true },
                Some(TraceKind::UpdateIdle { cpu, idle: true }),
            );
        }
        Request::MarkIdle { cpu }
    }
}

} // verus!
