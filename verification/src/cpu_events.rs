//! Ticks, timers, kicks, interrupts, futex operations and CPUs that come and
//! go.

use vstd::prelude::*;

use crate::event_queue::EventKind;
use crate::run_task::Step;
use crate::scenario::{FutexOp, IrqType};
use crate::sim_state::{
    add_sat, first_blocked, first_kick, kicks_elsewhere, preempts, sat, timers_sent, SimState,
    SimView,
};
use crate::state::{
    IrqContext, Reply, ReplyView, Request, SimCpu, SimTask, TaskState, Work, MAX_BPF_TIMERS,
};
use crate::trace::TraceKind;
use crate::types::{CgroupId, CpuId, KickFlags, Pid, TimeNs};

verus! {

/// The time between two ticks of a CPU.
pub const TICK_INTERVAL_NS: u64 = 4_000_000;

/// How long until the next tick, given how far it deviates.
pub open spec fn tick_interval(jitter: i64) -> u64 {
    if TICK_INTERVAL_NS + jitter < 1 {
        1
    } else {
        sat(TICK_INTERVAL_NS + jitter)
    }
}

/// Whether a futex operation's result says that the task was boosted.
pub open spec fn spec_boosted(flags: i64) -> bool {
    flags >= 0 && flags % 2 == 1
}

/// Whether a futex operation's result says that the task was boosted.
pub fn boosted(flags: i64) -> (r: bool)
    ensures
        r == spec_boosted(flags),
{
    flags >= 0 && flags % 2 == 1
}

/// The lowest CPU that runs a task.
pub open spec fn cpu_running(cpus: Seq<SimCpu>, pid: Pid) -> Option<int>
    decreases cpus.len(),
{
    if cpus.len() == 0 {
        None
    } else {
        match cpu_running(cpus.drop_last(), pid) {
            Some(i) => Some(i),
            None => if cpus.last().current_task == Some(pid) {
                Some(cpus.len() - 1)
            } else {
                None
            },
        }
    }
}

impl SimView {
    /// The earliest kick is scheduled; then the others are.
    pub open spec fn flush_staged(self) -> Step {
        if self.staged.len() == 0 {
            (self, Request::Continue)
        } else {
            let f = first_kick(self.staged);
            let k = self.staged[f];
            (
                SimView { staged: self.staged.remove(f), ..self }.event(
                    k.time_ns,
                    EventKind::KickDelivered { cpu: k.cpu, flags: k.flags },
                ).then_do(Work::FlushStaged),
                Request::Continue,
            )
        }
    }

    /// The armed timers become events.
    pub open spec fn arm_timers(self) -> Step {
        (timers_sent(self, MAX_BPF_TIMERS as nat), Request::Continue)
    }

    /// A tick. An offline CPU has no more of them.
    pub open spec fn tick(self, cpu: CpuId) -> Step {
        if self.cpu(cpu).is_online {
            (self.then_do(Work::TickTimed { cpu }), Request::TickJitter)
        } else {
            (self, Request::Continue)
        }
    }

    /// The next tick is scheduled; a CPU that runs a task looks at it.
    pub open spec fn tick_timed(self, r: ReplyView, cpu: CpuId) -> Step {
        let c = self.cpu(cpu);
        let s1 = self.event(
            sat(c.local_clock + tick_interval(r.value)),
            EventKind::Tick { cpu },
        );
        match c.current_task {
            Some(pid) if self.find(pid) is Some => (
                s1.record_now(cpu, TraceKind::Tick { pid }).then_do(
                    Work::TickSlice { cpu, pid },
                ).then_do(Work::Ask { request: Request::Slice { pid } }).then_do(
                    Work::Ask { request: Request::SampleQueues { time_ns: c.local_clock } },
                ),
                Request::Continue,
            ),
            _ => (s1, Request::Continue),
        }
    }

    /// The scheduler hears the tick, with the task's runtime up to date.
    pub open spec fn tick_slice(self, r: ReplyView, cpu: CpuId, pid: Pid) -> Step {
        match self.find(pid) {
            None => (self, Request::Continue),
            Some(i) => {
                let c = self.cpu(cpu);
                let since = match c.task_started_at {
                    Some(at) => at,
                    None => 0,
                };
                (
                    self.on_cpu(cpu).then_do(Work::Ticked { cpu, pid, slice_before: r.slice }),
                    Request::Tick {
                        cpu,
                        pid,
                        sum_exec: sat(self.tasks[i].sum_exec_base + sat(c.local_clock - since)),
                    },
                )
            },
        }
    }

    /// The task is preempted if the scheduler kicked this CPU to do so or took
    /// the slice away. Other kicks to this CPU are forgotten.
    pub open spec fn ticked(
        self,
        r: ReplyView,
        cpu: CpuId,
        pid: Pid,
        slice_before: TimeNs,
    ) -> Step {
        let s1 = self.absorb(r).charge(cpu, r.cost);
        let preempt = preempts(s1.staged, cpu) || (slice_before > 0 && r.slice == 0);
        (
            SimView { staged: kicks_elsewhere(s1.staged, cpu), ..s1 }.then_if(
                preempt && self.cpu(cpu).current_task is Some,
                Work::Preempt { cpu },
            ).then_do(Work::FlushStaged),
            Request::Continue,
        )
    }

    /// A timer fires.
    pub open spec fn timer_fired(self, cpu: CpuId, slot: u8) -> Step {
        (
            self.advance_cpu_clock(cpu).on_cpu(cpu).then_do(Work::TimerDone { cpu }),
            Request::FireTimer { cpu, slot },
        )
    }

    /// With what a timer did to budgets to look at, in order.
    pub open spec fn then_budgets(self, cpu: CpuId, at: TimeNs, kinds: Seq<TraceKind>) -> SimView
        decreases kinds.len(),
    {
        if kinds.len() == 0 {
            self
        } else {
            self.then_budgets(cpu, at, kinds.skip(1)).then_do(
                Work::BudgetEvent { cpu, at, kind: kinds[0] },
            )
        }
    }

    /// What the timer did takes effect.
    pub open spec fn timer_done(self, r: ReplyView, cpu: CpuId) -> Step {
        let s1 = self.absorb(r).charge(cpu, r.cost);
        (
            s1.then_do(Work::FlushStaged).then_do(Work::ArmTimers).then_budgets(
                cpu,
                s1.cpu(cpu).local_clock,
                r.budget_events,
            ),
            Request::Continue,
        )
    }

    /// A change of budget is recorded. When a group may run again, the tasks
    /// held back for it are let go.
    pub open spec fn budget_event(self, cpu: CpuId, at: TimeNs, kind: TraceKind) -> Step {
        let s1 = self.record(at, cpu, kind);
        (
            match kind {
                TraceKind::CgroupBwReplenish { cgid, keep_throttled, .. } => s1.then_if(
                    !keep_throttled,
                    Work::DrainBlocked { cpu, at, cgid },
                ),
                _ => s1,
            },
            Request::Continue,
        )
    }

    /// The task held back longest is woken; then the others are.
    pub open spec fn drain_blocked(self, cpu: CpuId, at: TimeNs, cgid: CgroupId) -> Step {
        match first_blocked(self.blocked, cgid) {
            None => (self, Request::Continue),
            Some(b) => {
                let pid = self.blocked[b].1;
                let s1 = SimView { blocked: self.blocked.remove(b), ..self };
                let s2 = match self.find(pid) {
                    Some(i) => s1.set_task(
                        i,
                        SimTask { state: TaskState::Sleeping, ..self.tasks[i] },
                    ),
                    None => s1,
                };
                (
                    s2.event(at, EventKind::TaskWake { pid, waker: None, cpu }).record(
                        at,
                        cpu,
                        TraceKind::CgroupBwReenqueueOnReplenish { pid, cgid },
                    ).then_do(Work::DrainBlocked { cpu, at, cgid }),
                    Request::Continue,
                )
            },
        }
    }

    /// With a CPU going on- or offline.
    pub open spec fn set_online(self, cpu: CpuId, online: bool) -> SimView {
        self.set_cpu(cpu, SimCpu { is_online: online, ..self.cpu(cpu) })
    }

    /// A CPU goes offline: its task is preempted, its queue goes back to the
    /// scheduler.
    pub open spec fn cpu_offline(self, cpu: CpuId) -> Step {
        let c = self.cpu(cpu);
        (
            if c.is_online {
                self.then_do(Work::SetOnline { cpu, online: false }).then_call(
                    cpu,
                    Request::CpuOffline { cpu },
                    None,
                ).then_do(Work::DrainLocal { cpu }).then_if(
                    c.current_task is Some,
                    Work::Preempt { cpu },
                )
            } else {
                self
            },
            Request::Continue,
        )
    }

    /// With the known ones of some tasks going back to the scheduler, in
    /// order.
    pub open spec fn then_enqueue_all(self, cpu: CpuId, pids: Seq<Pid>) -> SimView
        decreases pids.len(),
    {
        if pids.len() == 0 {
            self
        } else {
            self.then_enqueue_all(cpu, pids.skip(1)).then_if(
                self.find(pids[0]) is Some,
                Work::Call {
                    request: Request::Enqueue { cpu, pid: pids[0], flags: 0 },
                    cpu,
                    charge: None,
                    note: None,
                },
            )
        }
    }

    /// A CPU's queue goes back to the scheduler.
    pub open spec fn drain_local(self, cpu: CpuId) -> Step {
        (
            self.set_local(cpu, Seq::empty()).then_enqueue_all(cpu, self.local[cpu.0 as int]),
            Request::Continue,
        )
    }

    /// With a CPU that starts over: idle, ticking, looking for a task.
    pub open spec fn then_restart(self, cpu: CpuId) -> SimView {
        self.then_do(Work::TryDispatch { cpu }).then_do(Work::RestartTick { cpu }).then_call(
            cpu,
            Request::UpdateIdle { cpu, idle: true },
            Some(TraceKind::UpdateIdle { cpu, idle: true }),
        ).then_do(Work::Ask { request: Request::MarkIdle { cpu } })
    }

    /// The next tick comes after one interval.
    pub open spec fn restart_tick(self, cpu: CpuId) -> Step {
        (
            self.event(
                sat(self.cpu(cpu).local_clock + TICK_INTERVAL_NS),
                EventKind::Tick { cpu },
            ),
            Request::Continue,
        )
    }

    /// A CPU comes online.
    pub open spec fn cpu_online(self, cpu: CpuId) -> Step {
        (
            if self.cpu(cpu).is_online {
                self
            } else {
                self.set_online(cpu, true).then_restart(cpu).then_call(
                    cpu,
                    Request::CpuOnline { cpu },
                    None,
                )
            },
            Request::Continue,
        )
    }

    /// A higher scheduling class takes a CPU.
    pub open spec fn cpu_release(self, cpu: CpuId) -> Step {
        let c = self.cpu(cpu);
        (
            if c.is_online {
                self.then_do(Work::SetOnline { cpu, online: false }).then_call(
                    cpu,
                    Request::CpuRelease { cpu },
                    None,
                ).then_if(c.current_task is Some, Work::Preempt { cpu })
            } else {
                self
            },
            Request::Continue,
        )
    }

    /// A higher scheduling class gives a CPU back.
    pub open spec fn cpu_acquire(self, cpu: CpuId) -> Step {
        (
            self.set_online(cpu, true).then_restart(cpu).then_call(
                cpu,
                Request::CpuAcquire { cpu },
                None,
            ),
            Request::Continue,
        )
    }

    /// With some tasks to wake, in order.
    pub open spec fn then_wake_all(self, pids: Seq<Pid>) -> SimView
        decreases pids.len(),
    {
        if pids.len() == 0 {
            self
        } else {
            self.then_wake_all(pids.skip(1)).then_do(Work::Wake { pid: pids[0], waker: None })
        }
    }

    /// A CPU that serves an interrupt, whose time is stolen from the running
    /// task.
    pub open spec fn irq_entered(self, event: int, cpu: CpuId) -> SimView {
        let e = self.scenario.irq_events@[event];
        let c = self.cpu(cpu);
        let irq_context = match e.irq_type {
            IrqType::HardIrq => IrqContext::HardIrq,
            IrqType::SoftIrq => IrqContext::ServingSoftIrq,
        };
        self.record_now(cpu, TraceKind::IrqStart { cpu, irq_type: e.irq_type }).set_cpu(
            cpu,
            SimCpu {
                irq_context,
                irq_stolen_ns: if c.current_task is Some {
                    sat(c.irq_stolen_ns + e.duration_ns)
                } else {
                    c.irq_stolen_ns
                },
                irq_cumulative_ns: sat(c.irq_cumulative_ns + e.duration_ns),
                ..c
            },
        ).then_do(Work::IrqFinish { cpu, duration_ns: e.duration_ns })
    }

    /// An interrupt starts: it steals its time from the running task and may
    /// wake others.
    pub open spec fn irq_start(self, event: int, cpu: CpuId) -> Step {
        (
            self.irq_entered(event, cpu).then_wake_all(
                self.scenario.irq_events@[event].wake_pids@,
            ),
            Request::Continue,
        )
    }

    /// The interrupt's end is scheduled.
    pub open spec fn irq_finish(self, cpu: CpuId, duration_ns: TimeNs) -> Step {
        (
            self.event(sat(self.cpu(cpu).local_clock + duration_ns), EventKind::IrqEnd { cpu }),
            Request::Continue,
        )
    }

    /// The interrupt ends.
    pub open spec fn irq_end(self, cpu: CpuId) -> Step {
        (
            self.set_cpu(cpu, SimCpu { irq_context: IrqContext::Task, ..self.cpu(cpu) }).record_now(
                cpu,
                TraceKind::IrqEnd { cpu },
            ),
            Request::Continue,
        )
    }

    /// A running task does a futex operation; one that does not run is passed
    /// over.
    pub open spec fn futex_op(self, event: int, pid: Pid) -> Step {
        match cpu_running(self.cpus, pid) {
            None => (self, Request::Continue),
            Some(i) => {
                let cpu = CpuId(i as u32);
                let op = self.scenario.futex_events@[event].op;
                (
                    self.advance_cpu_clock(cpu).on_cpu(cpu).then_do(
                        Work::FutexDone { cpu, pid, op },
                    ),
                    Request::FutexOp { cpu, op },
                )
            },
        }
    }

    /// The futex operation is done.
    pub open spec fn futex_done(self, r: ReplyView, cpu: CpuId, pid: Pid, op: FutexOp) -> Step {
        (
            self.absorb(r).charge(cpu, r.cost).record_now(
                cpu,
                TraceKind::FutexBoost { pid, op, boosted: spec_boosted(r.value) },
            ),
            Request::Continue,
        )
    }

    /// A task is to start on a CPU that runs none.
    pub open spec fn start_event(self, cpu: CpuId, pid: Pid) -> Step {
        if self.cpu(cpu).current_task is Some {
            (self, Request::Continue)
        } else {
            self.start_running(cpu, pid)
        }
    }

    /// A kick arrives: it preempts what runs, or makes the CPU look for a
    /// task; a kick meant for an idle CPU does nothing to a busy one.
    pub open spec fn kicked(self, cpu: CpuId, flags: KickFlags) -> Step {
        let busy = self.cpu(cpu).current_task is Some;
        if flags.spec_preempt() && busy {
            self.preempt(cpu)
        } else if flags.spec_idle() && busy {
            (self, Request::Continue)
        } else {
            self.try_dispatch(cpu)
        }
    }
}

/// A CPU that is online has its next tick scheduled with every tick, after
/// the current time; an offline one has none.
pub proof fn law_ticks_go_on_while_online(s: SimView, r: ReplyView, cpu: CpuId)
    requires
        s.cpu(cpu).local_clock < u64::MAX,
    ensures
        exists|at: TimeNs|
            at > s.cpu(cpu).local_clock && s.tick_timed(r, cpu).0.events
                == #[trigger] s.events.push(at, EventKind::Tick { cpu }),
        !s.cpu(cpu).is_online ==> s.tick(cpu).0 == s,
{
    let at = sat(s.cpu(cpu).local_clock + tick_interval(r.value));
    assert(s.tick_timed(r, cpu).0.events == s.events.push(at, EventKind::Tick { cpu }));
}

/// Kicks are scheduled in order of time, then of CPU, then as they were sent:
/// what is scheduled first is not delivered after any other.
pub proof fn law_kicks_go_out_in_order(s: SimView, j: int)
    requires
        0 <= j < s.staged.len(),
    ensures
        exists|at: TimeNs, kind: EventKind|
            {
                &&& at <= s.staged[j].time_ns
                &&& kind is KickDelivered
                &&& s.flush_staged().0.events == #[trigger] s.events.push(at, kind)
            },
        s.flush_staged().0.staged.len() == s.staged.len() - 1,
{
    crate::sim_state::lemma_first_kick(s.staged);
    let k = s.staged[first_kick(s.staged)];
    assert(!crate::sim_state::kicks_before(s.staged[j], k));
    assert(s.flush_staged().0.events == s.events.push(
        k.time_ns,
        EventKind::KickDelivered { cpu: k.cpu, flags: k.flags },
    ));
}

/// Tasks held back for a control group are let go in the order in which they
/// were held back, until none is left.
pub proof fn law_blocked_tasks_leave_in_order(s: SimView, cgid: CgroupId, b: int)
    requires
        first_blocked(s.blocked, cgid) == Some(b),
    ensures
        0 <= b < s.blocked.len(),
        s.blocked[b].0 == cgid,
        forall|j: int| 0 <= j < b ==> (#[trigger] s.blocked[j]).0 != cgid,
{
    lemma_first_blocked(s.blocked, cgid);
}

/// What the first task held back is.
proof fn lemma_first_blocked(blocked: Seq<(CgroupId, Pid)>, cgid: CgroupId)
    ensures
        match first_blocked(blocked, cgid) {
            Some(b) => 0 <= b < blocked.len() && blocked[b].0 == cgid && forall|j: int|
                0 <= j < b ==> (#[trigger] blocked[j]).0 != cgid,
            None => forall|j: int| 0 <= j < blocked.len() ==> (#[trigger] blocked[j]).0 != cgid,
        },
    decreases blocked.len(),
{
    if blocked.len() > 0 {
        let rest = blocked.drop_last();
        lemma_first_blocked(rest, cgid);
        match first_blocked(rest, cgid) {
            Some(b) => {
                assert(blocked[b] == rest[b]);
                assert forall|j: int| 0 <= j < b implies (#[trigger] blocked[j]).0 != cgid by {
                    assert(rest[j].0 != cgid);
                }
            },
            None => {
                assert forall|j: int| 0 <= j < rest.len() implies (#[trigger] blocked[j]).0
                    != cgid by {
                    assert(rest[j].0 != cgid);
                }
            },
        }
    }
}

impl SimState {
    pub(crate) fn flush_staged(&mut self) -> (r: Request)
        requires
            old(self).wf(),
            old(self)@.has_room(),
        ensures
            final(self).wf(),
            (final(self)@, r) == old(self)@.flush_staged(),
    {
        if let Some(k) = self.take_kick() {
            self.push_event(k.time_ns, EventKind::KickDelivered { cpu: k.cpu, flags: k.flags });
            self.then_do(Work::FlushStaged);
        }
        Request::Continue
    }

    pub(crate) fn arm_timers(&mut self) -> (r: Request)
        requires
            old(self).wf(),
            old(self)@.has_room(),
        ensures
            final(self).wf(),
            (final(self)@, r) == old(self)@.arm_timers(),
    {
        self.send_timers();
        Request::Continue
    }

    pub(crate) fn tick(&mut self, cpu: CpuId) -> (r: Request)
        requires
            old(self).wf(),
            cpu.0 < old(self)@.cpus.len(),
        ensures
            final(self).wf(),
            (final(self)@, r) == old(self)@.tick(cpu),
    {
        if self.cpu(cpu).is_online {
            self.then_do(Work::TickTimed { cpu });
            Request::TickJitter
        } else {
            Request::Continue
        }
    }

    pub(crate) fn tick_timed(&mut self, reply: &Reply, cpu: CpuId) -> (r: Request)
        requires
            old(self).wf(),
            old(self)@.has_room(),
            cpu.0 < old(self)@.cpus.len(),
        ensures
            final(self).wf(),
            (final(self)@, r) == old(self)@.tick_timed(reply@, cpu),
    {
        let c = self.cpu(cpu);
        let wide: i128 = TICK_INTERVAL_NS as i128 + reply.value as i128;
        let interval: u64 = if wide < 1 {
            1
        } else {
            wide as u64
        };
        self.push_event(add_sat(c.local_clock, interval), EventKind::Tick { cpu });
        if let Some(pid) = c.current_task {
            if self.find_task(pid).is_some() {
                self.record_now(cpu, TraceKind::Tick { pid });
                self.then_do(Work::TickSlice { cpu, pid });
                self.then_do(Work::Ask { request: Request::Slice { pid } });
                self.then_do(
                    Work::Ask { request: Request::SampleQueues { time_ns: c.local_clock } },
                );
            }
        }
        Request::Continue
    }

    pub(crate) fn tick_slice(&mut self, reply: &Reply, cpu: CpuId, pid: Pid) -> (r: Request)
        requires
            old(self).wf(),
            cpu.0 < old(self)@.cpus.len(),
        ensures
            final(self).wf(),
            (final(self)@, r) == old(self)@.tick_slice(reply@, cpu, pid),
    {
        match self.find_task(pid) {
            None => Request::Continue,
            Some(i) => {
                let c = self.cpu(cpu);
                let since: TimeNs = match c.task_started_at {
                    Some(at) => at,
                    None => 0,
                };
                let elapsed = c.local_clock.saturating_sub(since);
                let sum_exec = add_sat(self.task(i).sum_exec_base, elapsed);
                self.set_current_cpu(cpu);
                self.then_do(Work::Ticked { cpu, pid, slice_before: reply.slice });
                Request::Tick { cpu, pid, sum_exec }
            },
        }
    }

    pub(crate) fn ticked(
        &mut self,
        reply: &Reply,
        cpu: CpuId,
        pid: Pid,
        slice_before: TimeNs,
    ) -> (r: Request)
        requires
            old(self).wf(),
            reply@.ok(old(self)@.cpus.len()),
            cpu.0 < old(self)@.cpus.len(),
        ensures
            final(self).wf(),
            (final(self)@, r) == old(self)@.ticked(reply@, cpu, pid, slice_before),
    {
        let busy = self.cpu(cpu).current_task.is_some();
        self.absorb(reply);
        self.charge_sched_time(cpu, reply.cost);
        let preempt = self.is_preempted(cpu) || (slice_before > 0 && reply.slice == 0);
        self.drop_kicks(cpu);
        self.then_if(preempt && busy, Work::Preempt { cpu });
        self.then_do(Work::FlushStaged);
        Request::Continue
    }

    pub(crate) fn timer_fired(&mut self, cpu: CpuId, slot: u8) -> (r: Request)
        requires
            old(self).wf(),
            cpu.0 < old(self)@.cpus.len(),
        ensures
            final(self).wf(),
            (final(self)@, r) == old(self)@.timer_fired(cpu, slot),
    {
        self.advance_cpu_clock(cpu);
        self.set_current_cpu(cpu);
        self.then_do(Work::TimerDone { cpu });
        Request::FireTimer { cpu, slot }
    }

    pub(crate) fn timer_done(&mut self, reply: &Reply, cpu: CpuId) -> (r: Request)
        requires
            old(self).wf(),
            reply@.ok(old(self)@.cpus.len()),
            cpu.0 < old(self)@.cpus.len(),
        ensures
            final(self).wf(),
            (final(self)@, r) == old(self)@.timer_done(reply@, cpu),
    {
        self.absorb(reply);
        self.charge_sched_time(cpu, reply.cost);
        let at = self.cpu(cpu).local_clock;
        self.then_do(Work::FlushStaged);
        self.then_do(Work::ArmTimers);
        let ghost s1 = self@;
        let kinds = &reply.budget_events;
        let mut i: usize = kinds.len();
        proof {
            assert(kinds@.skip(i as int) =~= Seq::empty());
        }
        while i > 0
            invariant
                self.wf(),
                i <= kinds@.len(),
                cpu.0 < self@.cpus.len(),
                self@ == s1.then_budgets(cpu, at, kinds@.skip(i as int)),
            decreases i,
        {
            i = i - 1;
            self.then_do(Work::BudgetEvent { cpu, at, kind: kinds[i] });
            proof {
                assert(kinds@.skip(i as int).skip(1) =~= kinds@.skip(i + 1));
            }
        }
        proof {
            assert(kinds@.skip(0) =~= kinds@);
        }
        Request::Continue
    }

    pub(crate) fn budget_event(&mut self, cpu: CpuId, at: TimeNs, kind: TraceKind) -> (r: Request)
        requires
            old(self).wf(),
            cpu.0 < old(self)@.cpus.len(),
        ensures
            final(self).wf(),
            (final(self)@, r) == old(self)@.budget_event(cpu, at, kind),
    {
        self.record(at, cpu, kind);
        match kind {
            TraceKind::CgroupBwReplenish { cgid, keep_throttled, .. } => {
                self.then_if(!keep_throttled, Work::DrainBlocked { cpu, at, cgid });
            },
            _ => {},
        }
        Request::Continue
    }

    pub(crate) fn drain_blocked(&mut self, cpu: CpuId, at: TimeNs, cgid: CgroupId) -> (r: Request)
        requires
            old(self).wf(),
            old(self)@.has_room(),
            cpu.0 < old(self)@.cpus.len(),
        ensures
            final(self).wf(),
            (final(self)@, r) == old(self)@.drain_blocked(cpu, at, cgid),
    {
        proof {
            self.lemma_wf();
        }
        if let Some(pid) = self.take_blocked(cgid) {
            if let Some(i) = self.find_task(pid) {
                let mut t = self.task(i);
                t.state = TaskState::Sleeping;
                self.put_task(i, t);
            }
            self.push_event(at, EventKind::TaskWake { pid, waker: None, cpu });
            self.record(at, cpu, TraceKind::CgroupBwReenqueueOnReplenish { pid, cgid });
            self.then_do(Work::DrainBlocked { cpu, at, cgid });
        }
        Request::Continue
    }

    pub(crate) fn set_online(&mut self, cpu: CpuId, online: bool)
        requires
            old(self).wf(),
            cpu.0 < old(self)@.cpus.len(),
        ensures
            final(self).wf(),
            final(self)@ == old(self)@.set_online(cpu, online),
    {
        let mut c = self.cpu(cpu);
        c.is_online = online;
        self.put_cpu(cpu, c);
    }

    pub(crate) fn cpu_offline(&mut self, cpu: CpuId) -> (r: Request)
        requires
            old(self).wf(),
            cpu.0 < old(self)@.cpus.len(),
        ensures
            final(self).wf(),
            (final(self)@, r) == old(self)@.cpu_offline(cpu),
    {
        let c = self.cpu(cpu);
        if c.is_online {
            self.then_do(Work::SetOnline { cpu, online: false });
            self.then_call(cpu, Request::CpuOffline { cpu }, None);
            self.then_do(Work::DrainLocal { cpu });
            self.then_if(c.current_task.is_some(), Work::Preempt { cpu });
        }
        Request::Continue
    }

    pub(crate) fn drain_local(&mut self, cpu: CpuId) -> (r: Request)
        requires
            old(self).wf(),
            cpu.0 < old(self)@.cpus.len(),
        ensures
            final(self).wf(),
            (final(self)@, r) == old(self)@.drain_local(cpu),
    {
        let pids = self.take_local(cpu);
        let ghost s1 = self@;
        let mut i: usize = pids.len();
        proof {
            assert(pids@.skip(i as int) =~= Seq::empty());
        }
        while i > 0
            invariant
                self.wf(),
                i <= pids@.len(),
                cpu.0 < self@.cpus.len(),
                self@.tasks == s1.tasks,
                self@ == s1.then_enqueue_all(cpu, pids@.skip(i as int)),
            decreases i,
        {
            i = i - 1;
            let pid = pids[i];
            if self.find_task(pid).is_some() {
                self.then_call_free(cpu, Request::Enqueue { cpu, pid, flags: 0 });
            }
            proof {
                assert(pids@.skip(i as int).skip(1) =~= pids@.skip(i + 1));
            }
        }
        proof {
            assert(pids@.skip(0) =~= pids@);
        }
        Request::Continue
    }

    fn then_restart(&mut self, cpu: CpuId)
        requires
            old(self).wf(),
            cpu.0 < old(self)@.cpus.len(),
        ensures
            final(self).wf(),
            final(self)@ == old(self)@.then_restart(cpu),
    {
        self.then_do(Work::TryDispatch { cpu });
        self.then_do(Work::RestartTick { cpu });
        self.then_call(
            cpu,
            Request::UpdateIdle { cpu, idle: true },
            Some(TraceKind::UpdateIdle { cpu, idle: true }),
        );
        self.then_do(Work::Ask { request: Request::MarkIdle { cpu } });
    }

    pub(crate) fn restart_tick(&mut self, cpu: CpuId) -> (r: Request)
        requires
            old(self).wf(),
            old(self)@.has_room(),
            cpu.0 < old(self)@.cpus.len(),
        ensures
            final(self).wf(),
            (final(self)@, r) == old(self)@.restart_tick(cpu),
    {
        let at = add_sat(self.cpu(cpu).local_clock, TICK_INTERVAL_NS);
        self.push_event(at, EventKind::Tick { cpu });
        Request::Continue
    }

    pub(crate) fn cpu_online(&mut self, cpu: CpuId) -> (r: Request)
        requires
            old(self).wf(),
            cpu.0 < old(self)@.cpus.len(),
        ensures
            final(self).wf(),
            (final(self)@, r) == old(self)@.cpu_online(cpu),
    {
        if !self.cpu(cpu).is_online {
            self.set_online(cpu, true);
            self.then_restart(cpu);
            self.then_call(cpu, Request::CpuOnline { cpu }, None);
        }
        Request::Continue
    }

    pub(crate) fn cpu_release(&mut self, cpu: CpuId) -> (r: Request)
        requires
            old(self).wf(),
            cpu.0 < old(self)@.cpus.len(),
        ensures
            final(self).wf(),
            (final(self)@, r) == old(self)@.cpu_release(cpu),
    {
        let c = self.cpu(cpu);
        if c.is_online {
            self.then_do(Work::SetOnline { cpu, online: false });
            self.then_call(cpu, Request::CpuRelease { cpu }, None);
            self.then_if(c.current_task.is_some(), Work::Preempt { cpu });
        }
        Request::Continue
    }

    pub(crate) fn cpu_acquire(&mut self, cpu: CpuId) -> (r: Request)
        requires
            old(self).wf(),
            cpu.0 < old(self)@.cpus.len(),
        ensures
            final(self).wf(),
            (final(self)@, r) == old(self)@.cpu_acquire(cpu),
    {
        self.set_online(cpu, true);
        self.then_restart(cpu);
        self.then_call(cpu, Request::CpuAcquire { cpu }, None);
        Request::Continue
    }

    /// The tasks that an interrupt wakes.
    fn irq_wakes(&self, event: usize) -> (r: Vec<Pid>)
        requires
            event < self@.scenario.irq_events@.len(),
        ensures
            r@ == self@.scenario.irq_events@[event as int].wake_pids@,
    {
        let pids = &self.scenario().irq_events[event].wake_pids;
        let mut r: Vec<Pid> = Vec::new();
        let mut i: usize = 0;
        while i < pids.len()
            invariant
                i <= pids@.len(),
                r@ == pids@.take(i as int),
            decreases pids@.len() - i,
        {
            r.push(pids[i]);
            proof {
                assert(pids@.take(i + 1) =~= pids@.take(i as int).push(pids@[i as int]));
            }
            i = i + 1;
        }
        proof {
            assert(pids@.take(i as int) =~= pids@);
        }
        r
    }

    pub(crate) fn irq_start(&mut self, event: usize, cpu: CpuId) -> (r: Request)
        requires
            old(self).wf(),
            cpu.0 < old(self)@.cpus.len(),
            event < old(self)@.scenario.irq_events@.len(),
        ensures
            final(self).wf(),
            (final(self)@, r) == old(self)@.irq_start(event as int, cpu),
    {
        let irq_type = self.scenario().irq_events[event].irq_type;
        let duration_ns = self.scenario().irq_events[event].duration_ns;
        let pids = self.irq_wakes(event);
        let mut c = self.cpu(cpu);
        c.irq_context = match irq_type {
            IrqType::HardIrq => IrqContext::HardIrq,
            IrqType::SoftIrq => IrqContext::ServingSoftIrq,
        };
        if c.current_task.is_some() {
            c.irq_stolen_ns = add_sat(c.irq_stolen_ns, duration_ns);
        }
        c.irq_cumulative_ns = add_sat(c.irq_cumulative_ns, duration_ns);
        self.record_now(cpu, TraceKind::IrqStart { cpu, irq_type });
        self.put_cpu(cpu, c);
        self.then_do(Work::IrqFinish { cpu, duration_ns });
        let ghost s1 = self@;
        let mut i: usize = pids.len();
        proof {
            assert(pids@.skip(i as int) =~= Seq::empty());
        }
        while i > 0
            invariant
                self.wf(),
                i <= pids@.len(),
                self@ == s1.then_wake_all(pids@.skip(i as int)),
            decreases i,
        {
            i = i - 1;
            self.then_do(Work::Wake { pid: pids[i], waker: None });
            proof {
                assert(pids@.skip(i as int).skip(1) =~= pids@.skip(i + 1));
            }
        }
        proof {
            assert(pids@.skip(0) =~= pids@);
        }
        Request::Continue
    }

    pub(crate) fn irq_finish(&mut self, cpu: CpuId, duration_ns: TimeNs) -> (r: Request)
        requires
            old(self).wf(),
            old(self)@.has_room(),
            cpu.0 < old(self)@.cpus.len(),
        ensures
            final(self).wf(),
            (final(self)@, r) == old(self)@.irq_finish(cpu, duration_ns),
    {
        let at = add_sat(self.cpu(cpu).local_clock, duration_ns);
        self.push_event(at, EventKind::IrqEnd { cpu });
        Request::Continue
    }

    pub(crate) fn irq_end(&mut self, cpu: CpuId) -> (r: Request)
        requires
            old(self).wf(),
            cpu.0 < old(self)@.cpus.len(),
        ensures
            final(self).wf(),
            (final(self)@, r) == old(self)@.irq_end(cpu),
    {
        let mut c = self.cpu(cpu);
        c.irq_context = IrqContext::Task;
        self.put_cpu(cpu, c);
        self.record_now(cpu, TraceKind::IrqEnd { cpu });
        Request::Continue
    }

    /// The lowest CPU that runs a task.
    fn cpu_of(&self, pid: Pid) -> (r: Option<CpuId>)
        requires
            self.wf(),
        ensures
            match r {
                Some(c) => cpu_running(self@.cpus, pid) == Some(c.0 as int) && c.0
                    < self@.cpus.len(),
                None => cpu_running(self@.cpus, pid) is None,
            },
    {
        proof {
            self.lemma_wf();
        }
        let n = self.nr_cpus();
        let ghost cpus = self@.cpus;
        let mut i: usize = 0;
        while i < n
            invariant
                n == cpus.len(),
                cpus == self@.cpus,
                n <= u32::MAX,
                i <= n,
                cpu_running(cpus.take(i as int), pid) is None,
            decreases n - i,
        {
            let c = CpuId(i as u32);
            proof {
                assert(cpus.take(i + 1).drop_last() =~= cpus.take(i as int));
            }
            if self.cpu(c).current_task == Some(pid) {
                proof {
                    lemma_cpu_running_stays(cpus, pid, i + 1);
                }
                return Some(c);
            }
            i = i + 1;
        }
        proof {
            assert(cpus.take(n as int) =~= cpus);
        }
        None
    }

    pub(crate) fn futex_op(&mut self, event: usize, pid: Pid) -> (r: Request)
        requires
            old(self).wf(),
            event < old(self)@.scenario.futex_events@.len(),
        ensures
            final(self).wf(),
            (final(self)@, r) == old(self)@.futex_op(event as int, pid),
    {
        match self.cpu_of(pid) {
            None => Request::Continue,
            Some(cpu) => {
                let op = self.scenario().futex_events[event].op;
                self.advance_cpu_clock(cpu);
                self.set_current_cpu(cpu);
                self.then_do(Work::FutexDone { cpu, pid, op });
                Request::FutexOp { cpu, op }
            },
        }
    }

    pub(crate) fn futex_done(&mut self, reply: &Reply, cpu: CpuId, pid: Pid, op: FutexOp) -> (r:
        Request)
        requires
            old(self).wf(),
            reply@.ok(old(self)@.cpus.len()),
            cpu.0 < old(self)@.cpus.len(),
        ensures
            final(self).wf(),
            (final(self)@, r) == old(self)@.futex_done(reply@, cpu, pid, op),
    {
        self.absorb(reply);
        self.charge_sched_time(cpu, reply.cost);
        self.record_now(
            cpu,
            TraceKind::FutexBoost { pid, op, boosted: boosted(reply.value) },
        );
        Request::Continue
    }

    pub(crate) fn start_event(&mut self, cpu: CpuId, pid: Pid) -> (r: Request)
        requires
            old(self).wf(),
            cpu.0 < old(self)@.cpus.len(),
        ensures
            final(self).wf(),
            (final(self)@, r) == old(self)@.start_event(cpu, pid),
    {
        if self.cpu(cpu).current_task.is_some() {
            Request::Continue
        } else {
            self.start_running(cpu, pid)
        }
    }

    pub(crate) fn kicked(&mut self, cpu: CpuId, flags: KickFlags) -> (r: Request)
        requires
            old(self).wf(),
            cpu.0 < old(self)@.cpus.len(),
        ensures
            final(self).wf(),
            (final(self)@, r) == old(self)@.kicked(cpu, flags),
    {
        let busy = self.cpu(cpu).current_task.is_some();
        if flags.preempt() && busy {
            self.preempt(cpu)
        } else if flags.idle() && busy {
            Request::Continue
        } else {
            self.try_dispatch(cpu)
        }
    }
}

/// The lowest CPU found stays the lowest among more.
proof fn lemma_cpu_running_stays(cpus: Seq<SimCpu>, pid: Pid, n: int)
    requires
        0 < n <= cpus.len(),
        cpu_running(cpus.take(n), pid) == Some(n - 1),
    ensures
        cpu_running(cpus, pid) == Some(n - 1),
    decreases cpus.len(),
{
    if n == cpus.len() {
        assert(cpus.take(n) =~= cpus);
    } else {
        assert(cpus.drop_last().take(n) =~= cpus.take(n));
        lemma_cpu_running_stays(cpus.drop_last(), pid, n);
    }
}

} // verus!
