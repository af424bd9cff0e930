//! Putting a task on a CPU and taking it off again.

use vstd::prelude::*;

use crate::event_queue::EventKind;
use crate::sim_state::{add_sat, larger, sat, SimState, SimView};
use crate::state::{
    ProbePoint, Reply, ReplyView, Request, SimCpu, SimTask, TaskState, Work,
};
use crate::trace::TraceKind;
use crate::types::{CpuId, Pid, TimeNs};

verus! {

/// What follows a step: the new state and what is asked.
pub type Step = (SimView, Request);

/// How long a task may run: its time slice, cut to the remaining budget of
/// its control group. A budget used up still grants a nanosecond, and a task
/// without a slice runs as long as the budget lasts.
pub open spec fn spec_granted(slice: TimeNs, budget: Option<u64>) -> TimeNs {
    match budget {
        Some(b) => {
            let b1 = larger(b, 1);
            if slice == 0 || b1 < slice {
                b1
            } else {
                slice
            }
        },
        None => slice,
    }
}

/// How long a task may run.
pub fn granted(slice: TimeNs, budget: Option<u64>) -> (r: TimeNs)
    ensures
        r == spec_granted(slice, budget),
{
    match budget {
        Some(b) => {
            let b1: u64 = if b >= 1 {
                b
            } else {
                1
            };
            if slice == 0 || b1 < slice {
                b1
            } else {
                slice
            }
        },
        None => slice,
    }
}

/// A task never gets more than the remaining budget of its control group, nor
/// more than its slice; and where either limits it, it gets something.
pub proof fn law_grant_respects_both_limits(slice: TimeNs, budget: u64)
    ensures
        spec_granted(slice, Some(budget)) <= larger(budget, 1),
        slice > 0 ==> spec_granted(slice, Some(budget)) <= slice,
        spec_granted(slice, Some(budget)) > 0,
{
}

/// What a drawn value adds where only a delay makes sense.
pub open spec fn delay(value: i64) -> u64 {
    if value > 0 {
        value as u64
    } else {
        0
    }
}

pub(crate) fn delay_of(value: i64) -> (r: u64)
    ensures
        r == delay(value),
{
    if value > 0 {
        value as u64
    } else {
        0
    }
}

/// The remaining budget that a reply reports for a task: none outside the
/// control groups, and none where there is no limit.
pub open spec fn budget_of(t: SimTask, r: ReplyView) -> Option<u64> {
    if t.cgid is Some && r.budget != Some(u64::MAX) {
        r.budget
    } else {
        None
    }
}

impl SimView {
    /// A task is put on a CPU. One that has exited meanwhile is passed over.
    pub open spec fn start_running(self, cpu: CpuId, pid: Pid) -> Step {
        match self.find(pid) {
            None => (self, Request::Continue),
            Some(i) => {
                let t = self.tasks[i];
                if t.state is Exited {
                    (self.then_do(Work::TryDispatch { cpu }), Request::Continue)
                } else {
                    let migrated = t.prev_cpu != cpu;
                    let cross_llc = migrated && self.cpu(t.prev_cpu).llc_id != self.cpu(cpu).llc_id;
                    let c = SimCpu {
                        current_task: Some(pid),
                        prev_task: None,
                        irq_stolen_ns: 0,
                        ..self.cpu(cpu)
                    };
                    let t1 = SimTask {
                        state: TaskState::Running { cpu },
                        prev_cpu: cpu,
                        runnable_at_ns: None,
                        ..t
                    };
                    (
                        self.set_task(i, t1).set_cpu(cpu, c).then_do(
                            Work::MarkedBusy { cpu, pid, migrated, cross_llc },
                        ),
                        Request::MarkBusy { cpu, pid },
                    )
                }
            },
        }
    }

    /// The CPU is marked busy: the scheduler hears that the CPU leaves idle,
    /// if it was, that the task enters its class, the first time, and that the
    /// task runs.
    pub open spec fn marked_busy(
        self,
        r: ReplyView,
        cpu: CpuId,
        pid: Pid,
        migrated: bool,
        cross_llc: bool,
    ) -> Step {
        match self.find(pid) {
            None => (self, Request::Continue),
            Some(i) => {
                let t = self.tasks[i];
                (
                    self.set_task(
                        i,
                        SimTask { sum_exec_base: r.sum_exec, enabled: true, ..t },
                    ).then_do(Work::RunFloor { cpu, pid, migrated, cross_llc }).then_do(
                        Work::Probe { point: ProbePoint::Running, pid, cpu },
                    ).then_call(
                        cpu,
                        Request::Running { cpu, pid },
                        None,
                    ).then_if(
                        !t.enabled,
                        Work::Call {
                            request: Request::Enable { pid },
                            cpu,
                            charge: Some(cpu),
                            note: Some(TraceKind::Enable { pid }),
                        },
                    ).then_if(
                        r.value == 1,
                        Work::Call {
                            request: Request::UpdateIdle { cpu, idle: false },
                            cpu,
                            charge: Some(cpu),
                            note: Some(TraceKind::UpdateIdle { cpu, idle: false }),
                        },
                    ),
                    Request::Continue,
                )
            },
        }
    }

    /// Whether a wakeup's latency is modelled for a task.
    pub open spec fn latency_applies(self, t: SimTask) -> bool {
        self.scenario.overhead.enabled && t.enqueued_at_ns is Some
    }

    /// A wakeup takes some time; how long is asked if there is a least.
    pub open spec fn run_floor(self, cpu: CpuId, pid: Pid, migrated: bool, cross_llc: bool) -> Step {
        match self.find(pid) {
            None => (self, Request::Continue),
            Some(i) => {
                let floor = self.scenario.overhead.wakeup_latency_floor_ns;
                let asked = self.latency_applies(self.tasks[i]) && floor > 0;
                (
                    self.then_do(Work::RunFloored { cpu, pid, migrated, cross_llc, asked }),
                    if asked {
                        Request::WakeupLatency { floor }
                    } else {
                        Request::Continue
                    },
                )
            },
        }
    }

    /// What a migration adds to a wakeup's latency.
    pub open spec fn migration_cost(self, migrated: bool, cross_llc: bool) -> int {
        let o = self.scenario.overhead;
        if migrated && o.migration_penalty_ns > 0 {
            o.migration_penalty_ns + if cross_llc {
                o.cross_llc_migration_penalty_ns as int
            } else {
                0
            }
        } else {
            0
        }
    }

    /// The task does not start before its wakeup and the latency are over.
    pub open spec fn run_floored(
        self,
        r: ReplyView,
        cpu: CpuId,
        pid: Pid,
        migrated: bool,
        cross_llc: bool,
        asked: bool,
    ) -> Step {
        match self.find(pid) {
            None => (self, Request::Continue),
            Some(i) => {
                let t = self.tasks[i];
                let latency = if asked {
                    delay(r.value) as int
                } else {
                    0
                } + self.migration_cost(migrated, cross_llc);
                let s1 = if self.latency_applies(t) {
                    self.set_clock(
                        cpu,
                        larger(self.cpu(cpu).local_clock, sat(t.enqueued_at_ns->0 + latency)),
                    )
                } else {
                    self
                };
                (
                    s1.set_task(i, SimTask { enqueued_at_ns: None, ..t }).then_do(
                        Work::RunSet { cpu, pid },
                    ),
                    Request::Continue,
                )
            },
        }
    }

    /// The task is recorded as running. Its compute time may vary.
    pub open spec fn run_set(self, cpu: CpuId, pid: Pid) -> Step {
        match self.find(pid) {
            None => (self, Request::Continue),
            Some(i) => {
                let left = self.tasks[i].run_remaining_ns;
                let noise = self.scenario.noise;
                let s1 = self.record_now(cpu, TraceKind::SetNextTask { pid }).record_now(
                    cpu,
                    TraceKind::TaskScheduled { pid },
                );
                if left > 0 && noise.enabled && noise.run_jitter && noise.run_jitter_cv_ppm > 0 {
                    (
                        s1.then_do(Work::RunJittered { cpu, pid }),
                        Request::RunJitter {
                            stddev: (left * noise.run_jitter_cv_ppm / 1_000_000) as u64,
                        },
                    )
                } else {
                    (s1.then_do(Work::RunLimits { cpu, pid }), Request::Continue)
                }
            },
        }
    }

    /// The compute time varies, but something is left to do.
    pub open spec fn run_jittered(self, r: ReplyView, cpu: CpuId, pid: Pid) -> Step {
        match self.find(pid) {
            None => (self, Request::Continue),
            Some(i) => {
                let t = self.tasks[i];
                let left = t.run_remaining_ns + r.value;
                (
                    self.set_task(
                        i,
                        SimTask {
                            run_remaining_ns: if left < 1 {
                                1
                            } else {
                                sat(left)
                            },
                            ..t
                        },
                    ).then_do(Work::RunLimits { cpu, pid }),
                    Request::Continue,
                )
            },
        }
    }

    /// The task's limits are asked for.
    pub open spec fn run_limits(self, cpu: CpuId, pid: Pid) -> Step {
        match self.find(pid) {
            None => (self, Request::Continue),
            Some(i) => (
                self.then_do(Work::RunStart { cpu, pid }),
                Request::Limits { pid, cgid: self.tasks[i].cgid },
            ),
        }
    }

    /// The task runs until its phase is complete or its time is up, whichever
    /// comes first; at once, if nothing is left to do.
    pub open spec fn run_start(self, r: ReplyView, cpu: CpuId, pid: Pid) -> Step {
        match self.find(pid) {
            None => (self, Request::Continue),
            Some(i) => {
                let t = self.tasks[i];
                let now = self.cpu(cpu).local_clock;
                let slice = spec_granted(r.slice, budget_of(t, r));
                let s1 = self.set_cpu(
                    cpu,
                    SimCpu {
                        task_started_at: Some(now),
                        task_original_slice: Some(slice),
                        ..self.cpu(cpu)
                    },
                );
                let left = t.run_remaining_ns;
                (
                    if left == 0 {
                        s1.event(now, EventKind::TaskPhaseComplete { cpu })
                    } else if 0 < slice <= left {
                        s1.event(sat(now + slice), EventKind::SliceExpired { cpu })
                    } else {
                        s1.event(sat(now + left), EventKind::TaskPhaseComplete { cpu })
                    },
                    Request::Continue,
                )
            },
        }
    }
}

/// A task put on a CPU has exactly one end scheduled: no later than its
/// remaining work takes, and no later than its slice lasts if it has one.
pub proof fn law_run_has_one_end(s: SimView, r: ReplyView, cpu: CpuId, pid: Pid)
    requires
        s.ok(),
        s.find(pid) is Some,
        cpu.0 < s.cpus.len(),
    ensures
        ({
            let after = s.run_start(r, cpu, pid).0;
            let t = s.tasks[s.find(pid)->0];
            let slice = spec_granted(r.slice, budget_of(t, r));
            let now = s.cpu(cpu).local_clock;
            exists|at: TimeNs, kind: EventKind|
                {
                    &&& now <= at <= sat(now + t.run_remaining_ns)
                    &&& slice > 0 ==> at <= sat(now + slice)
                    &&& kind == (EventKind::SliceExpired { cpu }) || kind == (
                    EventKind::TaskPhaseComplete { cpu })
                    &&& after.events == #[trigger] s.events.push(at, kind)
                }
        }),
{
    let t = s.tasks[s.find(pid)->0];
    let slice = spec_granted(r.slice, budget_of(t, r));
    let now = s.cpu(cpu).local_clock;
    let left = t.run_remaining_ns;
    let after = s.run_start(r, cpu, pid).0;
    if left > 0 && 0 < slice <= left {
        assert(after.events == s.events.push(sat(now + slice), EventKind::SliceExpired { cpu }));
    } else {
        assert(after.events == s.events.push(
            sat(now + left),
            EventKind::TaskPhaseComplete { cpu },
        ));
    }
}

impl SimState {
    /// Puts a task on a CPU.
    pub(crate) fn start_running(&mut self, cpu: CpuId, pid: Pid) -> (r: Request)
        requires
            old(self).wf(),
            cpu.0 < old(self)@.cpus.len(),
        ensures
            final(self).wf(),
            (final(self)@, r) == old(self)@.start_running(cpu, pid),
    {
        proof {
            self.lemma_wf();
        }
        match self.find_task(pid) {
            None => Request::Continue,
            Some(i) => {
                let mut t = self.task(i);
                if let TaskState::Exited = t.state {
                    self.then_do(Work::TryDispatch { cpu });
                    return Request::Continue;
                }
                let migrated = t.prev_cpu != cpu;
                let cross_llc = migrated && self.cpu(t.prev_cpu).llc_id != self.cpu(cpu).llc_id;
                t.state = TaskState::Running { cpu };
                t.prev_cpu = cpu;
                t.runnable_at_ns = None;
                self.put_task(i, t);
                let mut c = self.cpu(cpu);
                c.current_task = Some(pid);
                c.prev_task = None;
                c.irq_stolen_ns = 0;
                self.put_cpu(cpu, c);
                self.then_do(Work::MarkedBusy { cpu, pid, migrated, cross_llc });
                Request::MarkBusy { cpu, pid }
            },
        }
    }

    pub(crate) fn marked_busy(
        &mut self,
        reply: &Reply,
        cpu: CpuId,
        pid: Pid,
        migrated: bool,
        cross_llc: bool,
    ) -> (r: Request)
        requires
            old(self).wf(),
            cpu.0 < old(self)@.cpus.len(),
        ensures
            final(self).wf(),
            (final(self)@, r) == old(self)@.marked_busy(reply@, cpu, pid, migrated, cross_llc),
    {
        proof {
            self.lemma_wf();
        }
        match self.find_task(pid) {
            None => {},
            Some(i) => {
                let mut t = self.task(i);
                let first_time = !t.enabled;
                t.sum_exec_base = reply.sum_exec;
                t.enabled = true;
                self.put_task(i, t);
                self.then_do(Work::RunFloor { cpu, pid, migrated, cross_llc });
                self.then_do(Work::Probe { point: ProbePoint::Running, pid, cpu });
                self.then_call(cpu, Request::Running { cpu, pid }, None);
                self.then_if(
                    first_time,
                    Work::Call {
                        request: Request::Enable { pid },
                        cpu,
                        charge: Some(cpu),
                        note: Some(TraceKind::Enable { pid }),
                    },
                );
                self.then_if(
                    reply.value == 1,
                    Work::Call {
                        request: Request::UpdateIdle { cpu, idle: false },
                        cpu,
                        charge: Some(cpu),
                        note: Some(TraceKind::UpdateIdle { cpu, idle: false }),
                    },
                );
            },
        }
        Request::Continue
    }

    fn latency_applies(&self, t: &SimTask) -> (r: bool)
        ensures
            r == self@.latency_applies(*t),
    {
        self.scenario().overhead.enabled && t.enqueued_at_ns.is_some()
    }

    pub(crate) fn run_floor(
        &mut self,
        cpu: CpuId,
        pid: Pid,
        migrated: bool,
        cross_llc: bool,
    ) -> (r: Request)
        requires
            old(self).wf(),
            cpu.0 < old(self)@.cpus.len(),
        ensures
            final(self).wf(),
            (final(self)@, r) == old(self)@.run_floor(cpu, pid, migrated, cross_llc),
    {
        match self.find_task(pid) {
            None => Request::Continue,
            Some(i) => {
                let t = self.task(i);
                let floor = self.scenario().overhead.wakeup_latency_floor_ns;
                let asked = self.latency_applies(&t) && floor > 0;
                self.then_do(Work::RunFloored { cpu, pid, migrated, cross_llc, asked });
                if asked {
                    Request::WakeupLatency { floor }
                } else {
                    Request::Continue
                }
            },
        }
    }

    fn migration_cost(&self, migrated: bool, cross_llc: bool) -> (r: u64)
        ensures
            r == sat(self@.migration_cost(migrated, cross_llc)),
            self@.migration_cost(migrated, cross_llc) >= 0,
    {
        let o = &self.scenario().overhead;
        if migrated && o.migration_penalty_ns > 0 {
            if cross_llc {
                add_sat(o.migration_penalty_ns, o.cross_llc_migration_penalty_ns)
            } else {
                o.migration_penalty_ns
            }
        } else {
            0
        }
    }

    pub(crate) fn run_floored(
        &mut self,
        reply: &Reply,
        cpu: CpuId,
        pid: Pid,
        migrated: bool,
        cross_llc: bool,
        asked: bool,
    ) -> (r: Request)
        requires
            old(self).wf(),
            cpu.0 < old(self)@.cpus.len(),
        ensures
            final(self).wf(),
            (final(self)@, r) == old(self)@.run_floored(
                reply@,
                cpu,
                pid,
                migrated,
                cross_llc,
                asked,
            ),
    {
        proof {
            self.lemma_wf();
        }
        match self.find_task(pid) {
            None => {},
            Some(i) => {
                let mut t = self.task(i);
                if self.latency_applies(&t) {
                    let base: u64 = if asked {
                        delay_of(reply.value)
                    } else {
                        0
                    };
                    let latency = add_sat(base, self.migration_cost(migrated, cross_llc));
                    if let Some(woken) = t.enqueued_at_ns {
                        let earliest = add_sat(woken, latency);
                        let now = self.cpu(cpu).local_clock;
                        self.put_clock(
                            cpu,
                            if now >= earliest {
                                now
                            } else {
                                earliest
                            },
                        );
                    }
                }
                t.enqueued_at_ns = None;
                self.put_task(i, t);
                self.then_do(Work::RunSet { cpu, pid });
            },
        }
        Request::Continue
    }

    pub(crate) fn run_set(&mut self, cpu: CpuId, pid: Pid) -> (r: Request)
        requires
            old(self).wf(),
            cpu.0 < old(self)@.cpus.len(),
        ensures
            final(self).wf(),
            (final(self)@, r) == old(self)@.run_set(cpu, pid),
    {
        match self.find_task(pid) {
            None => Request::Continue,
            Some(i) => {
                let left = self.task(i).run_remaining_ns;
                self.record_now(cpu, TraceKind::SetNextTask { pid });
                self.record_now(cpu, TraceKind::TaskScheduled { pid });
                let noise = &self.scenario().noise;
                let cv = noise.run_jitter_cv_ppm;
                if left > 0 && noise.enabled && noise.run_jitter && cv > 0 {
                    assert(left * cv <= u64::MAX * u64::MAX && left * cv >= 0) by (nonlinear_arith)
                        requires
                            0 <= left <= u64::MAX,
                            0 <= cv <= u64::MAX,
                    ;
                    let stddev = (left as u128 * cv as u128 / 1_000_000) as u64;
                    self.then_do(Work::RunJittered { cpu, pid });
                    Request::RunJitter { stddev }
                } else {
                    self.then_do(Work::RunLimits { cpu, pid });
                    Request::Continue
                }
            },
        }
    }

    pub(crate) fn run_jittered(&mut self, reply: &Reply, cpu: CpuId, pid: Pid) -> (r: Request)
        requires
            old(self).wf(),
            cpu.0 < old(self)@.cpus.len(),
        ensures
            final(self).wf(),
            (final(self)@, r) == old(self)@.run_jittered(reply@, cpu, pid),
    {
        proof {
            self.lemma_wf();
        }
        match self.find_task(pid) {
            None => {},
            Some(i) => {
                let mut t = self.task(i);
                let left: i128 = t.run_remaining_ns as i128 + reply.value as i128;
                t.run_remaining_ns = if left < 1 {
                    1
                } else if left > u64::MAX as i128 {
                    u64::MAX
                } else {
                    left as u64
                };
                self.put_task(i, t);
                self.then_do(Work::RunLimits { cpu, pid });
            },
        }
        Request::Continue
    }

    pub(crate) fn run_limits(&mut self, cpu: CpuId, pid: Pid) -> (r: Request)
        requires
            old(self).wf(),
            cpu.0 < old(self)@.cpus.len(),
        ensures
            final(self).wf(),
            (final(self)@, r) == old(self)@.run_limits(cpu, pid),
    {
        match self.find_task(pid) {
            None => Request::Continue,
            Some(i) => {
                let cgid = self.task(i).cgid;
                self.then_do(Work::RunStart { cpu, pid });
                Request::Limits { pid, cgid }
            },
        }
    }

    pub(crate) fn run_start(&mut self, reply: &Reply, cpu: CpuId, pid: Pid) -> (r: Request)
        requires
            old(self).wf(),
            old(self)@.has_room(),
            cpu.0 < old(self)@.cpus.len(),
        ensures
            final(self).wf(),
            (final(self)@, r) == old(self)@.run_start(reply@, cpu, pid),
    {
        match self.find_task(pid) {
            None => {},
            Some(i) => {
                let t = self.task(i);
                let budget: Option<u64> = match (t.cgid, reply.budget) {
                    (Some(_), Some(b)) => if b == u64::MAX {
                        None
                    } else {
                        Some(b)
                    },
                    _ => None,
                };
                let slice = granted(reply.slice, budget);
                let mut c = self.cpu(cpu);
                let now = c.local_clock;
                c.task_started_at = Some(now);
                c.task_original_slice = Some(slice);
                self.put_cpu(cpu, c);
                let left = t.run_remaining_ns;
                if left == 0 {
                    self.push_event(now, EventKind::TaskPhaseComplete { cpu });
                } else if slice > 0 && slice <= left {
                    self.push_event(add_sat(now, slice), EventKind::SliceExpired { cpu });
                } else {
                    self.push_event(add_sat(now, left), EventKind::TaskPhaseComplete { cpu });
                }
            },
        }
        Request::Continue
    }
}

} // verus!
