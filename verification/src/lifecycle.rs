//! How a simulation starts and how it ends.

use vstd::prelude::*;

use crate::cgroup::{
    cpuset_view, lemma_position, lemma_position_of, preorder, CgroupRegistry, RegistryView,
};
use crate::cgroup_events::{copy_cpuset, parent_of, rc_of};
use crate::cpu_events::TICK_INTERVAL_NS;
use crate::event_queue::{EventKind, EventQueue, QueueView};
use crate::run_task::Step;
use crate::scenario::{CgroupDef, PreemptMode, Scenario, TaskDef};
use crate::sim_state::{scenario_cpus_ok, SimState, SimView};
use crate::state::{
    text_view, Agenda, BranchCounter, ExitView, HaltReason, IrqContext, OpsTaskState, RbcStats,
    Reply, ReplyView, Request, SimCpu, SimTask, StructopInfo, TaskState, Work, MAX_BPF_TIMERS,
};
use crate::trace::{texts_view, Trace, TraceHead, TraceKind};
use crate::types::{CgroupId, CpuId, Pid, TimeNs, ROOT_CGID};

verus! {

/// A CPU before anything happened: online and idle.
pub open spec fn fresh_cpu(i: int, cpus_per_llc: u32) -> SimCpu {
    SimCpu {
        id: CpuId(i as u32),
        current_task: None,
        prev_task: None,
        task_started_at: None,
        task_original_slice: None,
        local_clock: 0,
        is_online: true,
        irq_context: IrqContext::Task,
        irq_stolen_ns: 0,
        irq_cumulative_ns: 0,
        llc_id: if cpus_per_llc > 0 {
            (i / cpus_per_llc as int) as u32
        } else {
            0
        },
    }
}

/// The registry with the first `n` control groups of a scenario.
pub open spec fn with_groups(s: Scenario, n: nat) -> RegistryView
    decreases n,
{
    if n == 0 {
        RegistryView::initial(s.nr_cpus, s.max_cgroups)
    } else {
        let before = with_groups(s, (n - 1) as nat);
        let d = s.cgroups@[n - 1];
        before.create(
            d.name@,
            parent_of(before, text_view(d.parent_name))->0,
            cpuset_view(d.cpuset),
        )
    }
}

/// The control groups that a scenario starts with.
pub open spec fn start_groups(s: Scenario) -> RegistryView {
    with_groups(s, s.cgroups@.len())
}

/// Whether a control group is defined after the one it stands under.
pub open spec fn group_ok(s: Scenario, k: int) -> bool {
    parent_of(with_groups(s, k as nat), text_view(s.cgroups@[k].parent_name)) is Some
}

/// Whether each of the first `n` control groups is defined after the one it
/// stands under.
pub open spec fn groups_ok(s: Scenario, n: nat) -> bool {
    forall|k: int| 0 <= k < n ==> #[trigger] group_ok(s, k)
}

/// Whether some task of a scenario has this number.
pub open spec fn defines_task(s: Scenario, pid: Pid) -> bool {
    exists|i: int| 0 <= i < s.tasks@.len() && (#[trigger] s.tasks@[i]).pid == pid
}

/// Whether a task's parent and control group exist.
pub open spec fn task_ok(s: Scenario, t: TaskDef) -> bool {
    &&& t.parent_pid is Some ==> defines_task(s, t.parent_pid->0)
    &&& t.cgroup_name is Some ==> start_groups(s).get_by_name(t.cgroup_name->0@) is Some
}

/// Whether a scenario can run: there are CPUs, in full cores; every CPU named
/// exists; control groups are defined after those they stand under; and the
/// parents and control groups of tasks exist.
pub open spec fn scenario_ok(s: Scenario) -> bool {
    &&& scenario_cpus_ok(s)
    &&& s.smt_threads_per_core > 1 ==> s.nr_cpus % s.smt_threads_per_core == 0
    &&& s.cgroups@.len() < u32::MAX
    &&& groups_ok(s, s.cgroups@.len())
    &&& forall|i: int| 0 <= i < s.tasks@.len() ==> task_ok(s, #[trigger] s.tasks@[i])
}

/// The control group of a task among the first `n` definitions: that of the
/// last one that names one.
pub open spec fn cgid_of(s: Scenario, pid: Pid, n: nat) -> Option<CgroupId>
    decreases n,
{
    if n == 0 {
        None
    } else {
        let d = s.tasks@[n - 1];
        if d.pid == pid && d.cgroup_name is Some {
            match start_groups(s).get_by_name(d.cgroup_name->0@) {
                Some(g) => Some(CgroupId(g.id)),
                None => None,
            }
        } else {
            cgid_of(s, pid, (n - 1) as nat)
        }
    }
}

/// A task before its first wakeup.
pub open spec fn fresh_task(s: Scenario, def: int) -> SimTask {
    SimTask {
        pid: s.tasks@[def].pid,
        def: def as usize,
        state: TaskState::Sleeping,
        prev_cpu: s.tasks@[def].spec_initial_cpu(),
        run_remaining_ns: 0,
        runnable_at_ns: None,
        enqueued_at_ns: None,
        sum_exec_base: 0,
        enabled: false,
        ops_state: OpsTaskState::Free,
        cgid: cgid_of(s, s.tasks@[def].pid, s.tasks@.len()),
        phase: 0,
        rounds: 0,
    }
}

/// Tasks in order of their numbers with one more in its place; a task takes
/// the place of one with the same number.
pub open spec fn placed(tasks: Seq<SimTask>, t: SimTask) -> Seq<SimTask>
    decreases tasks.len(),
{
    if tasks.len() == 0 || tasks.last().pid.0 < t.pid.0 {
        tasks.push(t)
    } else if tasks.last().pid == t.pid {
        tasks.drop_last().push(t)
    } else {
        placed(tasks.drop_last(), t).push(tasks.last())
    }
}

/// The tasks of the first `n` definitions, in order of their numbers.
pub open spec fn start_tasks(s: Scenario, n: nat) -> Seq<SimTask>
    decreases n,
{
    if n == 0 {
        Seq::empty()
    } else {
        placed(start_tasks(s, (n - 1) as nat), fresh_task(s, n - 1))
    }
}

/// Whether tasks stand in order of their numbers, each once.
pub open spec fn in_order(tasks: Seq<SimTask>) -> bool {
    forall|i: int, j: int|
        0 <= i < j < tasks.len() ==> (#[trigger] tasks[i]).pid.0 < (#[trigger] tasks[j]).pid.0
}

/// What counts branches: the instrumented scheduler in that mode, else the
/// processor if branches cost something and it can, else nothing.
pub open spec fn spec_counter_for(s: Scenario, pmu_available: bool) -> BranchCounter {
    if s.preemptive is Some && (s.preemptive->0).preempt_mode is E9patch {
        BranchCounter::Software
    } else if s.sched_overhead_rbc_ns is Some && s.sched_overhead_rbc_ns->0 > 0 && pmu_available {
        BranchCounter::Hardware
    } else {
        BranchCounter::Absent
    }
}

/// What counts branches.
pub fn counter_for(s: &Scenario, pmu_available: bool) -> (r: BranchCounter)
    ensures
        r == spec_counter_for(*s, pmu_available),
{
    let instrumented = match &s.preemptive {
        Some(p) => match p.preempt_mode {
            PreemptMode::E9patch => true,
            _ => false,
        },
        None => false,
    };
    if instrumented {
        return BranchCounter::Software;
    }
    match s.sched_overhead_rbc_ns {
        Some(ns) => if ns > 0 && pmu_available {
            BranchCounter::Hardware
        } else {
            BranchCounter::Absent
        },
        None => BranchCounter::Absent,
    }
}

impl SimView {
    /// With every CPU from `from` on to be reported idle.
    pub open spec fn then_idle_at_start(self, from: nat) -> SimView
        decreases self.cpus.len() - from,
    {
        if from >= self.cpus.len() {
            self
        } else {
            self.then_idle_at_start(from + 1).then_do(
                Work::IdleAtStart { cpu: CpuId(from as u32) },
            )
        }
    }

    /// With every task from `from` on to be announced.
    pub open spec fn then_task_inits(self, from: nat) -> SimView
        decreases self.tasks.len() - from,
    {
        if from >= self.tasks.len() {
            self
        } else {
            self.then_task_inits(from + 1).then_do(
                Work::TaskInit {
                    pid: self.tasks[from as int].pid,
                    mask: self.tasks[from as int].def,
                },
            )
        }
    }

    /// With the limits of every control group from `from` on to be set.
    pub open spec fn then_bandwidths(self, from: nat) -> SimView
        decreases self.scenario.cgroups@.len() - from,
    {
        if from >= self.scenario.cgroups@.len() {
            self
        } else {
            let d = self.scenario.cgroups@[from as int];
            let rest = self.then_bandwidths(from + 1);
            match (d.bandwidth, self.registry.get_by_name(d.name@)) {
                (Some(bandwidth), Some(g)) => rest.then_call(
                    CpuId(0),
                    Request::CgroupSetBandwidth { cgid: CgroupId(g.id), bandwidth },
                    Some(
                        TraceKind::CgroupSetBandwidth {
                            cgid: CgroupId(g.id),
                            period_us: bandwidth.period_us,
                            quota_us: bandwidth.quota_us,
                            burst_us: bandwidth.burst_us,
                        },
                    ),
                ),
                _ => rest,
            }
        }
    }

    /// With control groups to be announced, in order.
    pub open spec fn then_group_inits(self, ids: Seq<u64>) -> SimView
        decreases ids.len(),
    {
        if ids.len() == 0 {
            self
        } else {
            self.then_group_inits(ids.skip(1)).then_do(
                Work::GroupInit { cgid: CgroupId(ids[0]) },
            )
        }
    }

    /// A simulation that has nothing to do yet.
    pub open spec fn blank(
        s: Scenario,
        counter: BranchCounter,
        masks: Seq<Seq<char>>,
    ) -> SimView {
        let n = s.nr_cpus as nat;
        let registry = start_groups(s);
        SimView {
            cpus: Seq::new(n, |i: int| fresh_cpu(i, s.cpus_per_llc)),
            local: Seq::new(n, |i: int| Seq::empty()),
            tasks: start_tasks(s, s.tasks@.len()),
            events: QueueView::empty(s.seed, s.fixed_priority),
            trace: Seq::empty(),
            head: start_head(s, masks),
            clock: 0,
            current_cpu: CpuId(0),
            work: Seq::empty(),
            staged: Seq::empty(),
            timers: Seq::new(MAX_BPF_TIMERS as nat, |i: int| None),
            blocked: Seq::empty(),
            accum: Seq::new(
                n,
                |i: int|
                    StructopInfo {
                        cpu_count: 0,
                        kfunc_count: 0,
                        rbc_total: 0,
                        interleave_count: 0,
                    },
            ),
            stats: RbcStats { longest_structop_rbc: 0, longest_rbc_interval: 0 },
            counter,
            registry,
            error: None,
            exit: ExitView::Normal,
            scenario: s,
        }
    }

    /// A simulation before its first step, with the texts of the tasks' CPU
    /// masks in the scenario's order. The scheduler is loaded first; then
    /// it hears of the control groups from the root down, of their limits, of
    /// the tasks in order of their numbers, and of the idle CPUs.
    pub open spec fn initial(
        s: Scenario,
        counter: BranchCounter,
        masks: Seq<Seq<char>>,
    ) -> SimView {
        let base = SimView::blank(s, counter, masks);
        base.then_do(Work::NextEvent).then_do(
            Work::Seed { agenda: Agenda::Wakeups, index: 0 },
        ).then_do(Work::ArmTimers).then_idle_at_start(0).then_task_inits(0).then_bandwidths(
            0,
        ).then_group_inits(preorder(start_groups(s).groups, ROOT_CGID)).then_do(Work::Started).then_do(
            Work::Ask { request: Request::Init },
        )
    }

    /// The scheduler is loaded, or the simulation cannot go on.
    pub open spec fn started(self, r: ReplyView) -> Step {
        (
            self.absorb(r).charge(CpuId(0), r.cost),
            if rc_of(r.value) == 0 {
                Request::Continue
            } else {
                Request::Halt(HaltReason::InitFailed { rc: r.value })
            },
        )
    }

    /// The scheduler hears of a control group.
    pub open spec fn group_init(self, cgid: CgroupId) -> Step {
        (
            self.on_cpu(CpuId(0)).then_do(
                Work::GroupInited { cgid, at: self.cpu(CpuId(0)).local_clock },
            ),
            Request::CgroupInit { cgid },
        )
    }

    /// The scheduler accepted the control group, or the simulation cannot go
    /// on.
    pub open spec fn group_inited(self, r: ReplyView, cgid: CgroupId, at: TimeNs) -> Step {
        (
            self.absorb(r).record(
                at,
                CpuId(0),
                TraceKind::CgroupInit { cgid, rc: rc_of(r.value) },
            ).charge(CpuId(0), r.cost),
            if rc_of(r.value) == 0 {
                Request::Continue
            } else {
                Request::Halt(HaltReason::CgroupInitFailed { cgid, rc: r.value })
            },
        )
    }

    /// The scheduler hears of a task, then of the CPUs it may use.
    pub open spec fn task_init(self, pid: Pid, mask: usize) -> Step {
        (
            self.on_cpu(CpuId(0)).then_call(
                CpuId(0),
                Request::SetCpumask { pid },
                Some(TraceKind::SetCpumask { pid, mask }),
            ).then_do(Work::TaskInited { pid, at: self.cpu(CpuId(0)).local_clock }),
            Request::InitTask {
                pid,
                cgid: match self.find(pid) {
                    Some(i) => self.tasks[i].cgid,
                    None => None,
                },
            },
        )
    }

    /// The scheduler accepted the task, or the simulation cannot go on.
    pub open spec fn task_inited(self, r: ReplyView, pid: Pid, at: TimeNs) -> Step {
        (
            self.absorb(r).record(
                at,
                CpuId(0),
                TraceKind::InitTask { pid, rc: rc_of(r.value) },
            ).charge(CpuId(0), r.cost),
            if rc_of(r.value) == 0 {
                Request::Continue
            } else {
                Request::Halt(HaltReason::InitTaskFailed { pid, rc: r.value })
            },
        )
    }

    /// The scheduler hears that a CPU is idle, at time 1: time 0 would read as
    /// not idle.
    pub open spec fn idle_at_start(self, cpu: CpuId) -> Step {
        (
            self.set_clock(cpu, 1).on_cpu(cpu).then_do(Work::IdleAtStarted { cpu }),
            Request::UpdateIdle { cpu, idle: true },
        )
    }

    /// The CPU's clock starts at 0.
    pub open spec fn idle_at_started(self, r: ReplyView, cpu: CpuId) -> Step {
        (
            self.absorb(r).record(1, cpu, TraceKind::UpdateIdle { cpu, idle: true }).set_clock(
                cpu,
                0,
            ),
            Request::Continue,
        )
    }

    /// With the next entry of a list to schedule.
    pub open spec fn then_seed(self, agenda: Agenda, index: int) -> SimView {
        self.then_do(Work::Seed { agenda, index: index as usize })
    }

    /// One entry of a list is scheduled; past its end the next list begins.
    pub open spec fn seed(self, agenda: Agenda, index: usize) -> Step {
        let s = self.scenario;
        let i = index as int;
        (
            match agenda {
                Agenda::Wakeups => if i < s.tasks@.len() {
                    self.event(
                        s.tasks@[i].start_time_ns,
                        EventKind::TaskWake {
                            pid: s.tasks@[i].pid,
                            waker: None,
                            cpu: s.tasks@[i].spec_initial_cpu(),
                        },
                    ).then_seed(agenda, i + 1)
                } else {
                    self.then_seed(Agenda::Ticks, 0)
                },
                Agenda::Ticks => if i < s.nr_cpus {
                    self.event(
                        TICK_INTERVAL_NS,
                        EventKind::Tick { cpu: CpuId(i as u32) },
                    ).then_seed(agenda, i + 1)
                } else {
                    self.then_seed(Agenda::Hotplug, 0)
                },
                Agenda::Hotplug => if i < s.hotplug_events@.len() {
                    let e = s.hotplug_events@[i];
                    self.event(
                        e.time_ns,
                        if e.online {
                            EventKind::CpuOnline { cpu: e.cpu }
                        } else {
                            EventKind::CpuOffline { cpu: e.cpu }
                        },
                    ).then_seed(agenda, i + 1)
                } else {
                    self.then_seed(Agenda::Preemptions, 0)
                },
                Agenda::Preemptions => if i < s.cpu_preempt_events@.len() {
                    let e = s.cpu_preempt_events@[i];
                    self.event(e.release_at_ns, EventKind::CpuRelease { cpu: e.cpu }).event(
                        e.acquire_at_ns,
                        EventKind::CpuAcquire { cpu: e.cpu },
                    ).then_seed(agenda, i + 1)
                } else {
                    self.then_seed(Agenda::Migrations, 0)
                },
                Agenda::Migrations => if i < s.cgroup_migrate_events@.len() {
                    self.event(
                        s.cgroup_migrate_events@[i].at_ns,
                        EventKind::CgroupMigrate { event: index, cpu: CpuId(0) },
                    ).then_seed(agenda, i + 1)
                } else {
                    self.then_seed(Agenda::Creations, 0)
                },
                Agenda::Creations => if i < s.cgroup_create_events@.len() {
                    self.event(
                        s.cgroup_create_events@[i].at_ns,
                        EventKind::CgroupCreate { event: index, cpu: CpuId(0) },
                    ).then_seed(agenda, i + 1)
                } else {
                    self.then_seed(Agenda::Destructions, 0)
                },
                Agenda::Destructions => if i < s.cgroup_destroy_events@.len() {
                    self.event(
                        s.cgroup_destroy_events@[i].at_ns,
                        EventKind::CgroupDestroy { event: index, cpu: CpuId(0) },
                    ).then_seed(agenda, i + 1)
                } else {
                    self.then_seed(Agenda::CpusetChanges, 0)
                },
                Agenda::CpusetChanges => if i < s.cgroup_cpuset_change_events@.len() {
                    self.event(
                        s.cgroup_cpuset_change_events@[i].at_ns,
                        EventKind::CgroupCpusetChange { event: index, cpu: CpuId(0) },
                    ).then_seed(agenda, i + 1)
                } else {
                    self.then_seed(Agenda::Interrupts, 0)
                },
                Agenda::Interrupts => if i < s.irq_events@.len() {
                    self.event(
                        s.irq_events@[i].at_ns,
                        EventKind::IrqStart { event: index, cpu: s.irq_events@[i].cpu },
                    ).then_seed(agenda, i + 1)
                } else {
                    self.then_seed(Agenda::FutexOps, 0)
                },
                Agenda::FutexOps => if i < s.futex_events@.len() {
                    self.event(
                        s.futex_events@[i].at_ns,
                        EventKind::FutexOp { event: index, pid: s.futex_events@[i].pid },
                    ).then_seed(agenda, i + 1)
                } else {
                    self
                },
            },
            Request::Continue,
        )
    }

    /// With the tasks on the first `n` CPUs recorded as running at the end.
    pub open spec fn with_end_records(self, n: nat) -> SimView
        decreases n,
    {
        if n == 0 {
            self
        } else {
            let before = self.with_end_records((n - 1) as nat);
            match self.cpus[n - 1].current_task {
                Some(pid) => before.record(
                    self.scenario.duration_ns,
                    CpuId((n - 1) as u32),
                    TraceKind::SimulationEnd { pid },
                ),
                None => before,
            }
        }
    }

    /// With a last callback to make, at the cost of the first CPU.
    pub open spec fn then_final_call(
        self,
        cpu: CpuId,
        request: Request,
        note: Option<TraceKind>,
    ) -> SimView {
        self.then_do(Work::Call { request, cpu, charge: Some(CpuId(0)), note })
    }

    /// With control groups to be retired, the last first.
    pub open spec fn then_group_exits(self, cpu: CpuId, ids: Seq<u64>) -> SimView
        decreases ids.len(),
    {
        if ids.len() == 0 {
            self
        } else {
            let cgid = CgroupId(ids.last());
            self.then_group_exits(cpu, ids.drop_last()).then_final_call(
                cpu,
                Request::CgroupExit { cgid },
                Some(TraceKind::CgroupExit { cgid }),
            )
        }
    }

    /// With every task from `from` on to be retired.
    pub open spec fn then_task_exits(self, cpu: CpuId, from: nat) -> SimView
        decreases self.tasks.len() - from,
    {
        if from >= self.tasks.len() {
            self
        } else {
            let pid = self.tasks[from as int].pid;
            self.then_task_exits(cpu, from + 1).then_final_call(
                cpu,
                Request::ExitTask { pid },
                Some(TraceKind::ExitTask { pid }),
            )
        }
    }

    /// With every task from `from` on to be dumped.
    pub open spec fn then_task_dumps(self, cpu: CpuId, from: nat) -> SimView
        decreases self.tasks.len() - from,
    {
        if from >= self.tasks.len() {
            self
        } else {
            self.then_task_dumps(cpu, from + 1).then_final_call(
                cpu,
                Request::DumpTask { pid: self.tasks[from as int].pid },
                None,
            )
        }
    }

    /// The simulation ends: what runs is recorded, the scheduler dumps its
    /// state, retires the tasks in order of their numbers and the control
    /// groups from the leaves up, and is unloaded.
    pub open spec fn finish(self) -> Step {
        let cpu = self.current_cpu;
        (
            self.with_end_records(self.cpus.len()).then_final_call(
                cpu,
                Request::Exit,
                None,
            ).then_group_exits(cpu, preorder(self.registry.groups, ROOT_CGID)).then_task_exits(
                cpu,
                0,
            ).then_task_dumps(cpu, 0).then_final_call(cpu, Request::Dump, None),
            Request::Continue,
        )
    }
}

/// A task put in its place keeps the order, is found there, and displaces at
/// most the one with its number.
pub proof fn lemma_placed(tasks: Seq<SimTask>, t: SimTask)
    requires
        in_order(tasks),
    ensures
        in_order(placed(tasks, t)),
        forall|x: SimTask| #[trigger]
            placed(tasks, t).contains(x) ==> x == t || tasks.contains(x),
        placed(tasks, t).contains(t),
        forall|i: int|
            0 <= i < tasks.len() && (#[trigger] tasks[i]).pid != t.pid ==> placed(
                tasks,
                t,
            ).contains(tasks[i]),
        tasks.len() <= placed(tasks, t).len() <= tasks.len() + 1,
    decreases tasks.len(),
{
    let p = placed(tasks, t);
    if tasks.len() == 0 || tasks.last().pid.0 < t.pid.0 {
        assert forall|x: SimTask| #[trigger] p.contains(x) implies x == t || tasks.contains(x) by {
            let k = choose|k: int| 0 <= k < p.len() && p[k] == x;
            if k < tasks.len() {
                assert(tasks[k] == x);
            }
        }
        assert(p[tasks.len() as int] == t);
        assert forall|i: int| 0 <= i < tasks.len() && (#[trigger] tasks[i]).pid != t.pid implies p.contains(
            tasks[i],
        ) by {
            assert(p[i] == tasks[i]);
        }
        if tasks.len() > 0 {
            assert forall|i: int, j: int| 0 <= i < j < p.len() implies (#[trigger] p[i]).pid.0 < (
            #[trigger] p[j]).pid.0 by {
                if j == tasks.len() {
                    assert(tasks[i].pid.0 <= tasks[tasks.len() - 1].pid.0);
                } else {
                    assert(tasks[i].pid.0 < tasks[j].pid.0);
                }
            }
        }
    } else if tasks.last().pid == t.pid {
        let rest = tasks.drop_last();
        assert forall|x: SimTask| #[trigger] p.contains(x) implies x == t || tasks.contains(x) by {
            let k = choose|k: int| 0 <= k < p.len() && p[k] == x;
            if k < rest.len() {
                assert(tasks[k] == x);
            }
        }
        assert(p[rest.len() as int] == t);
        assert forall|i: int| 0 <= i < tasks.len() && (#[trigger] tasks[i]).pid != t.pid implies p.contains(
            tasks[i],
        ) by {
            assert(p[i] == tasks[i]);
        }
        assert forall|i: int, j: int| 0 <= i < j < p.len() implies (#[trigger] p[i]).pid.0 < (
        #[trigger] p[j]).pid.0 by {
            assert(tasks[i].pid.0 < tasks[j].pid.0);
        }
    } else {
        let rest = tasks.drop_last();
        assert(in_order(rest)) by {
            assert forall|i: int, j: int| 0 <= i < j < rest.len() implies (#[trigger] rest[i]).pid.0
                < (#[trigger] rest[j]).pid.0 by {
                assert(tasks[i].pid.0 < tasks[j].pid.0);
            }
        }
        lemma_placed(rest, t);
        let q = placed(rest, t);
        assert forall|x: SimTask| #[trigger] p.contains(x) implies x == t || tasks.contains(x) by {
            let k = choose|k: int| 0 <= k < p.len() && p[k] == x;
            if k < q.len() {
                assert(q.contains(q[k]));
                if rest.contains(x) {
                    let m = choose|m: int| 0 <= m < rest.len() && rest[m] == x;
                    assert(tasks[m] == x);
                }
            } else {
                assert(tasks[tasks.len() - 1] == x);
            }
        }
        let at = choose|k: int| 0 <= k < q.len() && q[k] == t;
        assert(p[at] == t);
        assert forall|i: int| 0 <= i < tasks.len() && (#[trigger] tasks[i]).pid != t.pid implies p.contains(
            tasks[i],
        ) by {
            if i < rest.len() {
                assert(rest[i] == tasks[i]);
                assert(q.contains(rest[i]));
                let m = choose|m: int| 0 <= m < q.len() && q[m] == rest[i];
                assert(p[m] == tasks[i]);
            } else {
                assert(p[q.len() as int] == tasks[i]);
            }
        }
        assert forall|i: int, j: int| 0 <= i < j < p.len() implies (#[trigger] p[i]).pid.0 < (
        #[trigger] p[j]).pid.0 by {
            if j == q.len() {
                assert(q.contains(q[i]));
                if q[i] != t {
                    let m = choose|m: int| 0 <= m < rest.len() && rest[m] == q[i];
                    assert(tasks[m].pid.0 < tasks[tasks.len() - 1].pid.0);
                }
            } else {
                assert(q[i].pid.0 < q[j].pid.0);
            }
        }
    }
}

/// Whether a task with this number is among some.
pub open spec fn has_pid(tasks: Seq<SimTask>, pid: Pid) -> bool {
    exists|i: int| 0 <= i < tasks.len() && (#[trigger] tasks[i]).pid == pid
}

/// Whether a task stands as the scenario's entry of the first `n` that it
/// names says.
pub open spec fn is_fresh(s: Scenario, t: SimTask, n: nat) -> bool {
    t.def < n && t == fresh_task(s, t.def as int)
}

/// Tasks stand in order of their numbers, each once, whatever order the
/// scenario lists them in; each comes from the scenario, and none is missing.
pub proof fn law_tasks_start_in_order(s: Scenario, n: nat)
    requires
        n <= s.tasks@.len(),
        s.tasks@.len() <= usize::MAX,
    ensures
        in_order(start_tasks(s, n)),
        start_tasks(s, n).len() <= n,
        forall|i: int|
            0 <= i < start_tasks(s, n).len() ==> is_fresh(s, #[trigger] start_tasks(s, n)[i], n),
        forall|d: int|
            0 <= d < n ==> has_pid(start_tasks(s, n), (#[trigger] s.tasks@[d]).pid),
    decreases n,
{
    if n > 0 {
        let m = (n - 1) as nat;
        law_tasks_start_in_order(s, m);
        let before = start_tasks(s, m);
        let t = fresh_task(s, m as int);
        lemma_placed(before, t);
        let after = start_tasks(s, n);
        assert(after == placed(before, t));
        assert forall|i: int| 0 <= i < after.len() implies is_fresh(s, #[trigger] after[i], n) by {
            assert(after.contains(after[i]));
            if after[i] != t {
                let k = choose|k: int| 0 <= k < before.len() && before[k] == after[i];
                assert(is_fresh(s, before[k], m));
            }
        }
        assert forall|d: int| 0 <= d < n implies has_pid(
            after,
            (#[trigger] s.tasks@[d]).pid,
        ) by {
            lemma_placed_keeps_pids(before, t, s.tasks@[d].pid);
        }
    }
}

/// A number present among tasks stays present when one more is placed.
proof fn lemma_placed_keeps_pids(tasks: Seq<SimTask>, t: SimTask, pid: Pid)
    requires
        in_order(tasks),
        has_pid(tasks, pid) || t.pid == pid,
    ensures
        has_pid(placed(tasks, t), pid),
{
    lemma_placed(tasks, t);
    let after = placed(tasks, t);
    if t.pid == pid {
        let at = choose|k: int| 0 <= k < after.len() && after[k] == t;
        assert(after[at].pid == pid);
    } else {
        let k = choose|k: int| 0 <= k < tasks.len() && (#[trigger] tasks[k]).pid == pid;
        assert(after.contains(tasks[k]));
        let j = choose|j: int| 0 <= j < after.len() && after[j] == tasks[k];
        assert(after[j].pid == pid);
    }
}

/// Whether no control group stands deeper than `depth`.
#[verifier::opaque]
spec fn depth_within(r: RegistryView, depth: int) -> bool {
    forall|i: int| 0 <= i < r.groups.len() ==> (#[trigger] r.groups[i]).level <= depth
}

/// A new control group is at most one level deeper than those there are.
proof fn lemma_depth(r: RegistryView, name: Seq<char>, parent: u64, cpuset: Option<Seq<CpuId>>, depth: int)
    requires
        depth_within(r, depth),
        r.get(parent) is Some,
        depth < u32::MAX,
    ensures
        r.get(parent)->0.level <= depth,
        depth_within(r.create(name, parent, cpuset), depth + 1),
{
    reveal(depth_within);
    lemma_position(r.groups, parent);
    let after = r.create(name, parent, cpuset);
    assert forall|i: int| 0 <= i < after.groups.len() implies (#[trigger] after.groups[i]).level
        <= depth + 1 by {
        if i < r.groups.len() {
            assert(after.groups[i] == r.groups[i]);
        }
    }
}

/// Adds a control group, unless the one it stands under is missing.
fn add_group(reg: &mut CgroupRegistry, d: &CgroupDef, depth: u32) -> (r: bool)
    requires
        old(reg)@.wf(),
        old(reg)@.next < u64::MAX,
        depth < u32::MAX,
        depth_within(old(reg)@, depth as int),
    ensures
        final(reg)@.wf(),
        r == (parent_of(old(reg)@, text_view(d.parent_name)) is Some),
        r ==> final(reg)@ == old(reg)@.create(
            d.name@,
            parent_of(old(reg)@, text_view(d.parent_name))->0,
            cpuset_view(d.cpuset),
        ),
        r ==> depth_within(final(reg)@, depth + 1),
{
    let parent = match &d.parent_name {
        Some(name) => match reg.get_by_name(name.as_str()) {
            Some(g) => g.cgid,
            None => {
                return false;
            },
        },
        None => CgroupId(ROOT_CGID),
    };
    let cpuset = copy_cpuset(&d.cpuset);
    proof {
        lemma_parent_exists(reg@, text_view(d.parent_name));
        lemma_depth(reg@, d.name@, parent.0, cpuset_view(cpuset), depth as int);
    }
    reg.create(d.name.as_str(), parent, cpuset);
    true
}

/// Builds the control groups that a scenario starts with, unless one is
/// defined before the one it stands under.
fn build_groups(s: &Scenario) -> (r: Option<CgroupRegistry>)
    requires
        s.cgroups@.len() < u32::MAX,
    ensures
        match r {
            Some(reg) => groups_ok(*s, s.cgroups@.len()) && reg@ == start_groups(*s)
                && reg@.wf(),
            None => !groups_ok(*s, s.cgroups@.len()),
        },
{
    let mut reg = CgroupRegistry::new(s.nr_cpus, s.max_cgroups);
    proof {
        reveal(depth_within);
    }
    let mut k: usize = 0;
    while k < s.cgroups.len()
        invariant
            k <= s.cgroups@.len(),
            s.cgroups@.len() < u32::MAX,
            reg@ == with_groups(*s, k as nat),
            reg@.wf(),
            reg@.next == 2 + k,
            groups_ok(*s, k as nat),
            depth_within(reg@, k as int),
        decreases s.cgroups@.len() - k,
    {
        if !add_group(&mut reg, &s.cgroups[k], k as u32) {
            assert(!group_ok(*s, k as int));
            return None;
        }
        assert(group_ok(*s, k as int));
        k = k + 1;
    }
    Some(reg)
}

/// The control group found as a parent exists.
proof fn lemma_parent_exists(r: RegistryView, name: Option<Seq<char>>)
    requires
        r.wf(),
        parent_of(r, name) is Some,
    ensures
        r.get(parent_of(r, name)->0) is Some,
{
    match name {
        Some(n) => {
            let id = crate::cgroup::named(r.names, n)->0;
            lemma_position(r.groups, id);
        },
        None => {
            lemma_position_of(r.groups, 0);
        },
    }
}

/// Whether some task of a scenario has this number.
fn has_task(s: &Scenario, pid: Pid) -> (r: bool)
    ensures
        r == defines_task(*s, pid),
{
    let mut i: usize = 0;
    while i < s.tasks.len()
        invariant
            i <= s.tasks@.len(),
            forall|j: int| 0 <= j < i ==> (#[trigger] s.tasks@[j]).pid != pid,
        decreases s.tasks@.len() - i,
    {
        if s.tasks[i].pid == pid {
            assert(s.tasks@[i as int].pid == pid);
            return true;
        }
        i = i + 1;
    }
    false
}

/// Whether every CPU exists that a scenario names for its tasks, or for an event
/// until its end.
fn names_real_cpus(s: &Scenario) -> (r: bool)
    ensures
        r == scenario_cpus_ok(*s),
{
    let n = s.nr_cpus;
    let end = s.duration_ns;
    if n == 0 {
        return false;
    }
    let mut i: usize = 0;
    while i < s.tasks.len()
        invariant
            i <= s.tasks@.len(),
            n == s.nr_cpus,
            forall|j: int| 0 <= j < i ==> (#[trigger] s.tasks@[j]).spec_initial_cpu().0 < n,
        decreases s.tasks@.len() - i,
    {
        if s.tasks[i].initial_cpu().0 >= n {
            assert(!(s.tasks@[i as int].spec_initial_cpu().0 < n));
            return false;
        }
        i = i + 1;
    }
    i = 0;
    while i < s.hotplug_events.len()
        invariant
            i <= s.hotplug_events@.len(),
            n == s.nr_cpus,
            end == s.duration_ns,
            forall|j: int|
                0 <= j < i && (#[trigger] s.hotplug_events@[j]).time_ns <= end
                    ==> s.hotplug_events@[j].cpu.0 < n,
        decreases s.hotplug_events@.len() - i,
    {
        let e = s.hotplug_events[i];
        if e.time_ns <= end && e.cpu.0 >= n {
            assert(!(s.hotplug_events@[i as int].cpu.0 < n));
            return false;
        }
        i = i + 1;
    }
    i = 0;
    while i < s.cpu_preempt_events.len()
        invariant
            i <= s.cpu_preempt_events@.len(),
            n == s.nr_cpus,
            end == s.duration_ns,
            forall|j: int|
                0 <= j < i && ((#[trigger] s.cpu_preempt_events@[j]).release_at_ns <= end
                    || s.cpu_preempt_events@[j].acquire_at_ns <= end)
                    ==> s.cpu_preempt_events@[j].cpu.0 < n,
        decreases s.cpu_preempt_events@.len() - i,
    {
        let e = s.cpu_preempt_events[i];
        if (e.release_at_ns <= end || e.acquire_at_ns <= end) && e.cpu.0 >= n {
            assert(!(s.cpu_preempt_events@[i as int].cpu.0 < n));
            return false;
        }
        i = i + 1;
    }
    i = 0;
    while i < s.irq_events.len()
        invariant
            i <= s.irq_events@.len(),
            n == s.nr_cpus,
            end == s.duration_ns,
            forall|j: int|
                0 <= j < i && (#[trigger] s.irq_events@[j]).at_ns <= end
                    ==> s.irq_events@[j].cpu.0 < n,
        decreases s.irq_events@.len() - i,
    {
        if s.irq_events[i].at_ns <= end && s.irq_events[i].cpu.0 >= n {
            assert(!(s.irq_events@[i as int].cpu.0 < n));
            return false;
        }
        i = i + 1;
    }
    true
}

/// Whether a scenario can run.
pub fn is_runnable(s: &Scenario) -> (r: bool)
    ensures
        r == scenario_ok(*s),
{
    if !names_real_cpus(s) {
        return false;
    }
    if s.smt_threads_per_core > 1 && s.nr_cpus % s.smt_threads_per_core != 0 {
        return false;
    }
    if s.cgroups.len() >= u32::MAX as usize {
        return false;
    }
    let reg = match build_groups(s) {
        Some(reg) => reg,
        None => {
            return false;
        },
    };
    let mut i: usize = 0;
    while i < s.tasks.len()
        invariant
            i <= s.tasks@.len(),
            reg@ == start_groups(*s),
            forall|j: int| 0 <= j < i ==> task_ok(*s, #[trigger] s.tasks@[j]),
        decreases s.tasks@.len() - i,
    {
        let t = &s.tasks[i];
        if let Some(pid) = t.parent_pid {
            if !has_task(s, pid) {
                assert(!task_ok(*s, s.tasks@[i as int]));
                return false;
            }
        }
        if let Some(name) = &t.cgroup_name {
            if reg.get_by_name(name.as_str()).is_none() {
                assert(!task_ok(*s, s.tasks@[i as int]));
                return false;
            }
        }
        i = i + 1;
    }
    true
}

/// The control group of a task.
fn find_cgid(s: &Scenario, reg: &CgroupRegistry, pid: Pid) -> (r: Option<CgroupId>)
    requires
        reg@ == start_groups(*s),
    ensures
        r == cgid_of(*s, pid, s.tasks@.len()),
{
    let mut n: usize = s.tasks.len();
    while n > 0
        invariant
            n <= s.tasks@.len(),
            reg@ == start_groups(*s),
            cgid_of(*s, pid, s.tasks@.len()) == cgid_of(*s, pid, n as nat),
        decreases n,
    {
        let d = &s.tasks[n - 1];
        if d.pid == pid {
            if let Some(name) = &d.cgroup_name {
                return match reg.get_by_name(name.as_str()) {
                    Some(g) => Some(g.cgid),
                    None => None,
                };
            }
        }
        n = n - 1;
    }
    None
}

/// Puts a task in its place.
fn place_task(tasks: &mut Vec<SimTask>, t: SimTask)
    ensures
        final(tasks)@ == placed(old(tasks)@, t),
{
    let mut at: usize = tasks.len();
    let ghost all = tasks@;
    proof {
        assert(all.take(at as int) =~= all);
        assert(placed(all, t) =~= placed(all.take(at as int), t) + all.skip(at as int));
    }
    while at > 0 && tasks[at - 1].pid.0 > t.pid.0
        invariant
            tasks@ == all,
            at <= all.len(),
            placed(all, t) == placed(all.take(at as int), t) + all.skip(at as int),
        decreases at,
    {
        at = at - 1;
        proof {
            assert(all.take(at + 1).drop_last() =~= all.take(at as int));
            assert(placed(all.take(at + 1), t) + all.skip(at + 1) =~= placed(
                all.take(at as int),
                t,
            ) + all.skip(at as int));
        }
    }
    if at > 0 && tasks[at - 1].pid == t.pid {
        tasks.set(at - 1, t);
        proof {
            assert(tasks@ =~= placed(all.take(at as int), t) + all.skip(at as int));
        }
    } else {
        tasks.insert(at, t);
        proof {
            assert(tasks@ =~= placed(all.take(at as int), t) + all.skip(at as int));
        }
    }
}

/// The tasks of a scenario before their first wakeups.
fn build_tasks(s: &Scenario, reg: &CgroupRegistry) -> (r: Vec<SimTask>)
    requires
        reg@ == start_groups(*s),
    ensures
        r@ == start_tasks(*s, s.tasks@.len()),
{
    let mut tasks: Vec<SimTask> = Vec::new();
    let mut i: usize = 0;
    while i < s.tasks.len()
        invariant
            i <= s.tasks@.len(),
            reg@ == start_groups(*s),
            tasks@ == start_tasks(*s, i as nat),
        decreases s.tasks@.len() - i,
    {
        let pid = s.tasks[i].pid;
        let t = SimTask {
            pid,
            def: i,
            state: TaskState::Sleeping,
            prev_cpu: s.tasks[i].initial_cpu(),
            run_remaining_ns: 0,
            runnable_at_ns: None,
            enqueued_at_ns: None,
            sum_exec_base: 0,
            enabled: false,
            ops_state: OpsTaskState::Free,
            cgid: find_cgid(s, reg, pid),
            phase: 0,
            rounds: 0,
        };
        place_task(&mut tasks, t);
        i = i + 1;
    }
    tasks
}

/// What the trace of a scenario says apart from its events: the CPUs, the names
/// of the tasks, the texts of their CPU masks, and when statistics begin.
pub open spec fn start_head(s: Scenario, masks: Seq<Seq<char>>) -> TraceHead {
    TraceHead {
        nr_cpus: s.nr_cpus,
        names: Seq::new(s.tasks@.len(), |i: int| (s.tasks@[i].pid, s.tasks@[i].name@)),
        masks,
        futex_texts: texts_view(s.futex_texts@),
        warmup_ns: s.warmup_ns,
    }
}

/// A copy of a list of texts.
fn copy_texts(texts: &Vec<String>) -> (r: Vec<String>)
    ensures
        texts_view(r@) == texts_view(texts@),
{
    let mut r: Vec<String> = Vec::new();
    let mut i: usize = 0;
    while i < texts.len()
        invariant
            i <= texts@.len(),
            r@.len() == i,
            forall|j: int| 0 <= j < i ==> (#[trigger] r@[j])@ == texts@[j]@,
        decreases texts@.len() - i,
    {
        r.push(texts[i].clone());
        i = i + 1;
    }
    proof {
        assert(texts_view(r@) =~= texts_view(texts@));
    }
    r
}

/// The names of the tasks of a scenario.
fn task_names(s: &Scenario) -> (r: Vec<(Pid, String)>)
    ensures
        r@.len() == s.tasks@.len(),
        forall|i: int|
            0 <= i < r@.len() ==> (#[trigger] r@[i]).0 == s.tasks@[i].pid && r@[i].1@
                == s.tasks@[i].name@,
{
    let mut r: Vec<(Pid, String)> = Vec::new();
    let mut i: usize = 0;
    while i < s.tasks.len()
        invariant
            i <= s.tasks@.len(),
            r@.len() == i,
            forall|j: int|
                0 <= j < i ==> (#[trigger] r@[j]).0 == s.tasks@[j].pid && r@[j].1@
                    == s.tasks@[j].name@,
        decreases s.tasks@.len() - i,
    {
        r.push((s.tasks[i].pid, s.tasks[i].name.clone()));
        i = i + 1;
    }
    r
}

/// The CPUs before anything happened.
fn fresh_cpus(nr_cpus: u32, cpus_per_llc: u32) -> (r: Vec<SimCpu>)
    ensures
        r@ == Seq::new(nr_cpus as nat, |i: int| fresh_cpu(i, cpus_per_llc)),
{
    let mut r: Vec<SimCpu> = Vec::new();
    let mut i: u32 = 0;
    while i < nr_cpus
        invariant
            i <= nr_cpus,
            r@ == Seq::new(i as nat, |i: int| fresh_cpu(i, cpus_per_llc)),
        decreases nr_cpus - i,
    {
        let llc_id: u32 = if cpus_per_llc > 0 {
            i / cpus_per_llc
        } else {
            0
        };
        r.push(
            SimCpu {
                id: CpuId(i),
                current_task: None,
                prev_task: None,
                task_started_at: None,
                task_original_slice: None,
                local_clock: 0,
                is_online: true,
                irq_context: IrqContext::Task,
                irq_stolen_ns: 0,
                irq_cumulative_ns: 0,
                llc_id,
            },
        );
        i = i + 1;
        proof {
            assert(r@ =~= Seq::new(i as nat, |i: int| fresh_cpu(i, cpus_per_llc)));
        }
    }
    r
}

/// Empty queues, one per CPU.
fn empty_queues(nr_cpus: u32) -> (r: Vec<Vec<Pid>>)
    ensures
        r@.len() == nr_cpus,
        forall|i: int| 0 <= i < r@.len() ==> (#[trigger] r@[i])@ == Seq::<Pid>::empty(),
{
    let mut r: Vec<Vec<Pid>> = Vec::new();
    let mut i: u32 = 0;
    while i < nr_cpus
        invariant
            i <= nr_cpus,
            r@.len() == i,
            forall|j: int| 0 <= j < r@.len() ==> (#[trigger] r@[j])@ == Seq::<Pid>::empty(),
        decreases nr_cpus - i,
    {
        r.push(Vec::new());
        i = i + 1;
    }
    r
}

/// Counts of zero, one per CPU.
fn zero_counts(nr_cpus: u32) -> (r: Vec<StructopInfo>)
    ensures
        r@.len() == nr_cpus,
        forall|i: int|
            0 <= i < r@.len() ==> #[trigger] r@[i] == (StructopInfo {
                cpu_count: 0,
                kfunc_count: 0,
                rbc_total: 0,
                interleave_count: 0,
            }),
{
    let mut r: Vec<StructopInfo> = Vec::new();
    let mut i: u32 = 0;
    while i < nr_cpus
        invariant
            i <= nr_cpus,
            r@.len() == i,
            forall|j: int|
                0 <= j < r@.len() ==> #[trigger] r@[j] == (StructopInfo {
                    cpu_count: 0,
                    kfunc_count: 0,
                    rbc_total: 0,
                    interleave_count: 0,
                }),
        decreases nr_cpus - i,
    {
        r.push(
            StructopInfo { cpu_count: 0, kfunc_count: 0, rbc_total: 0, interleave_count: 0 },
        );
        i = i + 1;
    }
    r
}

impl SimState {
    fn then_idle_at_start(&mut self)
        requires
            old(self).wf(),
        ensures
            final(self).wf(),
            final(self)@ == old(self)@.then_idle_at_start(0),
    {
        proof {
            self.lemma_wf();
        }
        let ghost s = self@;
        let mut from: usize = self.nr_cpus();
        while from > 0
            invariant
                self.wf(),
                from <= s.cpus.len(),
                s.cpus.len() <= u32::MAX,
                self@.cpus == s.cpus,
                self@ == s.then_idle_at_start(from as nat),
            decreases from,
        {
            from = from - 1;
            self.then_do(Work::IdleAtStart { cpu: CpuId(from as u32) });
        }
    }

    fn then_task_inits(&mut self)
        requires
            old(self).wf(),
        ensures
            final(self).wf(),
            final(self)@ == old(self)@.then_task_inits(0),
    {
        let ghost s = self@;
        let mut from: usize = self.nr_tasks();
        while from > 0
            invariant
                self.wf(),
                from <= s.tasks.len(),
                self@.tasks == s.tasks,
                self@ == s.then_task_inits(from as nat),
            decreases from,
        {
            from = from - 1;
            let t = self.task(from);
            self.then_do(Work::TaskInit { pid: t.pid, mask: t.def });
        }
    }

    fn then_bandwidths(&mut self)
        requires
            old(self).wf(),
        ensures
            final(self).wf(),
            final(self)@ == old(self)@.then_bandwidths(0),
    {
        proof {
            self.lemma_wf();
        }
        let ghost s = self@;
        let mut from: usize = self.scenario().cgroups.len();
        while from > 0
            invariant
                self.wf(),
                from <= s.scenario.cgroups@.len(),
                self@.scenario == s.scenario,
                self@.registry == s.registry,
                self@.cpus == s.cpus,
                s.cpus.len() > 0,
                self@ == s.then_bandwidths(from as nat),
            decreases from,
        {
            from = from - 1;
            let d = &self.scenario().cgroups[from];
            let found: Option<CgroupId> = match self.registry().get_by_name(d.name.as_str()) {
                Some(g) => Some(g.cgid),
                None => None,
            };
            let bandwidth = d.bandwidth;
            if let (Some(bandwidth), Some(cgid)) = (bandwidth, found) {
                self.then_call(
                    CpuId(0),
                    Request::CgroupSetBandwidth { cgid, bandwidth },
                    Some(
                        TraceKind::CgroupSetBandwidth {
                            cgid,
                            period_us: bandwidth.period_us,
                            quota_us: bandwidth.quota_us,
                            burst_us: bandwidth.burst_us,
                        },
                    ),
                );
            }
        }
    }

    fn then_group_inits(&mut self, ids: &Vec<CgroupId>)
        requires
            old(self).wf(),
        ensures
            final(self).wf(),
            final(self)@ == old(self)@.then_group_inits(ids@.map_values(|c: CgroupId| c.0)),
    {
        let ghost s = self@;
        let ghost all = ids@.map_values(|c: CgroupId| c.0);
        let mut i: usize = ids.len();
        proof {
            assert(all.skip(i as int) =~= Seq::empty());
        }
        while i > 0
            invariant
                self.wf(),
                i <= ids@.len(),
                all == ids@.map_values(|c: CgroupId| c.0),
                self@ == s.then_group_inits(all.skip(i as int)),
            decreases i,
        {
            i = i - 1;
            self.then_do(Work::GroupInit { cgid: ids[i] });
            proof {
                assert(all.skip(i as int).skip(1) =~= all.skip(i + 1));
                assert(all.skip(i as int)[0] == ids@[i as int].0);
            }
        }
        proof {
            assert(all.skip(0) =~= all);
        }
    }

    /// A simulation before its first step. `masks` holds the text of each
    /// task's CPU mask, in the scenario's order.
    pub fn prepare(scenario: Scenario, counter: BranchCounter, masks: Vec<String>) -> (r: SimState)
        requires
            scenario_ok(scenario),
        ensures
            r.wf(),
            r@ == SimView::initial(scenario, counter, texts_view(masks@)),
    {
        let reg = match build_groups(&scenario) {
            Some(reg) => reg,
            None => CgroupRegistry::new(scenario.nr_cpus, scenario.max_cgroups),
        };
        let nr_cpus = scenario.nr_cpus;
        let tasks = build_tasks(&scenario, &reg);
        let cpus = fresh_cpus(nr_cpus, scenario.cpus_per_llc);
        let local = empty_queues(nr_cpus);
        let accum = zero_counts(nr_cpus);
        let mut timers: Vec<Option<(TimeNs, CpuId)>> = Vec::new();
        let mut i: usize = 0;
        while i < MAX_BPF_TIMERS
            invariant
                i <= MAX_BPF_TIMERS,
                timers@ == Seq::new(i as nat, |i: int| None::<(TimeNs, CpuId)>),
            decreases MAX_BPF_TIMERS - i,
        {
            timers.push(None);
            i = i + 1;
            proof {
                assert(timers@ =~= Seq::new(i as nat, |i: int| None::<(TimeNs, CpuId)>));
            }
        }
        let events = EventQueue::new(scenario.seed, scenario.fixed_priority);
        let mut trace = Trace::with_warmup(nr_cpus, task_names(&scenario), scenario.warmup_ns);
        trace.masks = masks;
        trace.futex_texts = copy_texts(&scenario.futex_texts);
        proof {
            assert(trace.head() =~= start_head(scenario, texts_view(masks@)));
        }
        let ids = reg.all_cgids_preorder();
        let nr_tasks: usize = scenario.tasks.len();
        proof {
            assert(nr_tasks == scenario.tasks@.len());
            law_tasks_start_in_order(scenario, scenario.tasks@.len());
            assert forall|i: int| 0 <= i < tasks@.len() implies (
            #[trigger] tasks@[i]).prev_cpu.0 < nr_cpus && tasks@[i].def
                < scenario.tasks@.len() by {
                assert(is_fresh(scenario, tasks@[i], scenario.tasks@.len()));
                assert(scenario.tasks@[tasks@[i].def as int].spec_initial_cpu().0 < nr_cpus);
            }
            assert(local@.map_values(|q: Vec<Pid>| q@) =~= Seq::new(
                nr_cpus as nat,
                |i: int| Seq::<Pid>::empty(),
            ));
            assert(accum@ =~= Seq::new(
                nr_cpus as nat,
                |i: int|
                    StructopInfo {
                        cpu_count: 0,
                        kfunc_count: 0,
                        rbc_total: 0,
                        interleave_count: 0,
                    },
            ));
        }
        let mut r = SimState::assemble(
            cpus,
            local,
            tasks,
            events,
            trace,
            timers,
            accum,
            counter,
            reg,
            scenario,
        );
        r.then_do(Work::NextEvent);
        r.then_do(Work::Seed { agenda: Agenda::Wakeups, index: 0 });
        r.then_do(Work::ArmTimers);
        r.then_idle_at_start();
        r.then_task_inits();
        r.then_bandwidths();
        r.then_group_inits(&ids);
        r.then_do(Work::Started);
        r.then_do(Work::Ask { request: Request::Init });
        r
    }

    pub(crate) fn started(&mut self, reply: &Reply) -> (r: Request)
        requires
            old(self).wf(),
            reply@.ok(old(self)@.cpus.len()),
        ensures
            final(self).wf(),
            (final(self)@, r) == old(self)@.started(reply@),
    {
        proof {
            self.lemma_wf();
        }
        self.absorb(reply);
        self.charge_sched_time(CpuId(0), reply.cost);
        if reply.value as i32 == 0 {
            Request::Continue
        } else {
            Request::Halt(HaltReason::InitFailed { rc: reply.value })
        }
    }

    pub(crate) fn group_init(&mut self, cgid: CgroupId) -> (r: Request)
        requires
            old(self).wf(),
        ensures
            final(self).wf(),
            (final(self)@, r) == old(self)@.group_init(cgid),
    {
        proof {
            self.lemma_wf();
        }
        self.set_current_cpu(CpuId(0));
        let at = self.cpu(CpuId(0)).local_clock;
        self.then_do(Work::GroupInited { cgid, at });
        Request::CgroupInit { cgid }
    }

    pub(crate) fn group_inited(&mut self, reply: &Reply, cgid: CgroupId, at: TimeNs) -> (r: Request)
        requires
            old(self).wf(),
            reply@.ok(old(self)@.cpus.len()),
        ensures
            final(self).wf(),
            (final(self)@, r) == old(self)@.group_inited(reply@, cgid, at),
    {
        proof {
            self.lemma_wf();
        }
        self.absorb(reply);
        let rc = reply.value as i32;
        self.record(at, CpuId(0), TraceKind::CgroupInit { cgid, rc });
        self.charge_sched_time(CpuId(0), reply.cost);
        if rc == 0 {
            Request::Continue
        } else {
            Request::Halt(HaltReason::CgroupInitFailed { cgid, rc: reply.value })
        }
    }

    pub(crate) fn task_init(&mut self, pid: Pid, mask: usize) -> (r: Request)
        requires
            old(self).wf(),
        ensures
            final(self).wf(),
            (final(self)@, r) == old(self)@.task_init(pid, mask),
    {
        proof {
            self.lemma_wf();
        }
        let cgid: Option<CgroupId> = match self.find_task(pid) {
            Some(i) => self.task(i).cgid,
            None => None,
        };
        self.set_current_cpu(CpuId(0));
        let at = self.cpu(CpuId(0)).local_clock;
        self.then_call(
            CpuId(0),
            Request::SetCpumask { pid },
            Some(TraceKind::SetCpumask { pid, mask }),
        );
        self.then_do(Work::TaskInited { pid, at });
        Request::InitTask { pid, cgid }
    }

    pub(crate) fn task_inited(&mut self, reply: &Reply, pid: Pid, at: TimeNs) -> (r: Request)
        requires
            old(self).wf(),
            reply@.ok(old(self)@.cpus.len()),
        ensures
            final(self).wf(),
            (final(self)@, r) == old(self)@.task_inited(reply@, pid, at),
    {
        proof {
            self.lemma_wf();
        }
        self.absorb(reply);
        let rc = reply.value as i32;
        self.record(at, CpuId(0), TraceKind::InitTask { pid, rc });
        self.charge_sched_time(CpuId(0), reply.cost);
        if rc == 0 {
            Request::Continue
        } else {
            Request::Halt(HaltReason::InitTaskFailed { pid, rc: reply.value })
        }
    }

    pub(crate) fn idle_at_start(&mut self, cpu: CpuId) -> (r: Request)
        requires
            old(self).wf(),
            cpu.0 < old(self)@.cpus.len(),
        ensures
            final(self).wf(),
            (final(self)@, r) == old(self)@.idle_at_start(cpu),
    {
        self.put_clock(cpu, 1);
        self.set_current_cpu(cpu);
        self.then_do(Work::IdleAtStarted { cpu });
        Request::UpdateIdle { cpu, idle: true }
    }

    pub(crate) fn idle_at_started(&mut self, reply: &Reply, cpu: CpuId) -> (r: Request)
        requires
            old(self).wf(),
            reply@.ok(old(self)@.cpus.len()),
            cpu.0 < old(self)@.cpus.len(),
        ensures
            final(self).wf(),
            (final(self)@, r) == old(self)@.idle_at_started(reply@, cpu),
    {
        self.absorb(reply);
        self.record(1, cpu, TraceKind::UpdateIdle { cpu, idle: true });
        self.put_clock(cpu, 0);
        Request::Continue
    }

    pub(crate) fn seed(&mut self, agenda: Agenda, index: usize) -> (r: Request)
        requires
            old(self).wf(),
            old(self)@.has_room(),
        ensures
            final(self).wf(),
            (final(self)@, r) == old(self)@.seed(agenda, index),
    {
        proof {
            self.lemma_wf();
        }
        let i = index;
        let s = self.scenario();
        let mut next: Option<Agenda> = None;
        match agenda {
            Agenda::Wakeups => if i < s.tasks.len() {
                let (at, pid, cpu) = (
                    s.tasks[i].start_time_ns,
                    s.tasks[i].pid,
                    s.tasks[i].initial_cpu(),
                );
                self.push_event(at, EventKind::TaskWake { pid, waker: None, cpu });
            } else {
                next = Some(Agenda::Ticks);
            },
            Agenda::Ticks => if i < s.nr_cpus as usize {
                self.push_event(TICK_INTERVAL_NS, EventKind::Tick { cpu: CpuId(i as u32) });
            } else {
                next = Some(Agenda::Hotplug);
            },
            Agenda::Hotplug => if i < s.hotplug_events.len() {
                let (at, cpu, online) = (
                    s.hotplug_events[i].time_ns,
                    s.hotplug_events[i].cpu,
                    s.hotplug_events[i].online,
                );
                self.push_event(
                    at,
                    if online {
                        EventKind::CpuOnline { cpu }
                    } else {
                        EventKind::CpuOffline { cpu }
                    },
                );
            } else {
                next = Some(Agenda::Preemptions);
            },
            Agenda::Preemptions => if i < s.cpu_preempt_events.len() {
                let (release, acquire, cpu) = (
                    s.cpu_preempt_events[i].release_at_ns,
                    s.cpu_preempt_events[i].acquire_at_ns,
                    s.cpu_preempt_events[i].cpu,
                );
                self.push_event(release, EventKind::CpuRelease { cpu });
                self.push_event(acquire, EventKind::CpuAcquire { cpu });
            } else {
                next = Some(Agenda::Migrations);
            },
            Agenda::Migrations => if i < s.cgroup_migrate_events.len() {
                let at = s.cgroup_migrate_events[i].at_ns;
                self.push_event(at, EventKind::CgroupMigrate { event: i, cpu: CpuId(0) });
            } else {
                next = Some(Agenda::Creations);
            },
            Agenda::Creations => if i < s.cgroup_create_events.len() {
                let at = s.cgroup_create_events[i].at_ns;
                self.push_event(at, EventKind::CgroupCreate { event: i, cpu: CpuId(0) });
            } else {
                next = Some(Agenda::Destructions);
            },
            Agenda::Destructions => if i < s.cgroup_destroy_events.len() {
                let at = s.cgroup_destroy_events[i].at_ns;
                self.push_event(at, EventKind::CgroupDestroy { event: i, cpu: CpuId(0) });
            } else {
                next = Some(Agenda::CpusetChanges);
            },
            Agenda::CpusetChanges => if i < s.cgroup_cpuset_change_events.len() {
                let at = s.cgroup_cpuset_change_events[i].at_ns;
                self.push_event(at, EventKind::CgroupCpusetChange { event: i, cpu: CpuId(0) });
            } else {
                next = Some(Agenda::Interrupts);
            },
            Agenda::Interrupts => if i < s.irq_events.len() {
                let (at, cpu) = (s.irq_events[i].at_ns, s.irq_events[i].cpu);
                self.push_event(at, EventKind::IrqStart { event: i, cpu });
            } else {
                next = Some(Agenda::FutexOps);
            },
            Agenda::FutexOps => if i < s.futex_events.len() {
                let (at, pid) = (s.futex_events[i].at_ns, s.futex_events[i].pid);
                self.push_event(at, EventKind::FutexOp { event: i, pid });
            } else {
                return Request::Continue;
            },
        }
        match next {
            Some(agenda) => self.then_do(Work::Seed { agenda, index: 0 }),
            None => self.then_do(Work::Seed { agenda, index: i + 1 }),
        }
        Request::Continue
    }

    fn then_final_call(&mut self, cpu: CpuId, request: Request, note: Option<TraceKind>)
        requires
            old(self).wf(),
            cpu.0 < old(self)@.cpus.len(),
        ensures
            final(self).wf(),
            final(self)@ == old(self)@.then_final_call(cpu, request, note),
    {
        self.then_do(Work::Call { request, cpu, charge: Some(CpuId(0)), note });
    }

    fn with_end_records(&mut self)
        requires
            old(self).wf(),
        ensures
            final(self).wf(),
            final(self)@ == old(self)@.with_end_records(old(self)@.cpus.len()),
            final(self)@.cpus == old(self)@.cpus,
            final(self)@.tasks == old(self)@.tasks,
            final(self)@.registry == old(self)@.registry,
    {
        proof {
            self.lemma_wf();
        }
        let ghost s = self@;
        let n = self.nr_cpus();
        let end = self.scenario().duration_ns;
        let mut i: usize = 0;
        while i < n
            invariant
                self.wf(),
                n == s.cpus.len(),
                n <= u32::MAX,
                end == s.scenario.duration_ns,
                i <= n,
                self@ == s.with_end_records(i as nat),
                self@.cpus == s.cpus,
                self@.tasks == s.tasks,
                self@.registry == s.registry,
            decreases n - i,
        {
            let c = CpuId(i as u32);
            if let Some(pid) = self.cpu(c).current_task {
                self.record(end, c, TraceKind::SimulationEnd { pid });
            }
            i = i + 1;
        }
    }

    fn then_group_exits(&mut self, cpu: CpuId, ids: &Vec<CgroupId>)
        requires
            old(self).wf(),
            cpu.0 < old(self)@.cpus.len(),
        ensures
            final(self).wf(),
            final(self)@ == old(self)@.then_group_exits(
                cpu,
                ids@.map_values(|c: CgroupId| c.0),
            ),
            final(self)@.cpus == old(self)@.cpus,
            final(self)@.tasks == old(self)@.tasks,
    {
        let ghost s = self@;
        let ghost all = ids@.map_values(|c: CgroupId| c.0);
        let mut i: usize = 0;
        proof {
            assert(all.take(0) =~= Seq::empty());
        }
        while i < ids.len()
            invariant
                self.wf(),
                cpu.0 < s.cpus.len(),
                i <= ids@.len(),
                all == ids@.map_values(|c: CgroupId| c.0),
                self@ == s.then_group_exits(cpu, all.take(i as int)),
                self@.cpus == s.cpus,
                self@.tasks == s.tasks,
            decreases ids@.len() - i,
        {
            let cgid = ids[i];
            self.then_final_call(
                cpu,
                Request::CgroupExit { cgid },
                Some(TraceKind::CgroupExit { cgid }),
            );
            i = i + 1;
            proof {
                assert(all.take(i as int).drop_last() =~= all.take(i - 1));
                assert(all.take(i as int).last() == ids@[i - 1].0);
            }
        }
        proof {
            assert(all.take(i as int) =~= all);
        }
    }

    fn then_task_exits(&mut self, cpu: CpuId)
        requires
            old(self).wf(),
            cpu.0 < old(self)@.cpus.len(),
        ensures
            final(self).wf(),
            final(self)@ == old(self)@.then_task_exits(cpu, 0),
            final(self)@.cpus == old(self)@.cpus,
            final(self)@.tasks == old(self)@.tasks,
    {
        let ghost s = self@;
        let mut from: usize = self.nr_tasks();
        while from > 0
            invariant
                self.wf(),
                cpu.0 < s.cpus.len(),
                from <= s.tasks.len(),
                self@.tasks == s.tasks,
                self@.cpus == s.cpus,
                self@ == s.then_task_exits(cpu, from as nat),
            decreases from,
        {
            from = from - 1;
            let pid = self.task(from).pid;
            self.then_final_call(
                cpu,
                Request::ExitTask { pid },
                Some(TraceKind::ExitTask { pid }),
            );
        }
    }

    fn then_task_dumps(&mut self, cpu: CpuId)
        requires
            old(self).wf(),
            cpu.0 < old(self)@.cpus.len(),
        ensures
            final(self).wf(),
            final(self)@ == old(self)@.then_task_dumps(cpu, 0),
            final(self)@.cpus == old(self)@.cpus,
    {
        let ghost s = self@;
        let mut from: usize = self.nr_tasks();
        while from > 0
            invariant
                self.wf(),
                cpu.0 < s.cpus.len(),
                from <= s.tasks.len(),
                self@.tasks == s.tasks,
                self@.cpus == s.cpus,
                self@ == s.then_task_dumps(cpu, from as nat),
            decreases from,
        {
            from = from - 1;
            let pid = self.task(from).pid;
            self.then_final_call(cpu, Request::DumpTask { pid }, None);
        }
    }

    pub(crate) fn finish(&mut self) -> (r: Request)
        requires
            old(self).wf(),
        ensures
            final(self).wf(),
            (final(self)@, r) == old(self)@.finish(),
    {
        proof {
            self.lemma_wf();
        }
        let cpu = self.current_cpu();
        let ids = self.registry().all_cgids_preorder();
        self.with_end_records();
        self.then_final_call(cpu, Request::Exit, None);
        self.then_group_exits(cpu, &ids);
        self.then_task_exits(cpu);
        self.then_task_dumps(cpu);
        self.then_final_call(cpu, Request::Dump, None);
        Request::Continue
    }
}

} // verus!
