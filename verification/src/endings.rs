//! How a simulation begins and how it ends: what stands at the start, what the scheduler
//! hears of first and last, which events a scenario brings about, and which of them are
//! served.

use vstd::prelude::*;

use crate::cgroup::preorder;
use crate::engine::step_to;
use crate::event_queue::{EventKind, QueueView};
use crate::lifecycle::{
    cgid_of, fresh_task, lemma_placed, start_groups, start_tasks,
};
use crate::scenario::Scenario;
use crate::served::{callback, only_adds};
use crate::sim_state::SimView;
use crate::state::{
    Agenda, BranchCounter, HaltReason, ReplyView, Request, SimTask, Work,
};
use crate::steps::{lemma_charge, other_cpus_stay, stands_at};
use crate::trace::{TraceEvent, TraceKind};
use crate::types::{CgroupId, CpuId, Pid, TimeNs};

verus! {

/// At the start every CPU is online, runs nothing, serves no interrupt and stands at time
/// zero. CPUs share a cache in blocks of as many as the scenario says, or all of them.
pub proof fn law_cpus_start_free(
    s: Scenario,
    counter: BranchCounter,
    masks: Seq<Seq<char>>,
    i: int,
)
    requires
        0 <= i < s.nr_cpus,
    ensures
        ({
            let all = SimView::blank(s, counter, masks).cpus;
            let c = all[i];
            &&& all.len() == s.nr_cpus
            &&& c.id.0 == i
            &&& c.current_task is None && c.prev_task is None && c.task_started_at is None
                && c.task_original_slice is None
            &&& c.local_clock == 0 && c.irq_stolen_ns == 0 && c.irq_cumulative_ns == 0
            &&& c.is_online && c.irq_context is Task
            &&& s.cpus_per_llc == 0 ==> c.llc_id == 0
            &&& s.cpus_per_llc > 0 ==> s.cpus_per_llc * c.llc_id <= i < s.cpus_per_llc * (c.llc_id
                + 1)
        }),
{
    if s.cpus_per_llc > 0 {
        let d = s.cpus_per_llc as int;
        let q = i / d;
        vstd::arithmetic::div_mod::lemma_fundamental_div_mod(i, d);
        vstd::arithmetic::div_mod::lemma_mod_bound(i, d);
        assert(d * (q + 1) == d * q + d) by (nonlinear_arith);
        assert(0 <= q <= i) by (nonlinear_arith)
            requires
                d > 0,
                0 <= i,
                q == i / d,
        ;
    }
}

/// At the start nothing is queued, recorded, armed, held back or sent, the clock stands at
/// zero and nothing has gone wrong.
pub proof fn law_a_simulation_starts_blank(
    s: Scenario,
    counter: BranchCounter,
    masks: Seq<Seq<char>>,
    i: int,
)
    ensures
        ({
            let a = SimView::blank(s, counter, masks);
            &&& a.local.len() == s.nr_cpus
            &&& 0 <= i < s.nr_cpus ==> a.local[i].len() == 0
            &&& a.timers.len() == 8
            &&& 0 <= i < 8 ==> a.timers[i] is None
            &&& a.accum.len() == s.nr_cpus
            &&& 0 <= i < s.nr_cpus ==> a.accum[i].cpu_count == 0 && a.accum[i].kfunc_count == 0
                && a.accum[i].rbc_total == 0 && a.accum[i].interleave_count == 0
            &&& a.events.pending.len() == 0 && a.events.count == 0
            &&& a.events.fixed_priority == s.fixed_priority
            &&& a.trace.len() == 0 && a.work.len() == 0 && a.staged.len() == 0
                && a.blocked.len() == 0
            &&& a.clock == 0 && a.current_cpu.0 == 0
            &&& a.stats.longest_structop_rbc == 0 && a.stats.longest_rbc_interval == 0
            &&& a.error is None && a.exit is Normal
            &&& a.counter == counter && a.scenario == s
            &&& a.head.nr_cpus == s.nr_cpus && a.head.masks == masks && a.head.warmup_ns
                == s.warmup_ns
            &&& 0 <= i < s.tasks@.len() ==> a.head.names[i] == (s.tasks@[i].pid, s.tasks@[i].name@)
            &&& a.head.names.len() == s.tasks@.len()
        }),
{
}

/// A task starts as its last entry in the scenario says: asleep, before its first phase,
/// not yet known to the scheduler, as if it had last run on the first CPU that it may use.
pub proof fn law_a_task_starts_as_its_last_entry_says(s: Scenario, n: nat, d: int)
    requires
        n <= s.tasks@.len(),
        s.tasks@.len() <= usize::MAX,
        0 <= d < n,
        forall|e: int| d < e < n ==> (#[trigger] s.tasks@[e]).pid != s.tasks@[d].pid,
    ensures
        exists|i: int|
            0 <= i < start_tasks(s, n).len() && (#[trigger] start_tasks(s, n)[i]).def == d
                && sleeps_as(s, start_tasks(s, n)[i], d),
    decreases n,
{
    let m = (n - 1) as nat;
    crate::lifecycle::law_tasks_start_in_order(s, m);
    let before = start_tasks(s, m);
    let t = fresh_task(s, m as int);
    lemma_placed(before, t);
    let after = start_tasks(s, n);
    if d == m {
        assert(after.contains(t));
        let i = choose|i: int| 0 <= i < after.len() && after[i] == t;
        assert(after[i].def == d);
    } else {
        law_a_task_starts_as_its_last_entry_says(s, m, d);
        let k = choose|k: int|
            0 <= k < before.len() && (#[trigger] before[k]).def == d && sleeps_as(s, before[k], d);
        assert(before[k].pid == s.tasks@[d].pid);
        assert(s.tasks@[m as int].pid != s.tasks@[d].pid);
        assert(after.contains(before[k]));
        let i = choose|i: int| 0 <= i < after.len() && after[i] == before[k];
        assert(after[i].def == d);
    }
}

/// Whether a task is asleep before anything has happened to it, as an entry of the scenario
/// says.
pub open spec fn sleeps_as(s: Scenario, t: SimTask, d: int) -> bool {
    let e = s.tasks@[d];
    &&& t.pid == e.pid
    &&& t.state is Sleeping && t.ops_state is Free && !t.enabled
    &&& t.run_remaining_ns == 0 && t.sum_exec_base == 0 && t.phase == 0 && t.rounds == 0
    &&& t.runnable_at_ns is None && t.enqueued_at_ns is None
    &&& e.allowed_cpus is Some && (e.allowed_cpus->0)@.len() > 0 ==> t.prev_cpu == (
    e.allowed_cpus->0)@[0]
    &&& e.allowed_cpus is None ==> t.prev_cpu.0 == 0
}

/// A task that is listed once counts against the control group that its entry names, and
/// against none where it names none.
pub proof fn law_a_task_counts_against_its_group(s: Scenario, d: int)
    requires
        0 <= d < s.tasks@.len(),
        forall|e: int|
            0 <= e < s.tasks@.len() && e != d ==> (#[trigger] s.tasks@[e]).pid != s.tasks@[d].pid,
    ensures
        ({
            let t = fresh_task(s, d);
            let name = s.tasks@[d].cgroup_name;
            &&& name is None ==> t.cgid is None
            &&& name is Some && start_groups(s).get_by_name(name->0@) is Some ==> t.cgid == Some(
                CgroupId(start_groups(s).get_by_name(name->0@)->0.id),
            )
        }),
{
    lemma_only_entry(s, d, s.tasks@.len());
}

proof fn lemma_only_entry(s: Scenario, d: int, n: nat)
    requires
        0 <= d < s.tasks@.len(),
        n <= s.tasks@.len(),
        forall|e: int|
            0 <= e < s.tasks@.len() && e != d ==> (#[trigger] s.tasks@[e]).pid != s.tasks@[d].pid,
    ensures
        n <= d ==> cgid_of(s, s.tasks@[d].pid, n) is None,
        n > d && s.tasks@[d].cgroup_name is None ==> cgid_of(s, s.tasks@[d].pid, n) is None,
        n > d && s.tasks@[d].cgroup_name is Some && start_groups(s).get_by_name(
            s.tasks@[d].cgroup_name->0@,
        ) is Some ==> cgid_of(s, s.tasks@[d].pid, n) == Some(
            CgroupId(start_groups(s).get_by_name(s.tasks@[d].cgroup_name->0@)->0.id),
        ),
    decreases n,
{
    if n > 0 {
        lemma_only_entry(s, d, (n - 1) as nat);
        if n - 1 != d {
            assert(s.tasks@[n - 1].pid != s.tasks@[d].pid);
        }
    }
}

/// The scheduler is loaded first. It then hears of the control groups from the root down,
/// of their limits, of the tasks in order and of the idle CPUs in order; then its timers
/// are armed and the events of the scenario are scheduled.
pub proof fn law_the_scheduler_hears_of_everything_at_the_start(
    s: Scenario,
    counter: BranchCounter,
    masks: Seq<Seq<char>>,
    c: int,
    t: int,
    g: int,
)
    requires
        forall|k: int| 0 <= k < s.cgroups@.len() ==> (#[trigger] s.cgroups@[k]).bandwidth is None,
    ensures
        ({
            let a = SimView::initial(s, counter, masks);
            let ids = preorder(start_groups(s).groups, 1);
            let tasks = start_tasks(s, s.tasks@.len());
            let (nc, nt, ng) = (s.nr_cpus as int, tasks.len() as int, ids.len() as int);
            &&& a == (SimView { work: a.work, ..SimView::blank(s, counter, masks) })
            &&& a.work.len() == 5 + nc + nt + ng
            &&& a.work[4 + nc + nt + ng] == (Work::Ask { request: Request::Init })
            &&& a.work[3 + nc + nt + ng] == Work::Started
            &&& 0 <= g < ng ==> a.work[3 + nc + nt + (ng - 1 - g)] == (Work::GroupInit {
                cgid: CgroupId(ids[g]),
            })
            &&& 0 <= t < nt ==> a.work[3 + nc + (nt - 1 - t)] == (Work::TaskInit {
                pid: tasks[t].pid,
                mask: tasks[t].def,
            })
            &&& 0 <= c < nc ==> a.work[3 + (nc - 1 - c)] == (Work::IdleAtStart {
                cpu: CpuId(c as u32),
            })
            &&& a.work[2] == Work::ArmTimers
            &&& a.work[1] == (Work::Seed { agenda: Agenda::Wakeups, index: 0 })
            &&& a.work[0] == Work::NextEvent
        }),
{
    let base = SimView::blank(s, counter, masks);
    let s0 = base.then_do(Work::NextEvent).then_do(
        Work::Seed { agenda: Agenda::Wakeups, index: 0 },
    ).then_do(Work::ArmTimers);
    let s1 = s0.then_idle_at_start(0);
    let s2 = s1.then_task_inits(0);
    let s3 = s2.then_bandwidths(0);
    let ids = preorder(start_groups(s).groups, 1);
    let s4 = s3.then_group_inits(ids);
    lemma_idle_at_start(s0, 0);
    lemma_task_inits(s1, 0);
    lemma_no_bandwidths(s2, 0);
    lemma_group_inits(s3, ids);
    let (nc, nt, ng) = (s.nr_cpus as int, base.tasks.len() as int, ids.len() as int);
    if 0 <= g < ng {
        assert(s4.work[s3.work.len() + ng - 1 - g] == (Work::GroupInit { cgid: CgroupId(ids[g]) }));
    }
    if 0 <= t < nt {
        assert(s2.work[s1.work.len() + (nt - 1 - t)] == (Work::TaskInit {
            pid: base.tasks[t].pid,
            mask: base.tasks[t].def,
        }));
    }
    if 0 <= c < nc {
        assert(s1.work[s0.work.len() + (nc - 1 - c)] == (Work::IdleAtStart {
            cpu: CpuId(c as u32),
        }));
    }
}

proof fn lemma_idle_at_start(s: SimView, from: nat)
    requires
        from <= s.cpus.len(),
    ensures
        ({
            let after = s.then_idle_at_start(from);
            let n = s.work.len() as int;
            &&& after == (SimView { work: after.work, ..s })
            &&& after.work.len() == n + s.cpus.len() - from
            &&& forall|j: int| 0 <= j < n ==> after.work[j] == s.work[j]
            &&& forall|c: int|
                from <= c < s.cpus.len() ==> #[trigger] after.work[n + (s.cpus.len() - 1 - c)] == (
                Work::IdleAtStart { cpu: CpuId(c as u32) })
        }),
    decreases s.cpus.len() - from,
{
    if from < s.cpus.len() {
        lemma_idle_at_start(s, from + 1);
    }
}

proof fn lemma_task_inits(s: SimView, from: nat)
    requires
        from <= s.tasks.len(),
    ensures
        ({
            let after = s.then_task_inits(from);
            let n = s.work.len() as int;
            &&& after == (SimView { work: after.work, ..s })
            &&& after.work.len() == n + s.tasks.len() - from
            &&& forall|j: int| 0 <= j < n ==> after.work[j] == s.work[j]
            &&& forall|c: int|
                from <= c < s.tasks.len() ==> #[trigger] after.work[n + (s.tasks.len() - 1 - c)]
                    == (Work::TaskInit { pid: s.tasks[c].pid, mask: s.tasks[c].def })
        }),
    decreases s.tasks.len() - from,
{
    if from < s.tasks.len() {
        lemma_task_inits(s, from + 1);
    }
}

proof fn lemma_no_bandwidths(s: SimView, from: nat)
    requires
        forall|k: int|
            0 <= k < s.scenario.cgroups@.len() ==> (
            #[trigger] s.scenario.cgroups@[k]).bandwidth is None,
    ensures
        s.then_bandwidths(from) == s,
    decreases s.scenario.cgroups@.len() - from,
{
    if from < s.scenario.cgroups@.len() {
        lemma_no_bandwidths(s, from + 1);
        assert(s.scenario.cgroups@[from as int].bandwidth is None);
    }
}

proof fn lemma_group_inits(s: SimView, ids: Seq<u64>)
    ensures
        ({
            let after = s.then_group_inits(ids);
            let (n, k) = (s.work.len() as int, ids.len() as int);
            &&& after == (SimView { work: after.work, ..s })
            &&& after.work.len() == n + k
            &&& forall|j: int| 0 <= j < n ==> after.work[j] == s.work[j]
            &&& forall|g: int|
                0 <= g < k ==> #[trigger] after.work[n + k - 1 - g] == (Work::GroupInit {
                    cgid: CgroupId(ids[g]),
                })
        }),
    decreases ids.len(),
{
    if ids.len() > 0 {
        let rest = ids.skip(1);
        lemma_group_inits(s, rest);
        let before = s.then_group_inits(rest);
        let after = s.then_group_inits(ids);
        let (n, k) = (s.work.len() as int, ids.len() as int);
        assert forall|g: int| 0 <= g < k implies #[trigger] after.work[n + k - 1 - g] == (
        Work::GroupInit { cgid: CgroupId(ids[g]) }) by {
            if g > 0 {
                assert(before.work[n + (k - 1) - 1 - (g - 1)] == (Work::GroupInit {
                    cgid: CgroupId(rest[g - 1]),
                }));
            }
        }
    }
}

/// The limit of a control group that exists is told to the scheduler and recorded, number
/// by number, before those of the groups listed after it; a group without a limit is
/// passed over.
pub proof fn law_limits_are_told_to_the_scheduler(s: SimView, k: nat)
    requires
        k < s.scenario.cgroups@.len(),
    ensures
        ({
            let d = s.scenario.cgroups@[k as int];
            let g = s.registry.get_by_name(d.name@);
            let (now, later) = (s.then_bandwidths(k), s.then_bandwidths(k + 1));
            &&& d.bandwidth is None || g is None ==> now == later
            &&& d.bandwidth is Some && g is Some ==> {
                let b = d.bandwidth->0;
                let cgid = CgroupId(g->0.id);
                only_adds(
                    later,
                    now,
                    seq![
                        callback(
                            CpuId(0),
                            Request::CgroupSetBandwidth { cgid, bandwidth: b },
                            Some(
                                TraceKind::CgroupSetBandwidth {
                                    cgid,
                                    period_us: b.period_us,
                                    quota_us: b.quota_us,
                                    burst_us: b.burst_us,
                                },
                            ),
                        ),
                    ],
                )
            }
        }),
{
}

/// A scheduler that cannot be loaded stops everything, with what it returned; one that can
/// goes on.
pub proof fn law_a_scheduler_that_cannot_be_loaded_stops_everything(s: SimView, r: ReplyView)
    requires
        0 < s.cpus.len(),
        i32::MIN <= r.value <= i32::MAX,
    ensures
        ({
            let (after, request) = s.perform(Work::Started, r);
            &&& r.value == 0 ==> request is Continue
            &&& r.value != 0 ==> request == Request::Halt(HaltReason::InitFailed { rc: r.value })
            &&& after.trace == s.trace + r.records
            &&& after.work == s.work && after.tasks == s.tasks && after.events == s.events
        }),
{
    lemma_charge(s.absorb(r), CpuId(0), r.cost);
}

/// The scheduler hears of a control group on the first CPU. What it returns is recorded at
/// the time it was asked; a refusal stops everything.
pub proof fn law_groups_are_announced_on_the_first_cpu(
    s: SimView,
    r: ReplyView,
    cgid: CgroupId,
    at: TimeNs,
)
    requires
        0 < s.cpus.len(),
        i32::MIN <= r.value <= i32::MAX,
    ensures
        ({
            let (after, request) = s.perform(Work::GroupInit { cgid }, r);
            &&& request == (Request::CgroupInit { cgid })
            &&& after == (SimView {
                current_cpu: CpuId(0),
                work: s.work.push(Work::GroupInited { cgid, at: s.cpus[0].local_clock }),
                ..s
            })
        }),
        ({
            let (after, request) = s.perform(Work::GroupInited { cgid, at }, r);
            &&& r.value == 0 ==> request is Continue
            &&& r.value != 0 ==> request == Request::Halt(
                HaltReason::CgroupInitFailed { cgid, rc: r.value },
            )
            &&& after.trace.len() == s.trace.len() + r.records.len() + 1
            &&& after.trace.last() == (TraceEvent {
                time_ns: at,
                cpu: CpuId(0),
                kind: TraceKind::CgroupInit { cgid, rc: r.value as i32 },
            })
            &&& after.work == s.work && after.tasks == s.tasks
        }),
{
    let a = s.absorb(r).record(
        at,
        CpuId(0),
        TraceKind::CgroupInit { cgid, rc: r.value as i32 },
    );
    lemma_charge(a, CpuId(0), r.cost);
}

/// The scheduler hears of a task, with the control group it counts against, and then of
/// the CPUs it may use. What it returns is recorded; a refusal stops everything.
pub proof fn law_tasks_are_announced_with_their_cpus(
    s: SimView,
    r: ReplyView,
    pid: Pid,
    mask: usize,
    at: TimeNs,
    i: int,
)
    requires
        0 < s.cpus.len(),
        stands_at(s, pid, i),
        i32::MIN <= r.value <= i32::MAX,
    ensures
        ({
            let (after, request) = s.perform(Work::TaskInit { pid, mask }, r);
            &&& request == (Request::InitTask { pid, cgid: s.tasks[i].cgid })
            &&& only_adds(
                SimView { current_cpu: CpuId(0), ..s },
                after,
                seq![
                    callback(
                        CpuId(0),
                        Request::SetCpumask { pid },
                        Some(TraceKind::SetCpumask { pid, mask }),
                    ),
                    Work::TaskInited { pid, at: s.cpus[0].local_clock },
                ],
            )
        }),
        ({
            let (after, request) = s.perform(Work::TaskInited { pid, at }, r);
            &&& r.value == 0 ==> request is Continue
            &&& r.value != 0 ==> request == Request::Halt(
                HaltReason::InitTaskFailed { pid, rc: r.value },
            )
            &&& after.trace.len() == s.trace.len() + r.records.len() + 1
            &&& after.trace.last() == (TraceEvent {
                time_ns: at,
                cpu: CpuId(0),
                kind: TraceKind::InitTask { pid, rc: r.value as i32 },
            })
            &&& after.work == s.work && after.tasks == s.tasks
        }),
{
    let a = s.absorb(r).record(at, CpuId(0), TraceKind::InitTask { pid, rc: r.value as i32 });
    lemma_charge(a, CpuId(0), r.cost);
}

/// A CPU is reported idle at time one, since at time zero it would not read as idle; then
/// its clock stands at zero.
pub proof fn law_a_cpu_is_reported_idle_at_the_start(s: SimView, r: ReplyView, cpu: CpuId)
    requires
        cpu.0 < s.cpus.len(),
    ensures
        ({
            let (after, request) = s.perform(Work::IdleAtStart { cpu }, r);
            &&& request == (Request::UpdateIdle { cpu, idle: true })
            &&& after.cpu(cpu).local_clock == 1
            &&& after.current_cpu == cpu
            &&& after.work == s.work.push(Work::IdleAtStarted { cpu })
            &&& other_cpus_stay(s, after, cpu)
        }),
        ({
            let (after, request) = s.perform(Work::IdleAtStarted { cpu }, r);
            &&& request is Continue
            &&& after.cpu(cpu).local_clock == 0
            &&& other_cpus_stay(s, after, cpu)
            &&& after.trace.len() == s.trace.len() + r.records.len() + 1
            &&& after.trace.last() == (TraceEvent {
                time_ns: 1,
                cpu,
                kind: TraceKind::UpdateIdle { cpu, idle: true },
            })
            &&& after.work == s.work && after.tasks == s.tasks
        }),
{
}

/// How many entries a list of a scenario has.
pub open spec fn entries(s: Scenario, agenda: Agenda) -> nat {
    match agenda {
        Agenda::Wakeups => s.tasks@.len(),
        Agenda::Ticks => s.nr_cpus as nat,
        Agenda::Hotplug => s.hotplug_events@.len(),
        Agenda::Preemptions => s.cpu_preempt_events@.len(),
        Agenda::Migrations => s.cgroup_migrate_events@.len(),
        Agenda::Creations => s.cgroup_create_events@.len(),
        Agenda::Destructions => s.cgroup_destroy_events@.len(),
        Agenda::CpusetChanges => s.cgroup_cpuset_change_events@.len(),
        Agenda::Interrupts => s.irq_events@.len(),
        Agenda::FutexOps => s.futex_events@.len(),
    }
}

/// Whether an entry of a list has its event after a step: at its time, of its kind, for
/// its CPU or its task.
pub open spec fn entry_is_due(s: Scenario, before: QueueView, after: QueueView, agenda: Agenda, index: usize) -> bool {
    let i = index as int;
    match agenda {
        Agenda::Wakeups => exists|cpu: CpuId|
            after == #[trigger] before.push(
                s.tasks@[i].start_time_ns,
                EventKind::TaskWake { pid: s.tasks@[i].pid, waker: None, cpu },
            ) && (s.tasks@[i].allowed_cpus is None ==> cpu.0 == 0) && (
            s.tasks@[i].allowed_cpus is Some && (s.tasks@[i].allowed_cpus->0)@.len() > 0 ==> cpu
                == (s.tasks@[i].allowed_cpus->0)@[0]),
        Agenda::Ticks => after == before.push(
            4_000_000,
            EventKind::Tick { cpu: CpuId(index as u32) },
        ),
        Agenda::Hotplug => {
            let e = s.hotplug_events@[i];
            &&& e.online ==> after == before.push(e.time_ns, EventKind::CpuOnline { cpu: e.cpu })
            &&& !e.online ==> after == before.push(e.time_ns, EventKind::CpuOffline { cpu: e.cpu })
        },
        Agenda::Preemptions => {
            let e = s.cpu_preempt_events@[i];
            after == before.push(e.release_at_ns, EventKind::CpuRelease { cpu: e.cpu }).push(
                e.acquire_at_ns,
                EventKind::CpuAcquire { cpu: e.cpu },
            )
        },
        Agenda::Migrations => after == before.push(
            s.cgroup_migrate_events@[i].at_ns,
            EventKind::CgroupMigrate { event: index, cpu: CpuId(0) },
        ),
        Agenda::Creations => after == before.push(
            s.cgroup_create_events@[i].at_ns,
            EventKind::CgroupCreate { event: index, cpu: CpuId(0) },
        ),
        Agenda::Destructions => after == before.push(
            s.cgroup_destroy_events@[i].at_ns,
            EventKind::CgroupDestroy { event: index, cpu: CpuId(0) },
        ),
        Agenda::CpusetChanges => after == before.push(
            s.cgroup_cpuset_change_events@[i].at_ns,
            EventKind::CgroupCpusetChange { event: index, cpu: CpuId(0) },
        ),
        Agenda::Interrupts => after == before.push(
            s.irq_events@[i].at_ns,
            EventKind::IrqStart { event: index, cpu: s.irq_events@[i].cpu },
        ),
        Agenda::FutexOps => after == before.push(
            s.futex_events@[i].at_ns,
            EventKind::FutexOp { event: index, pid: s.futex_events@[i].pid },
        ),
    }
}

/// Every entry of every list of a scenario becomes an event at its time, one after the
/// other; after the last entry of a list the next list begins, and after the last list
/// nothing is left of them.
pub proof fn law_every_entry_of_a_scenario_is_scheduled(
    s: SimView,
    r: ReplyView,
    agenda: Agenda,
    index: usize,
)
    requires
        index < usize::MAX,
    ensures
        ({
            let (after, request) = s.perform(Work::Seed { agenda, index }, r);
            let more = index < entries(s.scenario, agenda);
            &&& request is Continue
            &&& more ==> {
                &&& entry_is_due(s.scenario, s.events, after.events, agenda, index)
                &&& after.work == s.work.push(Work::Seed { agenda, index: (index + 1) as usize })
            }
            &&& !more ==> after.events == s.events
            &&& !more && !(agenda is FutexOps) ==> {
                &&& after.work.len() == s.work.len() + 1
                &&& after.work.last() is Seed && after.work.last()->index == 0
                &&& comes_after(after.work.last()->agenda, agenda)
            }
            &&& !more && agenda is FutexOps ==> after.work == s.work
            &&& after.tasks == s.tasks && after.cpus == s.cpus && after.trace == s.trace
        }),
{
    if agenda is Wakeups && index < s.scenario.tasks@.len() {
        let e = s.scenario.tasks@[index as int];
        let cpu = e.spec_initial_cpu();
        let after = s.perform(Work::Seed { agenda, index }, r).0;
        assert(after.events == s.events.push(
            e.start_time_ns,
            EventKind::TaskWake { pid: e.pid, waker: None, cpu },
        ));
    }
}

/// Whether a list is the one scheduled after another.
pub open spec fn comes_after(next: Agenda, agenda: Agenda) -> bool {
    match agenda {
        Agenda::Wakeups => next is Ticks,
        Agenda::Ticks => next is Hotplug,
        Agenda::Hotplug => next is Preemptions,
        Agenda::Preemptions => next is Migrations,
        Agenda::Migrations => next is Creations,
        Agenda::Creations => next is Destructions,
        Agenda::Destructions => next is CpusetChanges,
        Agenda::CpusetChanges => next is Interrupts,
        Agenda::Interrupts => next is FutexOps,
        Agenda::FutexOps => false,
    }
}

/// The last piece of work is done next, and nothing is left to do after the last. The
/// earliest event is served at its time, followed by a look at errors and by the event
/// after it; when none is left, or none before the end, the simulation is wound up.
pub proof fn law_events_are_served_until_the_end(
    s: SimView,
    r: ReplyView,
    next: SimView,
    request: Request,
)
    requires
        step_to(s, r, next, request),
    ensures
        s.work.len() == 0 ==> next == s && request is Finished,
        s.work.len() > 0 && !(s.work.last() is NextEvent) ==> (next, request) == (SimView {
            work: s.work.drop_last(),
            ..s
        }).perform(s.work.last(), r),
        s.work.len() > 0 && s.work.last() is NextEvent ==> {
            let a = SimView { work: s.work.drop_last(), ..s };
            let pending = s.events.pending;
            &&& request is Continue
            &&& pending.len() == 0 || pending[0].time_ns > s.scenario.duration_ns ==> only_adds(
                a,
                next,
                seq![Work::Finish],
            )
            &&& pending.len() > 0 && pending[0].time_ns <= s.scenario.duration_ns ==> only_adds(
                SimView { clock: pending[0].time_ns, events: s.events.take(0), ..a },
                next,
                seq![Work::NextEvent, Work::CheckError, Work::Handle { kind: pending[0].kind }],
            )
        },
{
    reveal(step_to);
}

/// At the end every task that runs is recorded as running on its CPU at the simulation's
/// end, once, and nothing else is.
pub proof fn law_running_tasks_are_recorded_at_the_end(s: SimView, n: nat, c: int)
    requires
        n <= s.cpus.len(),
        s.cpus.len() <= u32::MAX,
        0 <= c < n,
    ensures
        ({
            let after = s.with_end_records(n);
            let m = s.trace.len() as int;
            &&& after == (SimView { trace: after.trace, ..s })
            &&& m <= after.trace.len() <= m + n
            &&& forall|k: int| 0 <= k < m ==> after.trace[k] == s.trace[k]
            &&& forall|k: int| m <= k < after.trace.len() ==> ends_on(s, #[trigger] after.trace[k])
            &&& s.cpus[c].current_task is Some ==> exists|k: int|
                m <= k < after.trace.len() && (#[trigger] after.trace[k]).cpu.0 == c
            &&& forall|k: int, l: int|
                m <= k < l < after.trace.len() ==> (#[trigger] after.trace[k]).cpu.0 < (
                #[trigger] after.trace[l]).cpu.0
        }),
{
    lemma_end_records(s, n);
    if s.cpus[c].current_task is Some {
        lemma_end_record_of(s, n, c);
    }
}

/// Whether an entry says which task runs on its CPU at the simulation's end.
pub open spec fn ends_on(s: SimView, e: TraceEvent) -> bool {
    &&& e.time_ns == s.scenario.duration_ns
    &&& e.kind is SimulationEnd
    &&& s.cpus[e.cpu.0 as int].current_task == Some(e.kind->SimulationEnd_pid)
}

proof fn lemma_end_records(s: SimView, n: nat)
    requires
        n <= s.cpus.len(),
        s.cpus.len() <= u32::MAX,
    ensures
        ({
            let after = s.with_end_records(n);
            let m = s.trace.len() as int;
            &&& after == (SimView { trace: after.trace, ..s })
            &&& m <= after.trace.len() <= m + n
            &&& forall|k: int| 0 <= k < m ==> after.trace[k] == s.trace[k]
            &&& forall|k: int|
                m <= k < after.trace.len() ==> ends_on(s, #[trigger] after.trace[k])
                    && after.trace[k].cpu.0 < n
            &&& forall|k: int, l: int|
                m <= k < l < after.trace.len() ==> (#[trigger] after.trace[k]).cpu.0 < (
                #[trigger] after.trace[l]).cpu.0
        }),
    decreases n,
{
    if n > 0 {
        lemma_end_records(s, (n - 1) as nat);
    }
}

proof fn lemma_end_record_of(s: SimView, n: nat, c: int)
    requires
        n <= s.cpus.len(),
        s.cpus.len() <= u32::MAX,
        0 <= c < n,
        s.cpus[c].current_task is Some,
    ensures
        exists|k: int|
            s.trace.len() <= k < s.with_end_records(n).trace.len() && (
            #[trigger] s.with_end_records(n).trace[k]).cpu.0 == c,
    decreases n,
{
    let before = s.with_end_records((n - 1) as nat);
    let after = s.with_end_records(n);
    lemma_end_records(s, (n - 1) as nat);
    lemma_end_records(s, n);
    if c == n - 1 {
        assert(after.trace[before.trace.len() as int].cpu.0 == c);
    } else {
        lemma_end_record_of(s, (n - 1) as nat, c);
        let k = choose|k: int|
            s.trace.len() <= k < before.trace.len() && (#[trigger] before.trace[k]).cpu.0 == c;
        assert(after.trace[k] == before.trace[k]);
    }
}

/// A last callback, which the first CPU pays for.
pub open spec fn last_call(cpu: CpuId, request: Request, note: Option<TraceKind>) -> Work {
    Work::Call { request, cpu, charge: Some(CpuId(0)), note }
}

/// At the end the scheduler dumps its state and that of every task in order. Then every
/// task leaves, in order, then every control group, from the leaves up, and the scheduler
/// is unloaded last.
pub proof fn law_the_scheduler_lets_go_of_everything_at_the_end(
    s: SimView,
    r: ReplyView,
    t: int,
    g: int,
)
    requires
        s.cpus.len() <= u32::MAX,
    ensures
        ({
            let (after, request) = s.perform(Work::Finish, r);
            let on = s.current_cpu;
            let ids = preorder(s.registry.groups, 1);
            let (n, nt, ng) = (s.work.len() as int, s.tasks.len() as int, ids.len() as int);
            &&& request is Continue
            &&& after == (SimView {
                work: after.work,
                ..s.with_end_records(s.cpus.len())
            })
            &&& after.work.len() == n + 2 + ng + 2 * nt
            &&& after.work[n + 1 + ng + 2 * nt] == last_call(on, Request::Dump, None)
            &&& 0 <= t < nt ==> {
                let pid = s.tasks[t].pid;
                &&& after.work[n + 1 + ng + nt + (nt - 1 - t)] == last_call(
                    on,
                    Request::DumpTask { pid },
                    None,
                )
                &&& after.work[n + 1 + ng + (nt - 1 - t)] == last_call(
                    on,
                    Request::ExitTask { pid },
                    Some(TraceKind::ExitTask { pid }),
                )
            }
            &&& 0 <= g < ng ==> after.work[n + 1 + g] == last_call(
                on,
                Request::CgroupExit { cgid: CgroupId(ids[g]) },
                Some(TraceKind::CgroupExit { cgid: CgroupId(ids[g]) }),
            )
            &&& after.work[n] == last_call(on, Request::Exit, None)
        }),
{
    let on = s.current_cpu;
    lemma_end_records(s, s.cpus.len());
    let s0 = s.with_end_records(s.cpus.len());
    let s1 = s0.then_final_call(on, Request::Exit, None);
    let ids = preorder(s.registry.groups, 1);
    let s2 = s1.then_group_exits(on, ids);
    let s3 = s2.then_task_exits(on, 0);
    let s4 = s3.then_task_dumps(on, 0);
    lemma_group_exits(s1, on, ids);
    lemma_task_exits(s2, on, 0);
    lemma_task_dumps(s3, on, 0);
    let nt = s.tasks.len() as int;
    if 0 <= g < ids.len() {
        assert(s2.work[s1.work.len() + g] == last_call(
            on,
            Request::CgroupExit { cgid: CgroupId(ids[g]) },
            Some(TraceKind::CgroupExit { cgid: CgroupId(ids[g]) }),
        ));
    }
    if 0 <= t < nt {
        let pid = s.tasks[t].pid;
        assert(s3.work[s2.work.len() + (nt - 1 - t)] == last_call(
            on,
            Request::ExitTask { pid },
            Some(TraceKind::ExitTask { pid }),
        ));
        assert(s4.work[s3.work.len() + (nt - 1 - t)] == last_call(
            on,
            Request::DumpTask { pid },
            None,
        ));
    }
}

proof fn lemma_group_exits(s: SimView, cpu: CpuId, ids: Seq<u64>)
    ensures
        ({
            let after = s.then_group_exits(cpu, ids);
            let n = s.work.len() as int;
            &&& after == (SimView { work: after.work, ..s })
            &&& after.work.len() == n + ids.len()
            &&& forall|j: int| 0 <= j < n ==> after.work[j] == s.work[j]
            &&& forall|g: int|
                0 <= g < ids.len() ==> #[trigger] after.work[n + g] == last_call(
                    cpu,
                    Request::CgroupExit { cgid: CgroupId(ids[g]) },
                    Some(TraceKind::CgroupExit { cgid: CgroupId(ids[g]) }),
                )
        }),
    decreases ids.len(),
{
    if ids.len() > 0 {
        let rest = ids.drop_last();
        lemma_group_exits(s, cpu, rest);
        let before = s.then_group_exits(cpu, rest);
        let after = s.then_group_exits(cpu, ids);
        let n = s.work.len() as int;
        assert forall|g: int| 0 <= g < ids.len() implies #[trigger] after.work[n + g] == last_call(
            cpu,
            Request::CgroupExit { cgid: CgroupId(ids[g]) },
            Some(TraceKind::CgroupExit { cgid: CgroupId(ids[g]) }),
        ) by {
            if g < rest.len() {
                assert(before.work[n + g] == after.work[n + g]);
            }
        }
    }
}

proof fn lemma_task_exits(s: SimView, cpu: CpuId, from: nat)
    requires
        from <= s.tasks.len(),
    ensures
        ({
            let after = s.then_task_exits(cpu, from);
            let n = s.work.len() as int;
            &&& after == (SimView { work: after.work, ..s })
            &&& after.work.len() == n + s.tasks.len() - from
            &&& forall|j: int| 0 <= j < n ==> after.work[j] == s.work[j]
            &&& forall|c: int|
                from <= c < s.tasks.len() ==> #[trigger] after.work[n + (s.tasks.len() - 1 - c)]
                    == last_call(
                    cpu,
                    Request::ExitTask { pid: s.tasks[c].pid },
                    Some(TraceKind::ExitTask { pid: s.tasks[c].pid }),
                )
        }),
    decreases s.tasks.len() - from,
{
    if from < s.tasks.len() {
        lemma_task_exits(s, cpu, from + 1);
    }
}

proof fn lemma_task_dumps(s: SimView, cpu: CpuId, from: nat)
    requires
        from <= s.tasks.len(),
    ensures
        ({
            let after = s.then_task_dumps(cpu, from);
            let n = s.work.len() as int;
            &&& after == (SimView { work: after.work, ..s })
            &&& after.work.len() == n + s.tasks.len() - from
            &&& forall|j: int| 0 <= j < n ==> after.work[j] == s.work[j]
            &&& forall|c: int|
                from <= c < s.tasks.len() ==> #[trigger] after.work[n + (s.tasks.len() - 1 - c)]
                    == last_call(cpu, Request::DumpTask { pid: s.tasks[c].pid }, None)
        }),
    decreases s.tasks.len() - from,
{
    if from < s.tasks.len() {
        lemma_task_dumps(s, cpu, from + 1);
    }
}

/// Branches are counted by the scheduler itself where it is instrumented, by the
/// processor where they have a price and it can, and by nothing otherwise.
pub proof fn law_branches_are_counted_where_they_matter(s: Scenario, pmu_available: bool)
    ensures
        ({
            let c = crate::lifecycle::spec_counter_for(s, pmu_available);
            let own = s.preemptive is Some && (s.preemptive->0).preempt_mode
                == crate::scenario::PreemptMode::E9patch;
            let priced = s.sched_overhead_rbc_ns is Some && s.sched_overhead_rbc_ns->0 != 0;
            &&& c is Software <==> own
            &&& c is Hardware <==> !own && priced && pmu_available
            &&& c is Absent <==> !own && !(priced && pmu_available)
        }),
{
}

/// A scenario cannot run without CPUs, with cores that are not full, or with a task or a
/// timed event, until its end, on a CPU that does not exist.
pub proof fn law_scenarios_that_cannot_run(s: Scenario, i: int)
    ensures
        s.nr_cpus == 0 ==> !crate::lifecycle::scenario_ok(s),
        s.smt_threads_per_core > 1 && s.nr_cpus % s.smt_threads_per_core != 0
            ==> !crate::lifecycle::scenario_ok(s),
        0 <= i < s.tasks@.len() && s.tasks@[i].allowed_cpus is Some && (
        s.tasks@[i].allowed_cpus->0)@.len() > 0 && (s.tasks@[i].allowed_cpus->0)@[0].0 >= s.nr_cpus
            ==> !crate::lifecycle::scenario_ok(s),
        0 <= i < s.hotplug_events@.len() && s.hotplug_events@[i].time_ns <= s.duration_ns
            && s.hotplug_events@[i].cpu.0 >= s.nr_cpus ==> !crate::lifecycle::scenario_ok(s),
        0 <= i < s.cpu_preempt_events@.len() && s.cpu_preempt_events@[i].release_at_ns
            <= s.duration_ns && s.cpu_preempt_events@[i].cpu.0 >= s.nr_cpus
            ==> !crate::lifecycle::scenario_ok(s),
        0 <= i < s.irq_events@.len() && s.irq_events@[i].at_ns <= s.duration_ns
            && s.irq_events@[i].cpu.0 >= s.nr_cpus ==> !crate::lifecycle::scenario_ok(s),
        0 <= i < s.tasks@.len() && s.tasks@[i].cgroup_name is Some && start_groups(s).get_by_name(
            (s.tasks@[i].cgroup_name->0)@,
        ) is None ==> !crate::lifecycle::scenario_ok(s),
        0 <= i < s.tasks@.len() && s.tasks@[i].parent_pid is Some && (forall|k: int|
            0 <= k < s.tasks@.len() ==> Some((#[trigger] s.tasks@[k]).pid)
                != s.tasks@[i].parent_pid) ==> !crate::lifecycle::scenario_ok(s),
{
    if crate::lifecycle::scenario_ok(s) {
        if 0 <= i < s.tasks@.len() {
            assert(crate::lifecycle::task_ok(s, s.tasks@[i]));
            assert(s.tasks@[i].spec_initial_cpu().0 < s.nr_cpus);
        }
        if 0 <= i < s.hotplug_events@.len() && s.hotplug_events@[i].time_ns <= s.duration_ns {
            assert(s.hotplug_events@[i].cpu.0 < s.nr_cpus);
        }
    }
}

/// A scenario with CPUs, without control groups, and whose tasks and events name nothing
/// that does not exist, can run.
pub proof fn law_plain_scenarios_can_run(s: Scenario)
    requires
        s.nr_cpus > 0,
        s.smt_threads_per_core <= 1,
        s.cgroups@.len() == 0,
        forall|i: int|
            0 <= i < s.tasks@.len() ==> (#[trigger] s.tasks@[i]).allowed_cpus is None
                && s.tasks@[i].parent_pid is None && s.tasks@[i].cgroup_name is None,
        s.hotplug_events@.len() == 0,
        s.cpu_preempt_events@.len() == 0,
        s.irq_events@.len() == 0,
    ensures
        crate::lifecycle::scenario_ok(s),
{
}

/// The control groups of a scenario are created in its order, each under the one it names
/// or under the root, with its name and its CPUs.
pub proof fn law_groups_are_created_in_order(s: Scenario, n: nat)
    requires
        0 < n <= s.cgroups@.len(),
    ensures
        ({
            let before = crate::lifecycle::with_groups(s, (n - 1) as nat);
            let after = crate::lifecycle::with_groups(s, n);
            let d = s.cgroups@[n - 1];
            let g = after.groups.last();
            &&& after.groups.len() == before.groups.len() + 1
            &&& after.groups.drop_last() == before.groups
            &&& g.id == before.next && g.name == d.name@
            &&& d.parent_name is None ==> g.parent == 1
            &&& d.parent_name is Some && before.get_by_name((d.parent_name->0)@) is Some
                ==> g.parent == before.get_by_name((d.parent_name->0)@)->0.id
            &&& d.cpuset is None ==> g.cpuset is None
            &&& d.cpuset is Some ==> g.cpuset == Some((d.cpuset->0)@)
        }),
        crate::lifecycle::with_groups(s, 0).groups.len() == 1,
{
    let before = crate::lifecycle::with_groups(s, (n - 1) as nat);
    let after = crate::lifecycle::with_groups(s, n);
    assert(after.groups.drop_last() =~= before.groups);
}

} // verus!
