//! What the events come to that a scenario brings about: CPUs that come and go, interrupts,
//! futex operations, control groups that come, go and change.

use vstd::prelude::*;

use crate::cgroup::cpuset_view;
use crate::event_queue::EventKind;
use crate::scenario::FutexOp;
use crate::sim_state::SimView;
use crate::state::{
    text_view, ExitView, HaltReason, IrqContext, OpsTaskState, ReplyView, Request, SimCpu, SimTask,
    TaskState, Work,
};
use crate::steps::{
    in_time, lemma_charge, lemma_in_time, other_cpus_stay, others_stay, recorded, stands_at,
};
use crate::trace::TraceKind;
use crate::types::{CgroupId, CpuId, Pid, TimeNs};

verus! {

/// A callback on a CPU that pays for it.
pub open spec fn callback(cpu: CpuId, request: Request, note: Option<TraceKind>) -> Work {
    Work::Call { request, cpu, charge: Some(cpu), note }
}

/// Whether nothing but the work has changed, to which some was added.
pub open spec fn only_adds(a: SimView, b: SimView, more: Seq<Work>) -> bool {
    &&& b == (SimView { work: b.work, ..a })
    &&& b.work.len() == a.work.len() + more.len()
    &&& forall|j: int| 0 <= j < a.work.len() ==> b.work[j] == a.work[j]
    &&& forall|j: int| 0 <= j < more.len() ==> #[trigger] b.work[a.work.len() + j] == more[j]
}

/// A CPU that goes offline gives up its task first; then its queue goes back to the
/// scheduler, which hears of it, and only then the CPU is offline. A CPU that a higher
/// class takes keeps its queue. Nothing happens to one that is offline.
pub proof fn law_a_cpu_gives_up_its_task_before_it_goes(s: SimView, r: ReplyView, cpu: CpuId)
    requires
        cpu.0 < s.cpus.len(),
    ensures
        ({
            let a = in_time(s, cpu);
            let (off, q) = s.perform(Work::Handle { kind: EventKind::CpuOffline { cpu } }, r);
            let (taken, p) = s.perform(Work::Handle { kind: EventKind::CpuRelease { cpu } }, r);
            let last = Work::SetOnline { cpu, online: false };
            let hears_off = callback(cpu, Request::CpuOffline { cpu }, None);
            let hears_taken = callback(cpu, Request::CpuRelease { cpu }, None);
            &&& q is Continue && p is Continue
            &&& !s.cpu(cpu).is_online ==> off == a && taken == a
            &&& s.cpu(cpu).is_online && s.cpu(cpu).current_task is Some ==> {
                &&& only_adds(
                    a,
                    off,
                    seq![last, hears_off, Work::DrainLocal { cpu }, Work::Preempt { cpu }],
                )
                &&& only_adds(a, taken, seq![last, hears_taken, Work::Preempt { cpu }])
            }
            &&& s.cpu(cpu).is_online && s.cpu(cpu).current_task is None ==> {
                &&& only_adds(a, off, seq![last, hears_off, Work::DrainLocal { cpu }])
                &&& only_adds(a, taken, seq![last, hears_taken])
            }
        }),
{
    lemma_in_time(s, cpu);
}

/// A CPU that comes back is online at once. The scheduler hears of it, then that the CPU
/// idles; its ticks begin again and it looks for a task. Nothing happens to a CPU that is
/// online already, unless a higher class gives it back.
pub proof fn law_a_cpu_that_comes_back_starts_over(s: SimView, r: ReplyView, cpu: CpuId)
    requires
        cpu.0 < s.cpus.len(),
    ensures
        ({
            let a = in_time(s, cpu);
            let b = SimView {
                cpus: a.cpus.update(cpu.0 as int, SimCpu { is_online: true, ..a.cpu(cpu) }),
                ..a
            };
            let (on, q) = s.perform(Work::Handle { kind: EventKind::CpuOnline { cpu } }, r);
            let (back, p) = s.perform(Work::Handle { kind: EventKind::CpuAcquire { cpu } }, r);
            let idles = callback(
                cpu,
                Request::UpdateIdle { cpu, idle: true },
                Some(TraceKind::UpdateIdle { cpu, idle: true }),
            );
            let looks = Work::TryDispatch { cpu };
            let ticks = Work::RestartTick { cpu };
            let marks = Work::Ask { request: Request::MarkIdle { cpu } };
            &&& q is Continue && p is Continue
            &&& s.cpu(cpu).is_online ==> on == a
            &&& !s.cpu(cpu).is_online ==> only_adds(
                b,
                on,
                seq![
                    looks,
                    ticks,
                    idles,
                    marks,
                    callback(cpu, Request::CpuOnline { cpu }, None),
                ],
            )
            &&& only_adds(
                b,
                back,
                seq![
                    looks,
                    ticks,
                    idles,
                    marks,
                    callback(cpu, Request::CpuAcquire { cpu }, None),
                ],
            )
        }),
{
    lemma_in_time(s, cpu);
}

/// A CPU is set online or offline and nothing else changes; what the scheduler holds of a
/// task is set for that task alone.
pub proof fn law_what_is_set_is_set_alone(
    s: SimView,
    r: ReplyView,
    cpu: CpuId,
    online: bool,
    pid: Pid,
    i: int,
    ops_state: OpsTaskState,
)
    requires
        cpu.0 < s.cpus.len(),
        stands_at(s, pid, i),
    ensures
        ({
            let (after, request) = s.perform(Work::SetOnline { cpu, online }, r);
            &&& request is Continue
            &&& after.cpu(cpu) == (SimCpu { is_online: online, ..s.cpu(cpu) })
            &&& other_cpus_stay(s, after, cpu)
            &&& after == (SimView { cpus: after.cpus, ..s })
        }),
        ({
            let (after, request) = s.perform(Work::SetOps { pid, ops_state }, r);
            &&& request is Continue
            &&& after.tasks[i] == (SimTask { ops_state, ..s.tasks[i] })
            &&& others_stay(s, after, i)
            &&& after == (SimView { tasks: after.tasks, ..s })
        }),
{
}

/// What is asked is asked, what is noted is recorded as it is, and an observer looks at
/// the time of the CPU.
pub proof fn law_questions_and_notes_pass_through(
    s: SimView,
    r: ReplyView,
    request: Request,
    at: TimeNs,
    cpu: CpuId,
    kind: TraceKind,
    point: crate::state::ProbePoint,
    pid: Pid,
)
    ensures
        s.perform(Work::Ask { request }, r) == (s, request),
        ({
            let (after, q) = s.perform(Work::Note { at, cpu, kind }, r);
            &&& q is Continue
            &&& recorded(s, after, at, cpu, kind)
            &&& after == (SimView { trace: after.trace, ..s })
        }),
        s.perform(Work::Probe { point, pid, cpu }, r) == (
            s,
            Request::Probe { point, pid, cpu, time_ns: s.cpus[cpu.0 as int].local_clock },
        ),
{
}

/// A CPU's ticks begin again four milliseconds after it came back.
pub proof fn law_ticks_begin_again(s: SimView, r: ReplyView, cpu: CpuId)
    requires
        cpu.0 < s.cpus.len(),
        s.cpu(cpu).local_clock + 4_000_000 <= u64::MAX,
    ensures
        ({
            let (after, request) = s.perform(Work::RestartTick { cpu }, r);
            &&& request is Continue
            &&& after.events == s.events.push(
                (s.cpu(cpu).local_clock + 4_000_000) as u64,
                EventKind::Tick { cpu },
            )
            &&& after == (SimView { events: after.events, ..s })
        }),
{
}

/// The work that hands a task back to the scheduler, at no cost.
pub open spec fn handed_back(cpu: CpuId, pid: Pid) -> Work {
    Work::Call {
        request: Request::Enqueue { cpu, pid, flags: 0 },
        cpu,
        charge: None,
        note: None,
    }
}

/// The queue of a CPU that goes offline is empty afterwards, and its tasks go back to the
/// scheduler in the order in which they stood. The queues of other CPUs stay.
pub proof fn law_a_queue_goes_back_in_order(s: SimView, r: ReplyView, cpu: CpuId)
    requires
        cpu.0 < s.local.len(),
        forall|k: int|
            0 <= k < s.local[cpu.0 as int].len() ==> s.find(
                #[trigger] s.local[cpu.0 as int][k],
            ) is Some,
    ensures
        ({
            let (after, request) = s.perform(Work::DrainLocal { cpu }, r);
            let q = s.local[cpu.0 as int];
            let (n, k) = (s.work.len() as int, q.len() as int);
            &&& request is Continue
            &&& after.local.len() == s.local.len()
            &&& after.local[cpu.0 as int].len() == 0
            &&& forall|j: int|
                0 <= j < s.local.len() && j != cpu.0 ==> #[trigger] after.local[j] == s.local[j]
            &&& after.work.len() == n + k
            &&& forall|j: int|
                0 <= j < k ==> #[trigger] after.work[n + k - 1 - j] == handed_back(cpu, q[j])
            &&& after == (SimView { work: after.work, local: after.local, ..s })
        }),
{
    let q = s.local[cpu.0 as int];
    let a = s.set_local(cpu, Seq::empty());
    assert(a.tasks == s.tasks);
    assert forall|k: int| 0 <= k < q.len() implies a.find(#[trigger] q[k]) is Some by {
        assert(s.find(s.local[cpu.0 as int][k]) is Some);
    }
    lemma_handed_back(a, cpu, q);
}

proof fn lemma_handed_back(s: SimView, cpu: CpuId, q: Seq<Pid>)
    requires
        forall|k: int| 0 <= k < q.len() ==> s.find(#[trigger] q[k]) is Some,
    ensures
        ({
            let after = s.then_enqueue_all(cpu, q);
            let (n, k) = (s.work.len() as int, q.len() as int);
            &&& after.work.len() == n + k
            &&& forall|j: int| 0 <= j < n ==> after.work[j] == s.work[j]
            &&& forall|j: int|
                0 <= j < k ==> #[trigger] after.work[n + k - 1 - j] == handed_back(cpu, q[j])
            &&& after == (SimView { work: after.work, ..s })
        }),
    decreases q.len(),
{
    if q.len() > 0 {
        let rest = q.skip(1);
        assert forall|k: int| 0 <= k < rest.len() implies s.find(#[trigger] rest[k]) is Some by {
            assert(s.find(q[k + 1]) is Some);
        }
        lemma_handed_back(s, cpu, rest);
        let before = s.then_enqueue_all(cpu, rest);
        let after = s.then_enqueue_all(cpu, q);
        let (n, k) = (s.work.len() as int, q.len() as int);
        assert(s.find(q[0]) is Some);
        assert forall|j: int| 0 <= j < k implies #[trigger] after.work[n + k - 1 - j]
            == handed_back(cpu, q[j]) by {
            if j > 0 {
                assert(before.work[n + (k - 1) - 1 - (j - 1)] == handed_back(cpu, rest[j - 1]));
            }
        }
    }
}

/// A queue of tasks that are no longer known goes nowhere.
pub proof fn law_unknown_tasks_do_not_go_back(s: SimView, r: ReplyView, cpu: CpuId)
    requires
        cpu.0 < s.local.len(),
        forall|k: int|
            0 <= k < s.local[cpu.0 as int].len() ==> s.find(
                #[trigger] s.local[cpu.0 as int][k],
            ) is None,
    ensures
        s.perform(Work::DrainLocal { cpu }, r).0.work == s.work,
        s.perform(Work::DrainLocal { cpu }, r).0.local[cpu.0 as int].len() == 0,
{
    let q = s.local[cpu.0 as int];
    let a = s.set_local(cpu, Seq::empty());
    assert forall|k: int| 0 <= k < q.len() implies a.find(#[trigger] q[k]) is None by {
        assert(s.find(s.local[cpu.0 as int][k]) is None);
    }
    lemma_none_handed_back(a, cpu, q);
}

proof fn lemma_none_handed_back(s: SimView, cpu: CpuId, q: Seq<Pid>)
    requires
        forall|k: int| 0 <= k < q.len() ==> s.find(#[trigger] q[k]) is None,
    ensures
        s.then_enqueue_all(cpu, q) == s,
    decreases q.len(),
{
    if q.len() > 0 {
        let rest = q.skip(1);
        assert forall|k: int| 0 <= k < rest.len() implies s.find(#[trigger] rest[k]) is None by {
            assert(s.find(q[k + 1]) is None);
        }
        lemma_none_handed_back(s, cpu, rest);
        assert(s.find(q[0]) is None);
    }
}

/// An interrupt is recorded with its kind when it starts. Its time is counted for the CPU,
/// and as stolen where a task runs. Its tasks are woken in order, and its end is scheduled
/// after that.
pub proof fn law_an_interrupt_steals_its_time(
    s: SimView,
    r: ReplyView,
    event: usize,
    cpu: CpuId,
)
    requires
        cpu.0 < s.cpus.len(),
        event < s.scenario.irq_events@.len(),
        s.cpu(cpu).irq_cumulative_ns + s.scenario.irq_events@[event as int].duration_ns
            <= u64::MAX,
        s.cpu(cpu).irq_stolen_ns + s.scenario.irq_events@[event as int].duration_ns <= u64::MAX,
    ensures
        ({
            let a = in_time(s, cpu);
            let e = s.scenario.irq_events@[event as int];
            let (after, request) = s.perform(
                Work::Handle { kind: EventKind::IrqStart { event, cpu } },
                r,
            );
            let (c, d) = (s.cpu(cpu), after.cpu(cpu));
            let (n, k) = (s.work.len() as int, e.wake_pids@.len() as int);
            &&& request is Continue
            &&& recorded(
                s,
                after,
                a.cpu(cpu).local_clock,
                cpu,
                TraceKind::IrqStart { cpu, irq_type: e.irq_type },
            )
            &&& e.irq_type is HardIrq ==> d.irq_context is HardIrq
            &&& e.irq_type is SoftIrq ==> d.irq_context is ServingSoftIrq
            &&& d.irq_cumulative_ns == c.irq_cumulative_ns + e.duration_ns
            &&& c.current_task is Some ==> d.irq_stolen_ns == c.irq_stolen_ns + e.duration_ns
            &&& c.current_task is None ==> d.irq_stolen_ns == c.irq_stolen_ns
            &&& d.current_task == c.current_task && d.local_clock == a.cpu(cpu).local_clock
            &&& other_cpus_stay(s, after, cpu)
            &&& after.work.len() == n + 1 + k
            &&& after.work[n] == (Work::IrqFinish { cpu, duration_ns: e.duration_ns })
            &&& forall|j: int|
                0 <= j < k ==> #[trigger] after.work[n + k - j] == (Work::Wake {
                    pid: e.wake_pids@[j],
                    waker: None,
                })
            &&& after.tasks == s.tasks && after.events == s.events
        }),
{
    lemma_in_time(s, cpu);
    let a = in_time(s, cpu);
    let b = a.irq_entered(event as int, cpu);
    lemma_wakes(b, s.scenario.irq_events@[event as int].wake_pids@);
    let after = s.perform(Work::Handle { kind: EventKind::IrqStart { event, cpu } }, r).0;
    let e = s.scenario.irq_events@[event as int];
    let (n, k) = (s.work.len() as int, e.wake_pids@.len() as int);
    assert forall|j: int| 0 <= j < k implies #[trigger] after.work[n + k - j] == (Work::Wake {
        pid: e.wake_pids@[j],
        waker: None,
    }) by {
        assert(after.work[b.work.len() + k - 1 - j] == (Work::Wake {
            pid: e.wake_pids@[j],
            waker: None,
        }));
    }
}

proof fn lemma_wakes(s: SimView, pids: Seq<Pid>)
    ensures
        ({
            let after = s.then_wake_all(pids);
            let (n, k) = (s.work.len() as int, pids.len() as int);
            &&& after.work.len() == n + k
            &&& forall|j: int| 0 <= j < n ==> after.work[j] == s.work[j]
            &&& forall|j: int|
                0 <= j < k ==> #[trigger] after.work[n + k - 1 - j] == (Work::Wake {
                    pid: pids[j],
                    waker: None,
                })
            &&& after == (SimView { work: after.work, ..s })
        }),
    decreases pids.len(),
{
    if pids.len() > 0 {
        let rest = pids.skip(1);
        lemma_wakes(s, rest);
        let before = s.then_wake_all(rest);
        let after = s.then_wake_all(pids);
        let (n, k) = (s.work.len() as int, pids.len() as int);
        assert forall|j: int| 0 <= j < k implies #[trigger] after.work[n + k - 1 - j] == (
        Work::Wake { pid: pids[j], waker: None }) by {
            if j > 0 {
                assert(before.work[n + (k - 1) - 1 - (j - 1)] == (Work::Wake {
                    pid: rest[j - 1],
                    waker: None,
                }));
            }
        }
    }
}

/// An interrupt ends after its time: the CPU is back to tasks, which is recorded.
pub proof fn law_an_interrupt_ends_after_its_time(
    s: SimView,
    r: ReplyView,
    cpu: CpuId,
    duration_ns: TimeNs,
)
    requires
        cpu.0 < s.cpus.len(),
        s.cpu(cpu).local_clock + duration_ns <= u64::MAX,
    ensures
        ({
            let (after, request) = s.perform(Work::IrqFinish { cpu, duration_ns }, r);
            &&& request is Continue
            &&& after.events == s.events.push(
                (s.cpu(cpu).local_clock + duration_ns) as u64,
                EventKind::IrqEnd { cpu },
            )
            &&& after == (SimView { events: after.events, ..s })
        }),
        ({
            let a = in_time(s, cpu);
            let (after, request) = s.perform(Work::Handle { kind: EventKind::IrqEnd { cpu } }, r);
            &&& request is Continue
            &&& after.cpu(cpu) == (SimCpu { irq_context: IrqContext::Task, ..a.cpu(cpu) })
            &&& other_cpus_stay(s, after, cpu)
            &&& recorded(s, after, a.cpu(cpu).local_clock, cpu, TraceKind::IrqEnd { cpu })
            &&& after == (SimView { cpus: after.cpus, trace: after.trace, ..s })
        }),
{
    lemma_in_time(s, cpu);
}

/// A futex operation takes place on the CPU that runs its task, which is told which
/// operation it is; one whose task does not run is passed over.
pub proof fn law_a_futex_operation_needs_a_running_task(
    s: SimView,
    r: ReplyView,
    event: usize,
    pid: Pid,
    c: int,
)
    requires
        s.cpus.len() <= u32::MAX,
    ensures
        ({
            let (after, request) = s.perform(
                Work::Handle { kind: EventKind::FutexOp { event, pid } },
                r,
            );
            let op = s.scenario.futex_events@[event as int].op;
            let cpu = CpuId(c as u32);
            &&& (forall|j: int|
                0 <= j < s.cpus.len() ==> (#[trigger] s.cpus[j]).current_task != Some(pid)) ==> (
            after,
                request,
            ) == (s, Request::Continue)
            &&& 0 <= c < s.cpus.len() && s.cpus[c].current_task == Some(pid) && (forall|j: int|
                0 <= j < c ==> (#[trigger] s.cpus[j]).current_task != Some(pid)) ==> {
                &&& request == (Request::FutexOp { cpu, op })
                &&& after == (SimView {
                    current_cpu: cpu,
                    work: s.work.push(Work::FutexDone { cpu, pid, op }),
                    ..in_time(s, cpu)
                })
            }
        }),
{
    if forall|j: int|
        0 <= j < s.cpus.len() ==> (#[trigger] s.cpus[j]).current_task != Some(pid) {
        lemma_runs_nowhere(s.cpus, pid);
    }
    if 0 <= c < s.cpus.len() && s.cpus[c].current_task == Some(pid) && (forall|j: int|
        0 <= j < c ==> (#[trigger] s.cpus[j]).current_task != Some(pid)) {
        lemma_runs_first(s.cpus, pid, c);
        lemma_in_time(s, CpuId(c as u32));
    }
}

proof fn lemma_runs_nowhere(cpus: Seq<SimCpu>, pid: Pid)
    requires
        forall|j: int| 0 <= j < cpus.len() ==> (#[trigger] cpus[j]).current_task != Some(pid),
    ensures
        crate::cpu_events::cpu_running(cpus, pid) is None,
    decreases cpus.len(),
{
    if cpus.len() > 0 {
        let rest = cpus.drop_last();
        assert forall|j: int| 0 <= j < rest.len() implies (#[trigger] rest[j]).current_task
            != Some(pid) by {
            assert(rest[j] == cpus[j]);
        }
        lemma_runs_nowhere(rest, pid);
        assert(cpus[cpus.len() - 1].current_task != Some(pid));
    }
}

proof fn lemma_runs_first(cpus: Seq<SimCpu>, pid: Pid, c: int)
    requires
        0 <= c < cpus.len(),
        cpus[c].current_task == Some(pid),
        forall|j: int| 0 <= j < c ==> (#[trigger] cpus[j]).current_task != Some(pid),
    ensures
        crate::cpu_events::cpu_running(cpus, pid) == Some(c),
    decreases cpus.len(),
{
    let rest = cpus.drop_last();
    if c < rest.len() {
        assert forall|j: int| 0 <= j < c implies (#[trigger] rest[j]).current_task != Some(pid) by {
            assert(rest[j] == cpus[j]);
        }
        lemma_runs_first(rest, pid, c);
    } else {
        assert forall|j: int| 0 <= j < rest.len() implies (#[trigger] rest[j]).current_task
            != Some(pid) by {
            assert(rest[j] == cpus[j]);
        }
        lemma_runs_nowhere(rest, pid);
    }
}

/// A futex operation is recorded with its task, and as a boost exactly if the scheduler
/// returned a number that is not negative and whose lowest bit is set.
pub proof fn law_a_boost_is_recorded(
    s: SimView,
    r: ReplyView,
    cpu: CpuId,
    pid: Pid,
    op: FutexOp,
)
    requires
        cpu.0 < s.cpus.len(),
    ensures
        ({
            let (after, request) = s.perform(Work::FutexDone { cpu, pid, op }, r);
            let last = after.trace.last();
            &&& request is Continue
            &&& after.trace.len() == s.trace.len() + r.records.len() + 1
            &&& last.cpu == cpu && last.time_ns == after.cpu(cpu).local_clock
            &&& last.kind == (TraceKind::FutexBoost {
                pid,
                op,
                boosted: r.value >= 0 && r.value % 2 != 0,
            })
            &&& after.tasks == s.tasks && after.events == s.events && after.work == s.work
        }),
{
    lemma_charge(s.absorb(r), cpu, r.cost);
}

/// A task that changes its control group is moved from the one to the other, which is
/// recorded. A task that waits leaves its queues before and goes back to the scheduler
/// afterwards; a task that does not wait is only moved.
pub proof fn law_a_task_is_moved_between_its_groups(
    s: SimView,
    r: ReplyView,
    event: usize,
    cpu: CpuId,
    i: int,
)
    requires
        cpu.0 < s.cpus.len(),
        event < s.scenario.cgroup_migrate_events@.len(),
        stands_at(s, s.scenario.cgroup_migrate_events@[event as int].pid, i),
    ensures
        ({
            let a = in_time(s, cpu);
            let e = s.scenario.cgroup_migrate_events@[event as int];
            let pid = e.pid;
            let on = s.current_cpu;
            let from = s.registry.get_by_name(e.from_cgroup@);
            let to = s.registry.get_by_name(e.to_cgroup@);
            let (after, request) = s.perform(
                Work::Handle { kind: EventKind::CgroupMigrate { event, cpu } },
                r,
            );
            let moved = callback(
                on,
                Request::CgroupMove {
                    pid,
                    from: CgroupId(from->0.id),
                    to: CgroupId(to->0.id),
                },
                Some(
                    TraceKind::CgroupMove {
                        pid,
                        from_cgid: CgroupId(from->0.id),
                        to_cgid: CgroupId(to->0.id),
                    },
                ),
            );
            &&& from is None || to is None ==> after == a && request == Request::Halt(
                HaltReason::MigrateCgroupMissing { event },
            )
            &&& from is Some && to is Some ==> request is Continue
            &&& from is Some && to is Some && s.tasks[i].state == TaskState::Runnable
                ==> only_adds(
                a,
                after,
                seq![
                    Work::FlushStaged,
                    callback(on, Request::Enqueue { cpu: on, pid, flags: 0 }, None),
                    Work::SetOps { pid, ops_state: OpsTaskState::Queued },
                    moved,
                    Work::MigrateDequeue { pid, cpu: on },
                ],
            )
            &&& from is Some && to is Some && s.tasks[i].state != TaskState::Runnable
                ==> only_adds(a, after, seq![Work::FlushStaged, moved])
        }),
{
    lemma_in_time(s, cpu);
    let pid = s.scenario.cgroup_migrate_events@[event as int].pid;
    assert(in_time(s, cpu).find(pid) == s.find(pid));
}

/// A task that leaves its queues stands in none of the local ones if it stood in one
/// place at most; other tasks stay where they are. It is forgotten in the other queues,
/// and a scheduler that holds it hears of that.
pub proof fn law_a_moved_task_leaves_its_queue(
    s: SimView,
    r: ReplyView,
    pid: Pid,
    cpu: CpuId,
    i: int,
    c: int,
    k: int,
)
    requires
        stands_at(s, pid, i),
        0 <= c < s.local.len(),
        0 <= k < s.local[c].len(),
        s.local[c][k] == pid,
        forall|d: int, l: int|
            #![trigger s.local[d][l]]
            0 <= d < s.local.len() && 0 <= l < s.local[d].len() && s.local[d][l] == pid ==> d == c
                && l == k,
    ensures
        ({
            let (after, request) = s.perform(Work::MigrateDequeue { pid, cpu }, r);
            &&& request == (Request::RemoveFromQueues { pid })
            &&& after.local == s.local.update(c, s.local[c].remove(k))
            &&& s.tasks[i].ops_state is Queued ==> {
                &&& after.tasks[i] == (SimTask { ops_state: OpsTaskState::Free, ..s.tasks[i] })
                &&& others_stay(s, after, i)
                &&& after.work == s.work.push(
                    callback(
                        cpu,
                        Request::Dequeue { cpu, pid, flags: 0 },
                        Some(TraceKind::Dequeue { pid, deq_flags: 0 }),
                    ),
                )
            }
            &&& s.tasks[i].ops_state is Free ==> after.tasks == s.tasks && after.work == s.work
        }),
{
    lemma_out_of_one(s.local, pid, 0, c, k);
}

proof fn lemma_out_of_one(local: Seq<Seq<Pid>>, pid: Pid, from: nat, c: int, k: int)
    requires
        from <= c < local.len(),
        0 <= k < local[c].len(),
        local[c][k] == pid,
        forall|d: int, l: int|
            #![trigger local[d][l]]
            0 <= d < local.len() && 0 <= l < local[d].len() && local[d][l] == pid ==> d == c && l
                == k,
    ensures
        crate::cgroup_events::taken_out(local, pid, from) == local.update(c, local[c].remove(k)),
    decreases local.len() - from,
{
    crate::cgroup_events::lemma_place(local[from as int], pid);
    match crate::cgroup_events::place(local[from as int], pid) {
        Some(l) => {
            assert(local[from as int][l] == pid);
        },
        None => {
            if from == c {
                assert(local[c].contains(local[c][k]));
            } else {
                lemma_out_of_one(local, pid, from + 1, c, k);
            }
        },
    }
}

/// A control group is created under the one named, or under the root, with its name and
/// its CPUs, and the scheduler hears of it by its number. There are never more than there
/// may be: one too many ends the simulation. A parent that does not exist is an error.
pub proof fn law_a_group_is_created_under_its_parent(
    s: SimView,
    r: ReplyView,
    event: usize,
    cpu: CpuId,
)
    requires
        cpu.0 < s.cpus.len(),
        s.registry.groups.len() <= u32::MAX,
        s.registry.next < u64::MAX,
    ensures
        ({
            let a = in_time(s, cpu);
            let e = s.scenario.cgroup_create_events@[event as int];
            let name = text_view(e.parent_name);
            let (after, request) = s.perform(
                Work::Handle { kind: EventKind::CgroupCreate { event, cpu } },
                r,
            );
            let full = s.registry.groups.len() >= s.scenario.max_cgroups;
            let id = match name {
                Some(n) => match s.registry.get_by_name(n) {
                    Some(g) => Some(g.id),
                    None => None,
                },
                None => Some(1u64),
            };
            &&& full ==> {
                &&& request is Continue
                &&& after == (SimView {
                    work: seq![Work::Finish],
                    exit: ExitView::ErrorCgroupExhausted {
                        cgroup_name: e.name@,
                        active_count: s.registry.groups.len() as u32,
                        max_cgroups: s.scenario.max_cgroups,
                    },
                    ..a
                })
            }
            &&& !full && id is None ==> after == a && request == Request::Halt(
                HaltReason::ParentCgroupMissing { event },
            )
            &&& !full && id is Some && s.registry.get(id->0) is Some && s.registry.get(
                id->0,
            )->0.level < u32::MAX ==> {
                let g = after.registry.groups.last();
                &&& request == (Request::CgroupInit { cgid: CgroupId(s.registry.next) })
                &&& after.registry.groups.len() == s.registry.groups.len() + 1
                &&& after.registry.groups.drop_last() == s.registry.groups
                &&& g.id == s.registry.next && g.parent == id->0 && g.name == e.name@ && g.level
                    == s.registry.get(id->0)->0.level + 1 && g.cpuset == cpuset_view(e.cpuset)
                &&& after.registry.next == s.registry.next + 1
                &&& after.work == s.work.push(
                    Work::CgroupCreated {
                        event,
                        cgid: CgroupId(s.registry.next),
                        cpu: s.current_cpu,
                        at: a.cpu(s.current_cpu).local_clock,
                        count: s.registry.groups.len() as u32,
                    },
                )
                &&& after.tasks == s.tasks && after.events == s.events && after.exit == s.exit
            }
        }),
{
    lemma_in_time(s, cpu);
    let e = s.scenario.cgroup_create_events@[event as int];
    let after = s.perform(Work::Handle { kind: EventKind::CgroupCreate { event, cpu } }, r).0;
    if s.registry.groups.len() < s.scenario.max_cgroups {
        let parent = crate::cgroup_events::parent_of(s.registry, text_view(e.parent_name));
        if parent is Some {
            let made = s.registry.create(e.name@, parent->0, cpuset_view(e.cpuset));
            assert(made.groups.drop_last() =~= s.registry.groups);
        }
    }
}

/// What the scheduler returned for a group that was created is recorded at the time it
/// was asked; a refusal ends the simulation as one group too many does.
pub proof fn law_a_refused_group_ends_the_simulation(
    s: SimView,
    r: ReplyView,
    event: usize,
    cgid: CgroupId,
    cpu: CpuId,
    at: TimeNs,
    count: u32,
)
    requires
        cpu.0 < s.cpus.len(),
        i32::MIN <= r.value <= i32::MAX,
    ensures
        ({
            let (after, request) = s.perform(
                Work::CgroupCreated { event, cgid, cpu, at, count },
                r,
            );
            &&& request is Continue
            &&& after.trace.len() == s.trace.len() + r.records.len() + 1
            &&& after.trace.last() == (crate::trace::TraceEvent {
                time_ns: at,
                cpu,
                kind: TraceKind::CgroupInit { cgid, rc: r.value as i32 },
            })
            &&& r.value == 0 ==> after.work == s.work && after.exit == s.exit
            &&& r.value != 0 ==> after.work == seq![Work::Finish] && after.exit == (
            ExitView::ErrorCgroupExhausted {
                cgroup_name: s.scenario.cgroup_create_events@[event as int].name@,
                active_count: count,
                max_cgroups: s.scenario.max_cgroups,
            })
            &&& after.tasks == s.tasks && after.events == s.events && after.registry
                == s.registry
        }),
        ({
            let (after, request) = s.perform(Work::CpusetInited { cgid, cpu, at }, r);
            &&& request is Continue
            &&& after.trace.len() == s.trace.len() + r.records.len() + 1
            &&& after.trace.last() == (crate::trace::TraceEvent {
                time_ns: at,
                cpu,
                kind: TraceKind::CgroupInit { cgid, rc: r.value as i32 },
            })
            &&& after.work == s.work && after.exit == s.exit && after.tasks == s.tasks
        }),
{
    let a = s.absorb(r).record(at, cpu, TraceKind::CgroupInit { cgid, rc: r.value as i32 });
    lemma_charge(a, cpu, r.cost);
}

/// A control group that is destroyed can no longer be found by its name, and the scheduler
/// hears of its number, which is recorded; other groups stay. A name that stands for
/// nothing does nothing.
pub proof fn law_a_destroyed_group_is_reported(
    s: SimView,
    r: ReplyView,
    event: usize,
    cpu: CpuId,
    other: Seq<char>,
)
    requires
        cpu.0 < s.cpus.len(),
        s.registry.wf(),
    ensures
        ({
            let a = in_time(s, cpu);
            let name = s.scenario.cgroup_destroy_events@[event as int].name@;
            let g = s.registry.get_by_name(name);
            let (after, request) = s.perform(
                Work::Handle { kind: EventKind::CgroupDestroy { event, cpu } },
                r,
            );
            &&& request is Continue
            &&& g is None ==> after == a
            &&& g is Some ==> {
                &&& after.registry.get_by_name(name) is None
                &&& after.registry.groups.len() == s.registry.groups.len() - 1
                &&& other != name ==> after.registry.get_by_name(other)
                    == s.registry.get_by_name(other)
                &&& after.work == s.work.push(
                    callback(
                        s.current_cpu,
                        Request::CgroupExit { cgid: CgroupId(g->0.id) },
                        Some(TraceKind::CgroupExit { cgid: CgroupId(g->0.id) }),
                    ),
                )
                &&& after == (SimView { work: after.work, registry: after.registry, ..a })
            }
        }),
{
    lemma_in_time(s, cpu);
    let name = s.scenario.cgroup_destroy_events@[event as int].name@;
    crate::cgroup::law_destroyed_group_is_gone(s.registry, name);
    crate::cgroup::lemma_named(s.registry.names, name);
    match crate::cgroup::named(s.registry.names, name) {
        Some(id) => {
            crate::cgroup::lemma_position(s.registry.groups, id);
            let k = choose|k: int|
                0 <= k < s.registry.names.len() && #[trigger] s.registry.names[k] == (name, id);
            assert(s.registry.get(s.registry.names[k].1) is Some);
        },
        None => {},
    }
    if other != name {
        crate::cgroup::law_other_names_stand_for_the_same(s.registry, name, other, 1, None);
    }
}

/// A control group that gets another CPU set has that set and is otherwise unchanged, the
/// other groups stay as they are, and the scheduler is told of it.
pub proof fn law_a_cpuset_is_changed(
    s: SimView,
    r: ReplyView,
    event: usize,
    cpu: CpuId,
    i: int,
)
    requires
        cpu.0 < s.cpus.len(),
        s.registry.wf(),
    ensures
        ({
            let a = in_time(s, cpu);
            let e = s.scenario.cgroup_cpuset_change_events@[event as int];
            let g = s.registry.get_by_name(e.cgroup_name@);
            let (after, request) = s.perform(
                Work::Handle { kind: EventKind::CgroupCpusetChange { event, cpu } },
                r,
            );
            &&& g is None ==> (after, request) == (a, Request::Continue)
            &&& g is Some ==> {
                &&& request == (Request::CgroupInit { cgid: CgroupId(g->0.id) })
                &&& after.registry.groups.len() == s.registry.groups.len()
                &&& 0 <= i < s.registry.groups.len() && s.registry.groups[i].id == g->0.id ==> {
                    let h = after.registry.groups[i];
                    &&& h.cpuset == Some(e.new_cpuset@)
                    &&& h.id == g->0.id && h.level == g->0.level && h.parent == g->0.parent
                        && h.name == g->0.name
                }
                &&& 0 <= i < s.registry.groups.len() && s.registry.groups[i].id != g->0.id
                    ==> after.registry.groups[i] == s.registry.groups[i]
                &&& after.registry.names == s.registry.names && after.registry.next
                    == s.registry.next
                &&& after.work == s.work.push(
                    Work::CpusetInited {
                        cgid: CgroupId(g->0.id),
                        cpu: s.current_cpu,
                        at: a.cpu(s.current_cpu).local_clock,
                    },
                )
                &&& after == (SimView { work: after.work, registry: after.registry, ..a })
            }
        }),
{
    lemma_in_time(s, cpu);
    let e = s.scenario.cgroup_cpuset_change_events@[event as int];
    match crate::cgroup::named(s.registry.names, e.cgroup_name@) {
        Some(id) => {
            crate::cgroup::lemma_position(s.registry.groups, id);
            if 0 <= i < s.registry.groups.len() {
                crate::cgroup::lemma_position_of(s.registry.groups, i);
            }
        },
        None => {},
    }
}

} // verus!
