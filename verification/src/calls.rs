//! In which order a scheduler is called: what is asked of it before the first
//! event, and what after the last.

use vstd::prelude::*;

use crate::cgroup::preorder;
use crate::engine::{for_scheduler, gets_to, moves, step_to, takes_event, Exchange, RunView};
use crate::lifecycle::{in_order, law_tasks_start_in_order, start_groups, start_tasks};
use crate::progress::{
    grows, law_steps_go_forward, lemma_perform, lemma_task_at, lifecycle, ordinary, stacks,
};
use crate::scenario::Scenario;
use crate::sim_state::{task_at, work_ok, SimView};
use crate::state::{Agenda, BranchCounter, Request, SimTask, Work};
use crate::types::{CgroupId, CpuId, Pid, ROOT_CGID};

verus! {

/// The requests of a log, in order.
pub open spec fn requests(log: Seq<Exchange>) -> Seq<Request> {
    log.map_values(|e: Exchange| e.request)
}

/// The numbers of tasks, in order.
pub open spec fn pids_in(tasks: Seq<SimTask>) -> Seq<Pid> {
    tasks.map_values(|t: SimTask| t.pid)
}

/// The control groups are announced.
pub open spec fn group_calls(ids: Seq<u64>) -> Seq<Request> {
    ids.map_values(|id: u64| Request::CgroupInit { cgid: CgroupId(id) })
}

/// The limits of the control groups from `from` on are set.
pub open spec fn limit_calls(s: Scenario, from: nat) -> Seq<Request>
    decreases s.cgroups@.len() - from,
{
    if from >= s.cgroups@.len() {
        Seq::empty()
    } else {
        let d = s.cgroups@[from as int];
        match (d.bandwidth, start_groups(s).get_by_name(d.name@)) {
            (Some(bandwidth), Some(g)) => seq![
                Request::CgroupSetBandwidth { cgid: CgroupId(g.id), bandwidth },
            ] + limit_calls(s, from + 1),
            _ => limit_calls(s, from + 1),
        }
    }
}

/// The tasks from `from` on are announced, each with its CPU mask.
pub open spec fn task_calls(tasks: Seq<SimTask>, from: nat) -> Seq<Request>
    decreases tasks.len() - from,
{
    if from >= tasks.len() {
        Seq::empty()
    } else {
        let t = tasks[from as int];
        seq![
            Request::InitTask { pid: t.pid, cgid: t.cgid },
            Request::SetCpumask { pid: t.pid },
        ] + task_calls(tasks, from + 1)
    }
}

/// The CPUs from `from` on are announced as idle.
pub open spec fn idle_calls(from: nat, nr_cpus: nat) -> Seq<Request>
    decreases nr_cpus - from,
{
    if from >= nr_cpus {
        Seq::empty()
    } else {
        seq![Request::UpdateIdle { cpu: CpuId(from as u32), idle: true }] + idle_calls(
            from + 1,
            nr_cpus,
        )
    }
}

/// What is asked of a scheduler before the first event: it is loaded; then it hears
/// of the control groups from the root down, of their limits, of the tasks in order
/// of their numbers, each with its CPU mask, and of the idle CPUs.
pub open spec fn start_calls(s: Scenario) -> Seq<Request> {
    seq![Request::Init] + group_calls(preorder(start_groups(s).groups, ROOT_CGID))
        + limit_calls(s, 0) + task_calls(start_tasks(s, s.tasks@.len()), 0) + idle_calls(
        0,
        s.nr_cpus as nat,
    )
}

/// The tasks are dumped.
pub open spec fn dump_calls(pids: Seq<Pid>) -> Seq<Request> {
    pids.map_values(|pid: Pid| Request::DumpTask { pid })
}

/// The tasks are retired.
pub open spec fn exit_calls(pids: Seq<Pid>) -> Seq<Request> {
    pids.map_values(|pid: Pid| Request::ExitTask { pid })
}

/// The control groups are retired, the last first.
pub open spec fn group_exit_calls(ids: Seq<u64>) -> Seq<Request>
    decreases ids.len(),
{
    if ids.len() == 0 {
        Seq::empty()
    } else {
        seq![Request::CgroupExit { cgid: CgroupId(ids.last()) }] + group_exit_calls(
            ids.drop_last(),
        )
    }
}

/// What is asked of a scheduler after the last event: it dumps its state and the
/// tasks', retires the tasks, then the control groups in the reverse of their order,
/// and is unloaded.
pub open spec fn end_calls(pids: Seq<Pid>, ids: Seq<u64>) -> Seq<Request> {
    seq![Request::Dump] + dump_calls(pids) + exit_calls(pids) + group_exit_calls(ids)
        + seq![Request::Exit]
}

/// The requests that a piece of work of the start or the end makes.
spec fn planned_of(w: Work, tasks: Seq<SimTask>) -> Seq<Request> {
    match w {
        Work::Ask { request } => seq![request],
        Work::Call { request, .. } => seq![request],
        Work::GroupInit { cgid } => seq![Request::CgroupInit { cgid }],
        Work::TaskInit { pid, .. } => seq![
            Request::InitTask {
                pid,
                cgid: match task_at(tasks, pid) {
                    Some(i) => tasks[i].cgid,
                    None => None,
                },
            },
            Request::SetCpumask { pid },
        ],
        Work::IdleAtStart { cpu } => seq![Request::UpdateIdle { cpu, idle: true }],
        _ => Seq::empty(),
    }
}

/// The requests that work of the start or the end makes, the last piece first.
spec fn planned(work: Seq<Work>, tasks: Seq<SimTask>) -> Seq<Request>
    decreases work.len(),
{
    if work.len() == 0 {
        Seq::empty()
    } else {
        planned_of(work.last(), tasks) + planned(work.drop_last(), tasks)
    }
}

/// Whether a piece of work is one of the start.
spec fn starting(w: Work) -> bool {
    match w {
        Work::Ask { request } => for_scheduler(request),
        Work::Call { request, .. } => for_scheduler(request),
        Work::Returned { .. } => true,
        Work::ArmTimers => true,
        Work::Started => true,
        Work::GroupInit { .. } => true,
        Work::GroupInited { .. } => true,
        Work::TaskInit { .. } => true,
        Work::TaskInited { .. } => true,
        Work::IdleAtStart { .. } => true,
        Work::IdleAtStarted { .. } => true,
        _ => false,
    }
}

/// Whether a piece of work is one of the end.
spec fn ending(w: Work) -> bool {
    match w {
        Work::Call { request, .. } => for_scheduler(request),
        Work::Returned { .. } => true,
        _ => false,
    }
}

proof fn lemma_planned_push(work: Seq<Work>, w: Work, tasks: Seq<SimTask>)
    ensures
        planned(work.push(w), tasks) == planned_of(w, tasks) + planned(work, tasks),
{
    assert(work.push(w).drop_last() =~= work);
}

/// Whether work of the start was added that makes these requests, and nothing else
/// has changed.
#[verifier::opaque]
spec fn adds(a: SimView, b: SimView, calls: Seq<Request>, tasks: Seq<SimTask>) -> bool {
    &&& b == (SimView { work: b.work, ..a })
    &&& a.work.len() <= b.work.len()
    &&& forall|i: int| 0 <= i < a.work.len() ==> #[trigger] b.work[i] == a.work[i]
    &&& forall|i: int| a.work.len() <= i < b.work.len() ==> starting(#[trigger] b.work[i])
    &&& planned(b.work, tasks) == calls + planned(a.work, tasks)
}

proof fn lemma_adds_trans(
    a: SimView,
    b: SimView,
    c: SimView,
    first: Seq<Request>,
    then: Seq<Request>,
    tasks: Seq<SimTask>,
)
    requires
        adds(a, b, then, tasks),
        adds(b, c, first, tasks),
    ensures
        adds(a, c, first + then, tasks),
{
    reveal(adds);
    assert(planned(c.work, tasks) =~= first + then + planned(a.work, tasks));
    assert forall|i: int| a.work.len() <= i < c.work.len() implies starting(
        #[trigger] c.work[i],
    ) by {
        if i < b.work.len() {
            assert(starting(b.work[i]));
        }
    }
    assert forall|i: int| 0 <= i < a.work.len() implies #[trigger] c.work[i] == a.work[i] by {
        assert(b.work[i] == a.work[i]);
    }
}

/// What adding work leaves as it is, and what it says of the work.
proof fn lemma_adds(a: SimView, b: SimView, calls: Seq<Request>, tasks: Seq<SimTask>)
    requires
        adds(a, b, calls, tasks),
    ensures
        b == (SimView { work: b.work, ..a }),
        a.work.len() <= b.work.len(),
        forall|i: int| 0 <= i < a.work.len() ==> #[trigger] b.work[i] == a.work[i],
        forall|i: int| a.work.len() <= i < b.work.len() ==> starting(#[trigger] b.work[i]),
        planned(b.work, tasks) == calls + planned(a.work, tasks),
{
    reveal(adds);
}

proof fn lemma_add(a: SimView, w: Work, tasks: Seq<SimTask>)
    requires
        starting(w),
    ensures
        adds(a, a.then_do(w), planned_of(w, tasks), tasks),
{
    reveal(adds);
    lemma_planned_push(a.work, w, tasks);
}

proof fn lemma_add_nothing(a: SimView, tasks: Seq<SimTask>)
    ensures
        adds(a, a, Seq::empty(), tasks),
{
    reveal(adds);
    assert(Seq::<Request>::empty() + planned(a.work, tasks) =~= planned(a.work, tasks));
}

proof fn lemma_then_idle_at_start(s: SimView, from: nat, tasks: Seq<SimTask>)
    ensures
        adds(s, s.then_idle_at_start(from), idle_calls(from, s.cpus.len()), tasks),
    decreases s.cpus.len() - from,
{
    if from < s.cpus.len() {
        lemma_then_idle_at_start(s, from + 1, tasks);
        let w = Work::IdleAtStart { cpu: CpuId(from as u32) };
        let mid = s.then_idle_at_start(from + 1);
        lemma_add(mid, w, tasks);
        lemma_adds_trans(
            s,
            mid,
            mid.then_do(w),
            planned_of(w, tasks),
            idle_calls(from + 1, s.cpus.len()),
            tasks,
        );
    } else {
        lemma_add_nothing(s, tasks);
    }
}

/// A task is found where it stands.
proof fn lemma_task_found(tasks: Seq<SimTask>, i: int)
    requires
        in_order(tasks),
        0 <= i < tasks.len(),
    ensures
        task_at(tasks, tasks[i].pid) == Some(i),
{
    lemma_task_at(tasks, tasks[i].pid);
    let j = task_at(tasks, tasks[i].pid)->0;
    if j < i {
        assert(tasks[j].pid.0 < tasks[i].pid.0);
    } else if i < j {
        assert(tasks[i].pid.0 < tasks[j].pid.0);
    }
}

proof fn lemma_then_task_inits(s: SimView, from: nat)
    requires
        in_order(s.tasks),
    ensures
        adds(s, s.then_task_inits(from), task_calls(s.tasks, from), s.tasks),
    decreases s.tasks.len() - from,
{
    if from < s.tasks.len() {
        lemma_then_task_inits(s, from + 1);
        let t = s.tasks[from as int];
        let w = Work::TaskInit { pid: t.pid, mask: t.def };
        let mid = s.then_task_inits(from + 1);
        lemma_task_found(s.tasks, from as int);
        lemma_adds(s, mid, task_calls(s.tasks, from + 1), s.tasks);
        lemma_add(mid, w, s.tasks);
        assert(planned_of(w, s.tasks) =~= seq![
            Request::InitTask { pid: t.pid, cgid: t.cgid },
            Request::SetCpumask { pid: t.pid },
        ]);
        assert(s.then_task_inits(from) == mid.then_do(w));
        lemma_adds_trans(
            s,
            mid,
            mid.then_do(w),
            planned_of(w, s.tasks),
            task_calls(s.tasks, from + 1),
            s.tasks,
        );
    } else {
        lemma_add_nothing(s, s.tasks);
    }
}

proof fn lemma_then_bandwidths(s: SimView, from: nat, tasks: Seq<SimTask>)
    requires
        s.registry == start_groups(s.scenario),
    ensures
        adds(s, s.then_bandwidths(from), limit_calls(s.scenario, from), tasks),
    decreases s.scenario.cgroups@.len() - from,
{
    if from < s.scenario.cgroups@.len() {
        lemma_then_bandwidths(s, from + 1, tasks);
        let mid = s.then_bandwidths(from + 1);
        lemma_adds(s, mid, limit_calls(s.scenario, from + 1), tasks);
        let next = s.then_bandwidths(from);
        if next != mid {
            let w = next.work.last();
            assert(next == mid.then_do(w));
            lemma_add(mid, w, tasks);
            lemma_adds_trans(
                s,
                mid,
                next,
                planned_of(w, tasks),
                limit_calls(s.scenario, from + 1),
                tasks,
            );
        } else {
            let d = s.scenario.cgroups@[from as int];
            match (d.bandwidth, s.registry.get_by_name(d.name@)) {
                (Some(bandwidth), Some(g)) => {
                    assert(next.work.len() == mid.work.len() + 1);
                },
                _ => {},
            }
        }
    } else {
        lemma_add_nothing(s, tasks);
    }
}

proof fn lemma_then_group_inits(s: SimView, ids: Seq<u64>, tasks: Seq<SimTask>)
    ensures
        adds(s, s.then_group_inits(ids), group_calls(ids), tasks),
    decreases ids.len(),
{
    if ids.len() > 0 {
        lemma_then_group_inits(s, ids.skip(1), tasks);
        let mid = s.then_group_inits(ids.skip(1));
        let w = Work::GroupInit { cgid: CgroupId(ids[0]) };
        lemma_add(mid, w, tasks);
        lemma_adds_trans(
            s,
            mid,
            mid.then_do(w),
            planned_of(w, tasks),
            group_calls(ids.skip(1)),
            tasks,
        );
        assert(group_calls(ids) =~= planned_of(w, tasks) + group_calls(ids.skip(1)));
    } else {
        lemma_add_nothing(s, tasks);
        assert(group_calls(ids) =~= Seq::empty());
    }
}

/// The list of pieces of work that lies under those of the start.
spec fn first_work() -> Seq<Work> {
    seq![Work::NextEvent, Work::Seed { agenda: Agenda::Wakeups, index: 0 }]
}

/// What a simulation starts from, apart from what it has to do.
pub proof fn lemma_initial(s: Scenario, counter: BranchCounter, masks: Seq<Seq<char>>)
    ensures
        ({
            let i = SimView::initial(s, counter, masks);
            i == (SimView { work: i.work, ..SimView::blank(s, counter, masks) })
        }),
{
    let tasks = Seq::<SimTask>::empty();
    let a = SimView::blank(s, counter, masks).then_do(Work::NextEvent).then_do(
        Work::Seed { agenda: Agenda::Wakeups, index: 0 },
    ).then_do(Work::ArmTimers);
    lemma_then_idle_at_start(a, 0, tasks);
    let b = a.then_idle_at_start(0);
    lemma_adds(a, b, idle_calls(0, a.cpus.len()), tasks);
    lemma_then_task_inits_work(b, 0);
    let c = b.then_task_inits(0);
    lemma_then_bandwidths(c, 0, tasks);
    let d = c.then_bandwidths(0);
    lemma_adds(c, d, limit_calls(s, 0), tasks);
    let ids = preorder(start_groups(s).groups, ROOT_CGID);
    lemma_then_group_inits(d, ids, tasks);
    lemma_adds(d, d.then_group_inits(ids), group_calls(ids), tasks);
}

proof fn lemma_then_task_inits_work(s: SimView, from: nat)
    ensures
        s.then_task_inits(from) == (SimView { work: s.then_task_inits(from).work, ..s }),
    decreases s.tasks.len() - from,
{
    if from < s.tasks.len() {
        lemma_then_task_inits_work(s, from + 1);
    }
}

/// A simulation starts with the work of the start to do.
proof fn lemma_initial_work(s: Scenario, counter: BranchCounter, masks: Seq<Seq<char>>)
    requires
        s.tasks@.len() <= usize::MAX,
    ensures
        ({
            let i = SimView::initial(s, counter, masks);
            let tasks = start_tasks(s, s.tasks@.len());
            &&& i.tasks == tasks
            &&& i.work.len() >= 2
            &&& i.work.take(2) == first_work()
            &&& forall|k: int| 2 <= k < i.work.len() ==> starting(#[trigger] i.work[k])
            &&& planned(i.work, tasks) == start_calls(s)
        }),
{
    let tasks = start_tasks(s, s.tasks@.len());
    law_tasks_start_in_order(s, s.tasks@.len());
    let ids = preorder(start_groups(s).groups, ROOT_CGID);
    let o = SimView::blank(s, counter, masks).then_do(Work::NextEvent).then_do(
        Work::Seed { agenda: Agenda::Wakeups, index: 0 },
    );
    assert(o.work =~= first_work());
    assert(planned(o.work, tasks) =~= Seq::empty()) by {
        reveal_with_fuel(planned, 3);
    }
    let none = Seq::<Request>::empty();
    let a = o.then_do(Work::ArmTimers);
    lemma_add(o, Work::ArmTimers, tasks);
    let b = a.then_idle_at_start(0);
    let idle = idle_calls(0, s.nr_cpus as nat);
    assert(a.cpus.len() == s.nr_cpus);
    lemma_then_idle_at_start(a, 0, tasks);
    lemma_adds_trans(o, a, b, idle, none, tasks);
    lemma_adds(o, b, idle + none, tasks);
    let c = b.then_task_inits(0);
    let of_tasks = task_calls(tasks, 0);
    lemma_then_task_inits(b, 0);
    lemma_adds_trans(o, b, c, of_tasks, idle + none, tasks);
    lemma_adds(o, c, of_tasks + (idle + none), tasks);
    let d = c.then_bandwidths(0);
    let limits = limit_calls(s, 0);
    lemma_then_bandwidths(c, 0, tasks);
    lemma_adds_trans(o, c, d, limits, of_tasks + (idle + none), tasks);
    let e = d.then_group_inits(ids);
    let groups = group_calls(ids);
    lemma_then_group_inits(d, ids, tasks);
    lemma_adds_trans(o, d, e, groups, limits + (of_tasks + (idle + none)), tasks);
    let rest = groups + (limits + (of_tasks + (idle + none)));
    let f = e.then_do(Work::Started);
    lemma_add(e, Work::Started, tasks);
    lemma_adds_trans(o, e, f, none, rest, tasks);
    let ask = Work::Ask { request: Request::Init };
    let g = f.then_do(ask);
    lemma_add(f, ask, tasks);
    lemma_adds_trans(o, f, g, seq![Request::Init], none + rest, tasks);
    assert(g == SimView::initial(s, counter, masks));
    lemma_adds(o, g, seq![Request::Init] + (none + rest), tasks);
    assert(planned(g.work, tasks) =~= start_calls(s));
    assert(g.work.take(2) =~= first_work());
}

/// Whether a run is still about what comes before the first event.
spec fn in_start(s: Scenario, run: RunView) -> bool {
    let tasks = start_tasks(s, s.tasks@.len());
    &&& run.state.tasks == tasks
    &&& run.state.work.len() >= 2
    &&& run.state.work.take(2) == first_work()
    &&& forall|k: int| 2 <= k < run.state.work.len() ==> starting(#[trigger] run.state.work[k])
    &&& requests(run.asked) + planned(run.state.work, tasks) == start_calls(s)
}

/// Whether requests begin with those of the start, and from there up to the `k`-th
/// none belongs to the start or the end.
pub open spec fn goes_on(s: Scenario, all: Seq<Request>, k: int) -> bool {
    let n = start_calls(s).len() as int;
    &&& n <= k <= all.len()
    &&& all.take(n) == start_calls(s)
    &&& forall|i: int| n <= i < k ==> !lifecycle(#[trigger] all[i])
}

/// Whether a run is about its events.
spec fn in_middle(s: Scenario, run: RunView) -> bool {
    &&& pids_in(run.state.tasks) == pids_in(start_tasks(s, s.tasks@.len()))
    &&& goes_on(s, requests(run.asked), run.asked.len() as int)
    &&& run.state.work.len() > 0
    &&& run.state.work[0] is NextEvent || run.state.work[0] is Finish
    &&& forall|i: int| 1 <= i < run.state.work.len() ==> ordinary(#[trigger] run.state.work[i])
}

/// Whether a run is about what comes after the last event, since its `k`-th
/// request.
spec fn in_end(s: Scenario, run: RunView, k: int) -> bool {
    let all = requests(run.asked);
    let ids = preorder(run.state.registry.groups, ROOT_CGID);
    &&& pids_in(run.state.tasks) == pids_in(start_tasks(s, s.tasks@.len()))
    &&& goes_on(s, all, k)
    &&& forall|i: int| 0 <= i < run.state.work.len() ==> ending(#[trigger] run.state.work[i])
    &&& all.skip(k) + planned(run.state.work, run.state.tasks) == end_calls(
        pids_in(run.state.tasks),
        ids,
    )
}

/// Whether a run is somewhere on its course.
spec fn on_course(s: Scenario, run: RunView) -> bool {
    in_start(s, run) || in_middle(s, run) || exists|k: int| in_end(s, run, k)
}

proof fn lemma_requests_push(log: Seq<Exchange>, e: Exchange)
    ensures
        requests(log.push(e)) == requests(log).push(e.request),
{
    assert(requests(log.push(e)) =~= requests(log).push(e.request));
}

/// What a step asks is logged.
proof fn lemma_logged(a: RunView, b: RunView, request: Request)
    requires
        moves(a, b, request),
    ensures
        requests(b.asked) == if for_scheduler(request) {
            requests(a.asked).push(request)
        } else {
            requests(a.asked)
        },
{
    if for_scheduler(request) {
        lemma_requests_push(
            a.asked,
            Exchange { request, state: b.state, reply: b.asked.last().reply },
        );
    }
}

/// A piece of work that is left out makes its requests or leaves them to others.
proof fn lemma_planned_step(
    before: Seq<Work>,
    after: Seq<Work>,
    request: Request,
    tasks: Seq<SimTask>,
    all: Seq<Request>,
)
    requires
        planned(before, tasks) == if for_scheduler(request) {
            seq![request] + planned(after, tasks)
        } else {
            planned(after, tasks)
        },
    ensures
        all + planned(before, tasks) == if for_scheduler(request) {
            all.push(request) + planned(after, tasks)
        } else {
            all + planned(after, tasks)
        },
{
    if for_scheduler(request) {
        assert(all + planned(before, tasks) =~= all.push(request) + planned(after, tasks));
    }
}

/// A step of the start leaves a run at its start, or at its first event.
proof fn lemma_start_step(s: Scenario, a: RunView, b: RunView, request: Request)
    requires
        in_start(s, a),
        a.state.work.len() > 2,
        moves(a, b, request),
        !(request is Halt),
    ensures
        in_start(s, b),
{
    reveal(step_to);
    let tasks = start_tasks(s, s.tasks@.len());
    let before = a.state.work;
    let rest = before.drop_last();
    let w = before.last();
    let popped = SimView { work: rest, ..a.readied(b.drawn) };
    assert(starting(before[before.len() - 1]));
    assert((b.state, request) == popped.perform(w, a.reply));
    let after = b.state.work;
    assert(rest.take(2) =~= before.take(2));
    assert forall|k: int| 2 <= k < rest.len() implies starting(#[trigger] rest[k]) by {
        assert(before[k] == rest[k]);
    }
    if let Work::ArmTimers = w {
        crate::progress::lemma_timers_sent(popped, crate::state::MAX_BPF_TIMERS as nat);
        lemma_timers_keep_tasks(popped, crate::state::MAX_BPF_TIMERS as nat);
    }
    match w {
        Work::Ask { request: asked } => {
            assert(after == rest);
        },
        Work::Call { request: asked, cpu, charge, note } => {
            let x = Work::Returned { cpu, at: popped.cpu(cpu).local_clock, charge, note };
            assert(after == rest.push(x));
            lemma_planned_push(rest, x, tasks);
        },
        Work::GroupInit { cgid } => {
            let x = Work::GroupInited { cgid, at: popped.cpu(CpuId(0)).local_clock };
            assert(after == rest.push(x));
            lemma_planned_push(rest, x, tasks);
        },
        Work::IdleAtStart { cpu } => {
            let x = Work::IdleAtStarted { cpu };
            assert(after == rest.push(x));
            lemma_planned_push(rest, x, tasks);
        },
        Work::TaskInit { pid, mask } => {
            let x = Work::Call {
                request: Request::SetCpumask { pid },
                cpu: CpuId(0),
                charge: Some(CpuId(0)),
                note: Some(crate::trace::TraceKind::SetCpumask { pid, mask }),
            };
            let y = Work::TaskInited { pid, at: popped.cpu(CpuId(0)).local_clock };
            assert(after == rest.push(x).push(y));
            lemma_planned_push(rest, x, tasks);
            lemma_planned_push(rest.push(x), y, tasks);
            assert(planned(before, tasks) =~= seq![request] + planned(after, tasks));
        },
        _ => {
            assert(after == rest);
        },
    }
    assert(planned(before, tasks) =~= if for_scheduler(request) {
        seq![request] + planned(after, tasks)
    } else {
        planned(after, tasks)
    });
    lemma_planned_step(before, after, request, tasks, requests(a.asked));
    lemma_logged(a, b, request);
    assert(after.take(2) =~= rest.take(2));
    assert(b.state.tasks == tasks);
}

proof fn lemma_timers_keep_tasks(s: SimView, n: nat)
    ensures
        crate::sim_state::timers_sent(s, n).tasks == s.tasks,
    decreases n,
{
    if n > 0 {
        lemma_timers_keep_tasks(s, (n - 1) as nat);
    }
}

/// At the end of its start a run is about its events.
proof fn lemma_start_over(s: Scenario, run: RunView)
    requires
        in_start(s, run),
        run.state.work.len() == 2,
    ensures
        in_middle(s, run),
{
    let tasks = start_tasks(s, s.tasks@.len());
    let work = run.state.work;
    assert(work =~= first_work());
    reveal_with_fuel(planned, 3);
    assert(planned(work, tasks) =~= Seq::empty());
    assert(requests(run.asked) =~= start_calls(s));
    let all = requests(run.asked);
    assert(all.take(all.len() as int) =~= all);
}

/// No step changes which tasks there are.
proof fn lemma_same_pids(a: RunView, b: RunView, request: Request)
    requires
        moves(a, b, request),
        !(a.state.work.last() is IdleAtStart),
        !(a.state.work.last() is IdleAtStarted),
    ensures
        pids_in(b.state.tasks) == pids_in(a.state.tasks),
{
    law_steps_go_forward(a.readied(b.drawn), a.reply, b.state, request);
    assert(pids_in(b.state.tasks) =~= pids_in(a.state.tasks)) by {
        assert forall|i: int| 0 <= i < a.state.tasks.len() implies #[trigger] pids_in(
            b.state.tasks,
        )[i] == pids_in(a.state.tasks)[i] by {
            assert(b.state.tasks[i].pid == a.state.tasks[i].pid);
        }
    }
}

proof fn lemma_goes_on_push(s: Scenario, all: Seq<Request>, request: Request)
    requires
        goes_on(s, all, all.len() as int),
        !lifecycle(request),
    ensures
        goes_on(s, all.push(request), (all.len() + 1) as int),
{
    let n = start_calls(s).len() as int;
    assert(all.push(request).take(n) =~= all.take(n));
}

/// A step about an event leaves a run about its events.
proof fn lemma_middle_step(s: Scenario, a: RunView, b: RunView, request: Request)
    requires
        in_middle(s, a),
        a.state.work.len() > 1 || a.state.work[0] is NextEvent,
        moves(a, b, request),
    ensures
        in_middle(s, b),
{
    reveal(step_to);
    let w = a.state.work.last();
    let rest = a.state.work.drop_last();
    let popped = SimView { work: rest, ..a.readied(b.drawn) };
    assert(work_ok(a.state.work[a.state.work.len() - 1], a.state.cpus.len(), a.state.scenario));
    assert forall|i: int| 0 <= i < popped.work.len() implies work_ok(
        #[trigger] popped.work[i],
        popped.cpus.len(),
        popped.scenario,
    ) by {
        assert(popped.work[i] == a.state.work[i]);
    }
    if a.state.work.len() == 1 {
        assert(w is NextEvent);
        assert(takes_event(popped, b.state));
        assert(rest =~= Seq::empty());
        assert(!lifecycle(request));
    } else {
        assert(ordinary(a.state.work[a.state.work.len() - 1]));
        if w is IdleAtStarted {
            assert(b.state.work == rest);
        } else {
            lemma_perform(popped, w, a.reply);
            assert(stacks(popped, (b.state, request)));
        }
        if b.state.work != seq![Work::Finish] {
            assert(grows(rest, b.state.work));
            assert forall|i: int| 1 <= i < b.state.work.len() implies ordinary(
                #[trigger] b.state.work[i],
            ) by {
                if i < rest.len() {
                    assert(ordinary(a.state.work[i]));
                }
            }
        }
    }
    if w is IdleAtStarted {
        assert(b.state.tasks == a.state.tasks);
    } else {
        lemma_same_pids(a, b, request);
    }
    lemma_logged(a, b, request);
    if for_scheduler(request) {
        lemma_goes_on_push(s, requests(a.asked), request);
    }
}

/// The requests of work that retires control groups.
proof fn lemma_then_group_exits(s: SimView, cpu: CpuId, ids: Seq<u64>, tasks: Seq<SimTask>)
    ensures
        ends(s, s.then_group_exits(cpu, ids), group_exit_calls(ids), tasks),
    decreases ids.len(),
{
    if ids.len() > 0 {
        let mid = s.then_group_exits(cpu, ids.drop_last());
        lemma_then_group_exits(s, cpu, ids.drop_last(), tasks);
        let next = s.then_group_exits(cpu, ids);
        lemma_ends_more(s, mid, next.work.last(), group_exit_calls(ids.drop_last()), tasks);
    } else {
        lemma_ends_nothing(s, tasks);
    }
}

/// Whether work of the end was added that makes these requests, and nothing else
/// has changed.
spec fn ends(a: SimView, b: SimView, calls: Seq<Request>, tasks: Seq<SimTask>) -> bool {
    &&& b == (SimView { work: b.work, ..a })
    &&& (forall|i: int| 0 <= i < a.work.len() ==> ending(#[trigger] a.work[i])) ==> forall|i: int|
        0 <= i < b.work.len() ==> ending(#[trigger] b.work[i])
    &&& planned(b.work, tasks) == calls + planned(a.work, tasks)
}

proof fn lemma_ends_nothing(a: SimView, tasks: Seq<SimTask>)
    ensures
        ends(a, a, Seq::empty(), tasks),
{
    assert(Seq::<Request>::empty() + planned(a.work, tasks) =~= planned(a.work, tasks));
}

proof fn lemma_ends_more(
    a: SimView,
    b: SimView,
    w: Work,
    calls: Seq<Request>,
    tasks: Seq<SimTask>,
)
    requires
        ends(a, b, calls, tasks),
        ending(w),
    ensures
        ends(a, b.then_do(w), planned_of(w, tasks) + calls, tasks),
{
    lemma_planned_push(b.work, w, tasks);
    assert(planned(b.then_do(w).work, tasks) =~= planned_of(w, tasks) + calls + planned(
        a.work,
        tasks,
    ));
}

proof fn lemma_then_task_exits(s: SimView, cpu: CpuId, from: nat)
    requires
        from <= s.tasks.len(),
    ensures
        ends(
            s,
            s.then_task_exits(cpu, from),
            exit_calls(pids_in(s.tasks).skip(from as int)),
            s.tasks,
        ),
    decreases s.tasks.len() - from,
{
    let pids = pids_in(s.tasks);
    if from < s.tasks.len() {
        let mid = s.then_task_exits(cpu, from + 1);
        lemma_then_task_exits(s, cpu, from + 1);
        let next = s.then_task_exits(cpu, from);
        let calls = exit_calls(pids.skip((from + 1) as int));
        lemma_ends_more(s, mid, next.work.last(), calls, s.tasks);
        assert(exit_calls(pids.skip(from as int)) =~= planned_of(next.work.last(), s.tasks)
            + calls);
    } else {
        lemma_ends_nothing(s, s.tasks);
        assert(exit_calls(pids.skip(from as int)) =~= Seq::empty());
    }
}

proof fn lemma_then_task_dumps(s: SimView, cpu: CpuId, from: nat)
    requires
        from <= s.tasks.len(),
    ensures
        ends(
            s,
            s.then_task_dumps(cpu, from),
            dump_calls(pids_in(s.tasks).skip(from as int)),
            s.tasks,
        ),
    decreases s.tasks.len() - from,
{
    let pids = pids_in(s.tasks);
    if from < s.tasks.len() {
        let mid = s.then_task_dumps(cpu, from + 1);
        lemma_then_task_dumps(s, cpu, from + 1);
        let next = s.then_task_dumps(cpu, from);
        let calls = dump_calls(pids.skip((from + 1) as int));
        lemma_ends_more(s, mid, next.work.last(), calls, s.tasks);
        assert(dump_calls(pids.skip(from as int)) =~= planned_of(next.work.last(), s.tasks)
            + calls);
    } else {
        lemma_ends_nothing(s, s.tasks);
        assert(dump_calls(pids.skip(from as int)) =~= Seq::empty());
    }
}

proof fn lemma_with_end_records(s: SimView, n: nat)
    ensures
        s.with_end_records(n) == (SimView { trace: s.with_end_records(n).trace, ..s }),
    decreases n,
{
    if n > 0 {
        lemma_with_end_records(s, (n - 1) as nat);
    }
}

/// Winding up plans the requests of the end.
proof fn lemma_finish(s: SimView)
    requires
        s.work.len() == 0,
    ensures
        ({
            let f = s.finish().0;
            let ids = preorder(s.registry.groups, ROOT_CGID);
            &&& f.tasks == s.tasks
            &&& f.registry == s.registry
            &&& forall|i: int| 0 <= i < f.work.len() ==> ending(#[trigger] f.work[i])
            &&& planned(f.work, f.tasks) == end_calls(pids_in(s.tasks), ids)
        }),
{
    let cpu = s.current_cpu;
    let tasks = s.tasks;
    let pids = pids_in(tasks);
    let ids = preorder(s.registry.groups, ROOT_CGID);
    let none = Seq::<Request>::empty();
    lemma_with_end_records(s, s.cpus.len());
    let a = s.with_end_records(s.cpus.len());
    assert(a.work =~= Seq::empty());
    assert(planned(a.work, tasks) =~= none);
    let b = a.then_final_call(cpu, Request::Exit, None);
    lemma_ends_nothing(a, tasks);
    lemma_ends_more(a, a, b.work.last(), none, tasks);
    let c = b.then_group_exits(cpu, ids);
    lemma_then_group_exits(b, cpu, ids, tasks);
    let d = c.then_task_exits(cpu, 0);
    lemma_then_task_exits(c, cpu, 0);
    assert(pids.skip(0) =~= pids);
    let e = d.then_task_dumps(cpu, 0);
    lemma_then_task_dumps(d, cpu, 0);
    let f = e.then_final_call(cpu, Request::Dump, None);
    lemma_ends_nothing(e, tasks);
    lemma_ends_more(e, e, f.work.last(), none, tasks);
    assert(f == s.finish().0);
    assert(planned(f.work, tasks) =~= end_calls(pids, ids));
}

/// Winding up begins the end.
proof fn lemma_end_begins(s: Scenario, a: RunView, b: RunView, request: Request)
    requires
        in_middle(s, a),
        a.state.work.len() == 1,
        a.state.work[0] is Finish,
        moves(a, b, request),
    ensures
        in_end(s, b, a.asked.len() as int),
{
    reveal(step_to);
    let popped = SimView { work: a.state.work.drop_last(), ..a.readied(b.drawn) };
    assert(popped.work =~= Seq::empty());
    assert((b.state, request) == popped.finish());
    lemma_finish(popped);
    lemma_logged(a, b, request);
    let all = requests(b.asked);
    let k = a.asked.len() as int;
    assert(all.skip(k) + planned(b.state.work, b.state.tasks) =~= planned(
        b.state.work,
        b.state.tasks,
    ));
}

/// A step of the end leaves a run at its end.
proof fn lemma_end_step(s: Scenario, a: RunView, b: RunView, request: Request, k: int)
    requires
        in_end(s, a, k),
        moves(a, b, request),
    ensures
        in_end(s, b, k),
{
    reveal(step_to);
    let tasks = a.state.tasks;
    let before = a.state.work;
    let rest = before.drop_last();
    let w = before.last();
    let popped = SimView { work: rest, ..a.readied(b.drawn) };
    assert(ending(before[before.len() - 1]));
    assert((b.state, request) == popped.perform(w, a.reply));
    let after = b.state.work;
    assert forall|i: int| 0 <= i < rest.len() implies ending(#[trigger] rest[i]) by {
        assert(before[i] == rest[i]);
    }
    match w {
        Work::Call { request: asked, cpu, charge, note } => {
            let x = Work::Returned { cpu, at: popped.cpu(cpu).local_clock, charge, note };
            assert(after == rest.push(x));
            lemma_planned_push(rest, x, tasks);
        },
        _ => {
            assert(after == rest);
        },
    }
    assert(planned(before, tasks) =~= if for_scheduler(request) {
        seq![request] + planned(after, tasks)
    } else {
        planned(after, tasks)
    });
    let all = requests(a.asked);
    lemma_planned_step(before, after, request, tasks, all.skip(k));
    lemma_logged(a, b, request);
    let more = requests(b.asked);
    let n = start_calls(s).len() as int;
    assert(more.take(n) =~= all.take(n));
    assert forall|i: int| n <= i < k implies !lifecycle(#[trigger] more[i]) by {
        assert(more[i] == all[i]);
    }
    if for_scheduler(request) {
        assert(more.skip(k) =~= all.skip(k).push(request));
    }
    assert(b.state.tasks == tasks);
    assert(b.state.registry == a.state.registry);
}

/// A run never leaves its course.
proof fn lemma_on_course(
    s: Scenario,
    counter: BranchCounter,
    masks: Seq<Seq<char>>,
    at: RunView,
    n: nat,
)
    requires
        s.tasks@.len() <= usize::MAX,
        gets_to(RunView::start(s, counter, masks), at, n),
    ensures
        on_course(s, at),
    decreases n,
{
    let from = RunView::start(s, counter, masks);
    if n == 0 {
        lemma_initial_work(s, counter, masks);
        assert(requests(from.asked) =~= Seq::empty());
        let tasks = start_tasks(s, s.tasks@.len());
        assert(requests(from.asked) + planned(from.state.work, tasks) =~= start_calls(s));
    } else {
        let (a, request) = choose|mid: RunView, request: Request|
            gets_to(from, mid, (n - 1) as nat) && !(request is Halt) && #[trigger] moves(
                mid,
                at,
                request,
            );
        lemma_on_course(s, counter, masks, a, (n - 1) as nat);
        if in_start(s, a) && a.state.work.len() > 2 {
            lemma_start_step(s, a, at, request);
        } else if exists|k: int| in_end(s, a, k) {
            let k = choose|k: int| in_end(s, a, k);
            lemma_end_step(s, a, at, request, k);
        } else {
            if in_start(s, a) {
                lemma_start_over(s, a);
            }
            if a.state.work.len() == 1 && a.state.work[0] is Finish {
                lemma_end_begins(s, a, at, request);
            } else {
                lemma_middle_step(s, a, at, request);
            }
        }
    }
}

/// Whether requests are those of the start, others that belong neither to the start
/// nor to the end, and those of the end.
pub open spec fn three_parts(
    all: Seq<Request>,
    first: Seq<Request>,
    middle: Seq<Request>,
    last: Seq<Request>,
) -> bool {
    &&& all == first + middle + last
    &&& forall|i: int| 0 <= i < middle.len() ==> !lifecycle(#[trigger] middle[i])
}

/// A scheduler is called in order. A run that has come to its end has asked first
/// what belongs to the start: it loaded the scheduler and announced the control
/// groups, their limits, the tasks in order of their numbers, each with its mask, and
/// the idle CPUs. It has asked last what belongs to the end: dumps, the tasks'
/// exits in order of their numbers, the control groups' in the reverse of their
/// order, and the unloading. In between it asked neither.
pub proof fn law_the_scheduler_is_called_in_order(
    s: Scenario,
    counter: BranchCounter,
    masks: Seq<Seq<char>>,
    end: RunView,
    n: nat,
)
    requires
        s.tasks@.len() <= usize::MAX,
        gets_to(RunView::start(s, counter, masks), end, n),
        end.state.work.len() == 0,
    ensures
        exists|middle: Seq<Request>| #[trigger]
            three_parts(
                requests(end.asked),
                start_calls(s),
                middle,
                end_calls(
                    pids_in(start_tasks(s, s.tasks@.len())),
                    preorder(end.state.registry.groups, ROOT_CGID),
                ),
            ),
{
    lemma_on_course(s, counter, masks, end, n);
    let k = choose|k: int| in_end(s, end, k);
    let all = requests(end.asked);
    let m = start_calls(s).len() as int;
    let middle = all.subrange(m, k);
    let last = end_calls(
        pids_in(start_tasks(s, s.tasks@.len())),
        preorder(end.state.registry.groups, ROOT_CGID),
    );
    assert(planned(end.state.work, end.state.tasks) =~= Seq::empty());
    assert(all.skip(k) =~= last);
    assert(all =~= all.take(m) + middle + all.skip(k));
    assert forall|i: int| 0 <= i < middle.len() implies !lifecycle(#[trigger] middle[i]) by {
        assert(middle[i] == all[m + i]);
    }
    assert(three_parts(all, start_calls(s), middle, last));
}

/// Whatever becomes of a run, it asks what belongs to the start in order: what it has
/// asked so far is a part of it, or begins with it.
pub proof fn law_runs_begin_in_order(
    s: Scenario,
    counter: BranchCounter,
    masks: Seq<Seq<char>>,
    at: RunView,
    n: nat,
)
    requires
        s.tasks@.len() <= usize::MAX,
        gets_to(RunView::start(s, counter, masks), at, n),
    ensures
        ({
            let all = requests(at.asked);
            let first = start_calls(s);
            if all.len() <= first.len() {
                all == first.take(all.len() as int)
            } else {
                all.take(first.len() as int) == first
            }
        }),
{
    lemma_on_course(s, counter, masks, at, n);
    let all = requests(at.asked);
    let first = start_calls(s);
    if in_start(s, at) {
        assert(first.take(all.len() as int) =~= all);
        if all.len() == first.len() {
            assert(first.take(all.len() as int) =~= first);
        }
    } else if all.len() == first.len() {
        assert(all.take(all.len() as int) =~= all);
        assert(first.take(all.len() as int) =~= first);
    }
}

} // verus!
