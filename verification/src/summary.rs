//! What is said at the end of a run.

use vstd::prelude::*;

use crate::state::{RbcStats, SimTask, TaskState};
use crate::text::{dec, decimal, plus};
use crate::trace::{TraceEvent, TraceKind};
use crate::types::TimeNs;

verus! {

/// The counts of a run.
#[derive(Clone, Copy, Debug, PartialEq, Eq, Structural)]
pub struct RunSummary {
    pub total_tasks: u64,
    pub tasks_alive: u64,
    pub tasks_runnable: u64,
    /// The most tasks that ran at once.
    pub max_running: u64,
    pub total_slices: u64,
    pub completed: u64,
    /// When the last task completed, if all did.
    pub all_completed_at: Option<TimeNs>,
}

/// How many of the first `n` tasks are left and how many of these want to run.
pub open spec fn task_counts(tasks: Seq<SimTask>, n: nat) -> (nat, nat)
    decreases n,
{
    if n == 0 {
        (0, 0)
    } else {
        let (alive, runnable) = task_counts(tasks, (n - 1) as nat);
        let state = tasks[n - 1].state;
        (
            if state is Exited {
                alive
            } else {
                alive + 1
            },
            if state is Runnable || state is Running {
                runnable + 1
            } else {
                runnable
            },
        )
    }
}

/// What the events so far add up to.
#[verifier::ext_equal]
pub struct Tally {
    pub running: nat,
    pub max_running: nat,
    pub slices: nat,
    pub completed: nat,
    pub all_completed_at: Option<TimeNs>,
}

/// One task fewer, if there is one.
pub open spec fn one_fewer(n: nat) -> nat {
    if n > 0 {
        (n - 1) as nat
    } else {
        0
    }
}

/// What one event adds.
pub open spec fn tallied(t: Tally, e: TraceEvent, total_tasks: nat) -> Tally {
    match e.kind {
        TraceKind::TaskScheduled { .. } => Tally {
            running: t.running + 1,
            max_running: if t.running + 1 > t.max_running {
                t.running + 1
            } else {
                t.max_running
            },
            slices: t.slices + 1,
            ..t
        },
        TraceKind::TaskPreempted { .. } => Tally { running: one_fewer(t.running), ..t },
        TraceKind::TaskSlept { .. } => Tally { running: one_fewer(t.running), ..t },
        TraceKind::TaskYielded { .. } => Tally { running: one_fewer(t.running), ..t },
        TraceKind::SimulationEnd { .. } => Tally { running: one_fewer(t.running), ..t },
        TraceKind::TaskCompleted { .. } => Tally {
            running: one_fewer(t.running),
            completed: t.completed + 1,
            all_completed_at: if t.completed + 1 == total_tasks {
                Some(e.time_ns)
            } else {
                t.all_completed_at
            },
            ..t
        },
        _ => t,
    }
}

/// What the first `n` events add up to.
pub open spec fn tally(events: Seq<TraceEvent>, total_tasks: nat, n: nat) -> Tally
    decreases n,
{
    if n == 0 {
        Tally { running: 0, max_running: 0, slices: 0, completed: 0, all_completed_at: None }
    } else {
        tallied(tally(events, total_tasks, (n - 1) as nat), events[n - 1], total_tasks)
    }
}

/// At no time ran more tasks than the summary says, and no more than slices
/// were given.
pub proof fn law_no_more_ran_than_the_summary_says(
    events: Seq<TraceEvent>,
    total_tasks: nat,
    k: nat,
    n: nat,
)
    requires
        k <= n <= events.len(),
    ensures
        tally(events, total_tasks, k).running <= tally(events, total_tasks, n).max_running,
        tally(events, total_tasks, n).max_running <= tally(events, total_tasks, n).slices,
    decreases n,
{
    if n > 0 {
        let m = (n - 1) as nat;
        law_no_more_ran_than_the_summary_says(events, total_tasks, m, m);
        if k < n {
            law_no_more_ran_than_the_summary_says(events, total_tasks, k, m);
        }
    }
}

/// How many of the first `n` events are of a sort.
pub open spec fn how_many(
    events: Seq<TraceEvent>,
    sort: spec_fn(TraceEvent) -> bool,
    n: nat,
) -> nat
    decreases n,
{
    if n == 0 {
        0
    } else {
        how_many(events, sort, (n - 1) as nat) + if sort(events[n - 1]) {
            1nat
        } else {
            0nat
        }
    }
}

/// Events that put a task on a CPU.
pub open spec fn starts() -> spec_fn(TraceEvent) -> bool {
    |e: TraceEvent| e.kind is TaskScheduled
}

/// Events that take a task off its CPU.
pub open spec fn stops() -> spec_fn(TraceEvent) -> bool {
    |e: TraceEvent|
        e.kind is TaskPreempted || e.kind is TaskYielded || e.kind is TaskSlept
            || e.kind is TaskCompleted || e.kind is SimulationEnd
}

/// Events that end a task.
pub open spec fn ends() -> spec_fn(TraceEvent) -> bool {
    |e: TraceEvent| e.kind is TaskCompleted
}

/// Starts less stops in a stretch of the record.
pub open spec fn gain(events: Seq<TraceEvent>, from: nat, to: nat) -> int {
    (how_many(events, starts(), to) - how_many(events, starts(), from)) - (how_many(
        events,
        stops(),
        to,
    ) - how_many(events, stops(), from))
}

/// What runs at a moment is what started and did not stop since some earlier moment,
/// and no other moment gives more.
proof fn lemma_running(events: Seq<TraceEvent>, total_tasks: nat, n: nat)
    requires
        n <= events.len(),
    ensures
        forall|j: nat|
            j <= n ==> #[trigger] gain(events, j, n) <= tally(events, total_tasks, n).running,
        exists|j: nat|
            j <= n && #[trigger] gain(events, j, n) == tally(events, total_tasks, n).running,
    decreases n,
{
    assert(gain(events, n, n) == 0);
    if n > 0 {
        let m = (n - 1) as nat;
        lemma_running(events, total_tasks, m);
        let w = choose|j: nat|
            j <= m && #[trigger] gain(events, j, m) == tally(events, total_tasks, m).running;
        let d = gain(events, m, n);
        assert(gain(events, w, n) == gain(events, w, m) + d);
        assert forall|j: nat| j <= n implies #[trigger] gain(events, j, n) <= tally(
            events,
            total_tasks,
            n,
        ).running by {
            if j <= m {
                assert(gain(events, j, n) == gain(events, j, m) + d);
            }
        }
    }
}

/// The most tasks that ran at once is the most by which starts exceed stops in any
/// stretch of the record; in a record whose stops follow their starts that is the most
/// at any moment. Some stretch reaches it.
pub proof fn law_most_running_is_starts_less_stops(
    events: Seq<TraceEvent>,
    total_tasks: nat,
    n: nat,
)
    requires
        n <= events.len(),
    ensures
        forall|j: nat, k: nat|
            j <= k <= n ==> #[trigger] gain(events, j, k) <= tally(
                events,
                total_tasks,
                n,
            ).max_running,
        exists|j: nat, k: nat|
            j <= k <= n && #[trigger] gain(events, j, k) == tally(
                events,
                total_tasks,
                n,
            ).max_running,
    decreases n,
{
    assert(gain(events, n, n) == 0);
    if n > 0 {
        let m = (n - 1) as nat;
        law_most_running_is_starts_less_stops(events, total_tasks, m);
        lemma_running(events, total_tasks, n);
        lemma_running(events, total_tasks, m);
        law_no_more_ran_than_the_summary_says(events, total_tasks, n, n);
        let before = tally(events, total_tasks, m);
        let after = tally(events, total_tasks, n);
        assert forall|j: nat, k: nat| j <= k <= n implies #[trigger] gain(events, j, k)
            <= after.max_running by {
            if k == n {
                assert(gain(events, j, n) <= after.running);
            } else {
                assert(gain(events, j, k) <= before.max_running);
            }
        }
        if after.max_running == before.max_running {
            let (j, k) = choose|j: nat, k: nat|
                j <= k <= m && #[trigger] gain(events, j, k) == before.max_running;
            assert(gain(events, j, k) == after.max_running);
        } else {
            let j = choose|j: nat|
                j <= n && #[trigger] gain(events, j, n) == after.running;
            assert(gain(events, j, n) == after.max_running);
        }
    } else {
        assert(gain(events, 0, 0) == 0);
    }
}

/// Slices are starts and completions are counted one by one. All tasks have completed
/// when as many have as there are, and that is when the last of them did.
pub proof fn law_slices_and_completions_are_counted(
    events: Seq<TraceEvent>,
    total_tasks: nat,
    n: nat,
)
    requires
        n <= events.len(),
    ensures
        ({
            let t = tally(events, total_tasks, n);
            &&& t.slices == how_many(events, starts(), n)
            &&& t.completed == how_many(events, ends(), n)
            &&& t.all_completed_at is Some <==> 0 < total_tasks <= t.completed
            &&& match t.all_completed_at {
                Some(at) => exists|k: int|
                    0 <= k < n && #[trigger] events[k].kind is TaskCompleted && events[k].time_ns
                        == at && how_many(events, ends(), (k + 1) as nat) == total_tasks,
                None => true,
            }
        }),
    decreases n,
{
    if n > 0 {
        let m = (n - 1) as nat;
        law_slices_and_completions_are_counted(events, total_tasks, m);
        let before = tally(events, total_tasks, m);
        let after = tally(events, total_tasks, n);
        if events[m as int].kind is TaskCompleted && before.completed + 1 == total_tasks {
            assert(events[m as int].time_ns == after.all_completed_at->0);
            assert(how_many(events, ends(), (m + 1) as nat) == total_tasks);
        } else if after.all_completed_at is Some {
            let k = choose|k: int|
                0 <= k < m && #[trigger] events[k].kind is TaskCompleted && events[k].time_ns
                    == before.all_completed_at->0 && how_many(events, ends(), (k + 1) as nat)
                    == total_tasks;
            assert(events[k].kind is TaskCompleted);
        }
    }
}

/// Events of a sort on the CPUs below a number.
pub open spec fn on_cpus(
    sort: spec_fn(TraceEvent) -> bool,
    n: nat,
) -> spec_fn(TraceEvent) -> bool {
    |e: TraceEvent| sort(e) && e.cpu.0 < n
}

/// Events of a sort on one CPU.
pub open spec fn on_cpu(
    sort: spec_fn(TraceEvent) -> bool,
    cpu: nat,
) -> spec_fn(TraceEvent) -> bool {
    |e: TraceEvent| sort(e) && e.cpu.0 == cpu
}

/// Starts less stops of one CPU in a stretch of the record.
pub open spec fn gain_on(events: Seq<TraceEvent>, cpu: nat, from: nat, to: nat) -> int {
    (how_many(events, on_cpu(starts(), cpu), to) - how_many(events, on_cpu(starts(), cpu), from))
        - (how_many(events, on_cpu(stops(), cpu), to) - how_many(
        events,
        on_cpu(stops(), cpu),
        from,
    ))
}

proof fn lemma_one_more_cpu(
    events: Seq<TraceEvent>,
    sort: spec_fn(TraceEvent) -> bool,
    cpus: nat,
    n: nat,
)
    ensures
        how_many(events, on_cpus(sort, cpus + 1), n) == how_many(events, on_cpus(sort, cpus), n)
            + how_many(events, on_cpu(sort, cpus), n),
        how_many(events, on_cpus(sort, 0), n) == 0,
    decreases n,
{
    if n > 0 {
        lemma_one_more_cpu(events, sort, cpus, (n - 1) as nat);
    }
}

proof fn lemma_all_cpus(
    events: Seq<TraceEvent>,
    sort: spec_fn(TraceEvent) -> bool,
    cpus: nat,
    n: nat,
)
    requires
        n <= events.len(),
        forall|i: int| 0 <= i < events.len() ==> (#[trigger] events[i]).cpu.0 < cpus,
    ensures
        how_many(events, on_cpus(sort, cpus), n) == how_many(events, sort, n),
    decreases n,
{
    if n > 0 {
        lemma_all_cpus(events, sort, cpus, (n - 1) as nat);
        assert(events[n - 1].cpu.0 < cpus);
    }
}

proof fn lemma_gain_by_cpu(events: Seq<TraceEvent>, cpus: nat, from: nat, to: nat)
    requires
        forall|c: nat| c < cpus ==> #[trigger] gain_on(events, c, from, to) <= 1,
    ensures
        (how_many(events, on_cpus(starts(), cpus), to) - how_many(
            events,
            on_cpus(starts(), cpus),
            from,
        )) - (how_many(events, on_cpus(stops(), cpus), to) - how_many(
            events,
            on_cpus(stops(), cpus),
            from,
        )) <= cpus,
    decreases cpus,
{
    lemma_one_more_cpu(events, starts(), 0, to);
    lemma_one_more_cpu(events, starts(), 0, from);
    lemma_one_more_cpu(events, stops(), 0, to);
    lemma_one_more_cpu(events, stops(), 0, from);
    if cpus > 0 {
        let c = (cpus - 1) as nat;
        lemma_gain_by_cpu(events, c, from, to);
        assert(gain_on(events, c, from, to) <= 1);
        lemma_one_more_cpu(events, starts(), c, to);
        lemma_one_more_cpu(events, starts(), c, from);
        lemma_one_more_cpu(events, stops(), c, to);
        lemma_one_more_cpu(events, stops(), c, from);
    }
}

/// Where no CPU starts a second task before it stopped the first, no more tasks ran at
/// once than there are CPUs.
pub proof fn law_no_more_run_than_there_are_cpus(
    events: Seq<TraceEvent>,
    total_tasks: nat,
    nr_cpus: nat,
)
    requires
        forall|i: int| 0 <= i < events.len() ==> (#[trigger] events[i]).cpu.0 < nr_cpus,
        forall|c: nat, j: nat, k: nat|
            c < nr_cpus && j <= k <= events.len() ==> #[trigger] gain_on(events, c, j, k) <= 1,
    ensures
        tally(events, total_tasks, events.len()).max_running <= nr_cpus,
{
    let n = events.len();
    law_most_running_is_starts_less_stops(events, total_tasks, n);
    let (j, k) = choose|j: nat, k: nat|
        j <= k <= n && #[trigger] gain(events, j, k) == tally(
            events,
            total_tasks,
            n,
        ).max_running;
    lemma_gain_by_cpu(events, nr_cpus, j, k);
    lemma_all_cpus(events, starts(), nr_cpus, j);
    lemma_all_cpus(events, starts(), nr_cpus, k);
    lemma_all_cpus(events, stops(), nr_cpus, j);
    lemma_all_cpus(events, stops(), nr_cpus, k);
}

/// How many of the first `n` tasks are of a sort.
pub open spec fn tasks_of(tasks: Seq<SimTask>, sort: spec_fn(SimTask) -> bool, n: nat) -> nat
    decreases n,
{
    if n == 0 {
        0
    } else {
        tasks_of(tasks, sort, (n - 1) as nat) + if sort(tasks[n - 1]) {
            1nat
        } else {
            0nat
        }
    }
}

/// Every task has exited, sleeps, waits or runs: those alive are the others than the
/// exited, and those that want to run the others than the exited and the asleep.
pub proof fn law_tasks_are_alive_until_they_exit(tasks: Seq<SimTask>, n: nat)
    requires
        n <= tasks.len(),
    ensures
        task_counts(tasks, n).0 + tasks_of(tasks, |t: SimTask| t.state is Exited, n) == n,
        task_counts(tasks, n).1 + tasks_of(tasks, |t: SimTask| t.state is Sleeping, n)
            == task_counts(tasks, n).0,
    decreases n,
{
    if n > 0 {
        law_tasks_are_alive_until_they_exit(tasks, (n - 1) as nat);
    }
}

/// Counts what a run did.
pub fn summarize(events: &Vec<TraceEvent>, tasks: &Vec<SimTask>) -> (r: RunSummary)
    ensures
        r.total_tasks == tasks@.len(),
        (r.tasks_alive as nat, r.tasks_runnable as nat) == task_counts(tasks@, tasks@.len()),
        r.max_running == tally(events@, tasks@.len(), events@.len()).max_running,
        r.total_slices == tally(events@, tasks@.len(), events@.len()).slices,
        r.completed == tally(events@, tasks@.len(), events@.len()).completed,
        r.all_completed_at == tally(events@, tasks@.len(), events@.len()).all_completed_at,
{
    let total = tasks.len() as u64;
    let mut alive: u64 = 0;
    let mut runnable: u64 = 0;
    let mut i: usize = 0;
    while i < tasks.len()
        invariant
            i <= tasks@.len(),
            alive <= i,
            runnable <= i,
            (alive as nat, runnable as nat) == task_counts(tasks@, i as nat),
        decreases tasks@.len() - i,
    {
        match tasks[i].state {
            TaskState::Exited => {},
            TaskState::Sleeping => {
                alive = alive + 1;
            },
            TaskState::Runnable => {
                alive = alive + 1;
                runnable = runnable + 1;
            },
            TaskState::Running { .. } => {
                alive = alive + 1;
                runnable = runnable + 1;
            },
        }
        i = i + 1;
    }
    let mut running: u64 = 0;
    let mut max_running: u64 = 0;
    let mut slices: u64 = 0;
    let mut completed: u64 = 0;
    let mut at: Option<TimeNs> = None;
    let mut j: usize = 0;
    while j < events.len()
        invariant
            j <= events@.len(),
            total == tasks@.len(),
            running <= j,
            max_running <= j,
            slices <= j,
            completed <= j,
            tally(events@, tasks@.len(), j as nat) == (Tally {
                running: running as nat,
                max_running: max_running as nat,
                slices: slices as nat,
                completed: completed as nat,
                all_completed_at: at,
            }),
        decreases events@.len() - j,
    {
        let ghost before = tally(events@, tasks@.len(), j as nat);
        proof {
            assert(tally(events@, tasks@.len(), (j + 1) as nat) == tallied(
                before,
                events@[j as int],
                tasks@.len(),
            ));
        }
        match events[j].kind {
            TraceKind::TaskScheduled { .. } => {
                running = running + 1;
                if running > max_running {
                    max_running = running;
                }
                slices = slices + 1;
            },
            TraceKind::TaskPreempted { .. } => {
                running = running.saturating_sub(1);
            },
            TraceKind::TaskSlept { .. } => {
                running = running.saturating_sub(1);
            },
            TraceKind::TaskYielded { .. } => {
                running = running.saturating_sub(1);
            },
            TraceKind::SimulationEnd { .. } => {
                running = running.saturating_sub(1);
            },
            TraceKind::TaskCompleted { .. } => {
                running = running.saturating_sub(1);
                completed = completed + 1;
                if completed == total {
                    at = Some(events[j].time_ns);
                }
            },
            _ => {},
        }
        j = j + 1;
    }
    RunSummary {
        total_tasks: total,
        tasks_alive: alive,
        tasks_runnable: runnable,
        max_running,
        total_slices: slices,
        completed,
        all_completed_at: at,
    }
}

/// What is said of the tasks that completed. `when` is the time at which all
/// had, and `share` that time as a share of the run, if the run took any.
pub open spec fn completion_text(s: RunSummary, when: Seq<char>, share: Option<Seq<char>>) -> Seq<
    char,
> {
    if s.all_completed_at is Some {
        match share {
            Some(p) => "  All tasks completed:    "@ + when + " ("@ + p + "% of simulation)\n"@,
            None => "  All tasks completed:    "@ + when + "\n"@,
        }
    } else if s.completed > 0 {
        "  Tasks completed:        "@ + decimal(s.completed as nat) + "/"@ + decimal(
            s.total_tasks as nat,
        ) + "\n"@
    } else {
        Seq::empty()
    }
}

/// What is said at the end of a run. `elapsed` is the simulated time.
pub open spec fn summary_text(
    s: RunSummary,
    elapsed: Seq<char>,
    when: Seq<char>,
    share: Option<Seq<char>>,
) -> Seq<char> {
    "\nSimulation complete:\n  Logical time elapsed:   "@ + elapsed
        + "\n  Total tasks:            "@ + decimal(s.total_tasks as nat)
        + "\n  Max concurrent running: "@ + decimal(s.max_running as nat)
        + "\n  Total time slices:      "@ + decimal(s.total_slices as nat)
        + "\n  Tasks at end:           "@ + decimal(s.tasks_alive as nat) + " alive, "@ + decimal(
        s.tasks_runnable as nat,
    ) + " runnable\n"@ + completion_text(s, when, share)
}

impl RunSummary {
    fn say_completion(&self, when: &str, share: Option<&str>) -> (r: String)
        ensures
            r@ == completion_text(
                *self,
                when@,
                match share {
                    Some(p) => Some(p@),
                    None => None,
                },
            ),
    {
        if self.all_completed_at.is_some() {
            let head = plus("  All tasks completed:    ".to_string(), when);
            match share {
                Some(p) => plus(plus(plus(head, " ("), p), "% of simulation)\n"),
                None => plus(head, "\n"),
            }
        } else if self.completed > 0 {
            plus(
                plus(
                    plus(
                        plus(
                            "  Tasks completed:        ".to_string(),
                            dec(self.completed).as_str(),
                        ),
                        "/",
                    ),
                    dec(self.total_tasks).as_str(),
                ),
                "\n",
            )
        } else {
            String::new()
        }
    }

    /// What is said at the end of a run.
    pub fn text(&self, elapsed: &str, when: &str, share: Option<&str>) -> (r: String)
        ensures
            r@ == summary_text(
                *self,
                elapsed@,
                when@,
                match share {
                    Some(p) => Some(p@),
                    None => None,
                },
            ),
    {
        let a = plus("\nSimulation complete:\n  Logical time elapsed:   ".to_string(), elapsed);
        let b = plus(
            plus(a, "\n  Total tasks:            "),
            dec(self.total_tasks).as_str(),
        );
        let c = plus(
            plus(b, "\n  Max concurrent running: "),
            dec(self.max_running).as_str(),
        );
        let d = plus(
            plus(c, "\n  Total time slices:      "),
            dec(self.total_slices).as_str(),
        );
        let e = plus(
            plus(d, "\n  Tasks at end:           "),
            dec(self.tasks_alive).as_str(),
        );
        let f = plus(
            plus(plus(e, " alive, "), dec(self.tasks_runnable).as_str()),
            " runnable\n",
        );
        plus(f, self.say_completion(when, share).as_str())
    }
}

/// What is said of the longest stretches of scheduler code, in branches, beside
/// the margin that a replay keeps; nothing if no branches were counted.
pub open spec fn preemption_text(stats: RbcStats, margin: u64) -> Option<Seq<char>> {
    if stats.longest_structop_rbc == 0 {
        None
    } else {
        Some(
            "\nPreemption stats:\n  longest_structop_rbc:    "@ + decimal(
                stats.longest_structop_rbc as nat,
            ) + "\n  longest_rbc_interval:    "@ + decimal(stats.longest_rbc_interval as nat)
                + "  (between kfuncs)\n  REPLAY_MARGIN:           "@ + decimal(margin as nat)
                + "\n"@,
        )
    }
}

/// What is said of the longest stretches of scheduler code.
pub fn print_preemption_stats(stats: &RbcStats, margin: u64) -> (r: Option<String>)
    ensures
        match r {
            Some(t) => preemption_text(*stats, margin) == Some(t@),
            None => preemption_text(*stats, margin) is None,
        },
{
    if stats.longest_structop_rbc == 0 {
        return None;
    }
    let a = plus(
        "\nPreemption stats:\n  longest_structop_rbc:    ".to_string(),
        dec(stats.longest_structop_rbc).as_str(),
    );
    let b = plus(
        plus(a, "\n  longest_rbc_interval:    "),
        dec(stats.longest_rbc_interval).as_str(),
    );
    let c = plus(
        plus(b, "  (between kfuncs)\n  REPLAY_MARGIN:           "),
        dec(margin).as_str(),
    );
    Some(plus(c, "\n"))
}

/// What is said of completions: when all tasks had completed, if they had, with its share
/// of the run where there is one; otherwise how many had, if any had; otherwise nothing.
pub proof fn law_completions_are_told_once(s: RunSummary, when: Seq<char>, p: Seq<char>)
    ensures
        s.all_completed_at is Some ==> completion_text(s, when, Some(p))
            == "  All tasks completed:    "@ + when + " ("@ + p + "% of simulation)\n"@,
        s.all_completed_at is Some ==> completion_text(s, when, None)
            == "  All tasks completed:    "@ + when + "\n"@,
        s.all_completed_at is None && s.completed > 0 ==> completion_text(s, when, Some(p))
            == "  Tasks completed:        "@ + decimal(s.completed as nat) + "/"@ + decimal(
            s.total_tasks as nat,
        ) + "\n"@,
        s.all_completed_at is None && s.completed == 0 ==> completion_text(s, when, Some(p)).len()
            == 0,
        s.all_completed_at is None ==> completion_text(s, when, None) == completion_text(
            s,
            when,
            Some(p),
        ),
{
}

/// What is said at the end of a run names every number of it, each behind its own words.
pub proof fn law_summaries_name_every_number(
    s: RunSummary,
    elapsed: Seq<char>,
    when: Seq<char>,
    share: Option<Seq<char>>,
    stats: RbcStats,
    margin: u64,
)
    ensures
        summary_text(s, elapsed, when, share)
            == "\nSimulation complete:\n  Logical time elapsed:   "@ + elapsed
            + "\n  Total tasks:            "@ + decimal(s.total_tasks as nat)
            + "\n  Max concurrent running: "@ + decimal(s.max_running as nat)
            + "\n  Total time slices:      "@ + decimal(s.total_slices as nat)
            + "\n  Tasks at end:           "@ + decimal(s.tasks_alive as nat) + " alive, "@
            + decimal(s.tasks_runnable as nat) + " runnable\n"@ + completion_text(s, when, share),
        preemption_text(stats, margin) is None <==> stats.longest_structop_rbc == 0,
        stats.longest_structop_rbc > 0 ==> preemption_text(stats, margin) == Some(
            "\nPreemption stats:\n  longest_structop_rbc:    "@ + decimal(
                stats.longest_structop_rbc as nat,
            ) + "\n  longest_rbc_interval:    "@ + decimal(stats.longest_rbc_interval as nat)
                + "  (between kfuncs)\n  REPLAY_MARGIN:           "@ + decimal(margin as nat)
                + "\n"@,
        ),
{
}

} // verus!
