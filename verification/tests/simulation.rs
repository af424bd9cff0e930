use std::collections::{HashMap, VecDeque};

use scx_simulator::engine::{Monitor, Scheduler, Simulator, SimulationResult, BAD_ANSWER};
use scx_simulator::lifecycle::is_runnable;
use scx_simulator::scenario::{
    BandwidthDef, CgroupCreateEvent, CgroupDef, CgroupMigrateEvent, CpuPreemptEvent, HotplugEvent,
    IrqEvent, IrqType, NoiseConfig, OverheadConfig, Phase, RepeatMode, Scenario, TaskBehavior,
    TaskDef,
};
use scx_simulator::sim_state::SimState;
use scx_simulator::state::{
    Cost, HaltReason, Insert, Kick, ProbePoint, Reply, Request, TaskState, Timer,
};
use scx_simulator::trace::{exit_code_for, ExitKind, Trace, TraceKind};
use scx_simulator::types::{CgroupId, CpuId, KickFlags, Pid, KICK_PREEMPT};

const MS: u64 = 1_000_000;

/// A scheduler with one queue. A task gets a new slice with every enqueue.
struct Fifo {
    queue: VecDeque<Pid>,
    slice_ns: u64,
    slices: HashMap<Pid, u64>,
    runtimes: HashMap<Pid, u64>,
    idle: Vec<bool>,
    /// The status that `init` returns.
    init_rc: i64,
    init_task_rc: i64,
    cgroup_init_rc: i64,
    /// Leaves every CPU without work.
    lazy: bool,
    /// The CPU that tasks go to, if not the one that asks.
    target: Option<CpuId>,
    /// Raises an error when it is enqueued.
    error_on: Option<Pid>,
    /// Kicks a CPU whenever it is enqueued.
    kick: Option<(Pid, CpuId, u64)>,
    /// Arms a timer in `init`.
    timer_at: Option<u64>,
    budget: Option<u64>,
    throttled: bool,
    log: Vec<Request>,
}

impl Fifo {
    fn new(nr_cpus: usize, slice_ns: u64) -> Fifo {
        Fifo {
            queue: VecDeque::new(),
            slice_ns,
            slices: HashMap::new(),
            runtimes: HashMap::new(),
            idle: vec![true; nr_cpus],
            init_rc: 0,
            init_task_rc: 0,
            cgroup_init_rc: 0,
            lazy: false,
            target: None,
            error_on: None,
            kick: None,
            timer_at: None,
            budget: None,
            throttled: false,
            log: Vec::new(),
        }
    }

    fn reply(&self) -> Reply {
        Reply {
            value: 0,
            cost: Cost { branches: 0, final_interval: 0, kfunc_calls: 0, kfunc_ns: 0 },
            slice: 0,
            sum_exec: 0,
            budget: None,
            direct: None,
            records: vec![],
            kicks: vec![],
            timers: vec![],
            inserts: vec![],
            budget_events: vec![],
            error: None,
        }
    }

    fn about(&self, pid: Pid) -> Reply {
        let mut r = self.reply();
        r.slice = *self.slices.get(&pid).unwrap_or(&self.slice_ns);
        r.sum_exec = *self.runtimes.get(&pid).unwrap_or(&0);
        r
    }
}

impl Scheduler for Fifo {
    fn answer(&mut self, request: Request, state: &SimState) -> Reply {
        self.log.push(request);
        match request {
            Request::Init => {
                let mut r = self.reply();
                r.value = self.init_rc;
                if let Some(at) = self.timer_at {
                    r.timers.push(Timer { slot: 0, fire_at: at, cpu: CpuId(0) });
                }
                r
            }
            Request::InitTask { .. } => {
                let mut r = self.reply();
                r.value = self.init_task_rc;
                r
            }
            Request::CgroupInit { .. } => {
                let mut r = self.reply();
                r.value = self.cgroup_init_rc;
                r
            }
            Request::SelectCpu { pid, prev_cpu, .. } => {
                let mut r = self.about(pid);
                r.value = match self.idle.iter().position(|i| *i) {
                    Some(cpu) => cpu as i64,
                    None => prev_cpu.0 as i64,
                };
                r
            }
            Request::Enqueue { pid, .. } => {
                self.queue.push_back(pid);
                self.slices.insert(pid, self.slice_ns);
                let mut r = self.about(pid);
                if self.error_on == Some(pid) {
                    r.error = Some("boom".to_string());
                }
                if let Some((of, cpu, flags)) = self.kick {
                    if of == pid {
                        r.kicks.push(Kick { time_ns: state.clock(), cpu, flags: KickFlags(flags) });
                    }
                }
                r
            }
            Request::Dispatch { cpu, .. } => {
                let mut r = self.reply();
                if !self.lazy {
                    if let Some(pid) = self.queue.pop_front() {
                        let cpu = self.target.unwrap_or(cpu);
                        r.inserts.push(Insert { cpu, pid });
                    }
                }
                r
            }
            Request::Stopping { pid, slice, sum_exec, .. } => {
                self.slices.insert(pid, slice);
                self.runtimes.insert(pid, sum_exec);
                self.about(pid)
            }
            Request::Tick { pid, sum_exec, .. } => {
                self.runtimes.insert(pid, sum_exec);
                self.about(pid)
            }
            Request::MarkIdle { cpu } => {
                self.idle[cpu.0 as usize] = true;
                self.reply()
            }
            Request::MarkBusy { cpu, pid } => {
                let mut r = self.about(pid);
                r.value = self.idle[cpu.0 as usize] as i64;
                self.idle[cpu.0 as usize] = false;
                r
            }
            Request::IsThrottled { .. } => {
                let mut r = self.reply();
                r.value = self.throttled as i64;
                r
            }
            Request::Limits { pid, .. } => {
                let mut r = self.about(pid);
                r.budget = self.budget;
                r
            }
            Request::Slice { pid } | Request::Running { pid, .. } => self.about(pid),
            Request::RemoveFromQueues { pid } => {
                self.queue.retain(|p| *p != pid);
                self.reply()
            }
            _ => self.reply(),
        }
    }

    fn cpumask_hex(&mut self, allowed: &Option<Vec<CpuId>>, nr_cpus: u32) -> String {
        let mask: u64 = match allowed {
            Some(cpus) => cpus.iter().map(|c| 1u64 << c.0).sum(),
            None => (1u64 << nr_cpus) - 1,
        };
        format!("{mask:x}")
    }
}

fn task(pid: i32, phases: Vec<Phase>, repeat: RepeatMode) -> TaskDef {
    TaskDef {
        pid: Pid(pid),
        name: format!("task{pid}"),
        nice: 0,
        behavior: TaskBehavior { phases, repeat },
        start_time_ns: 0,
        allowed_cpus: None,
        parent_pid: None,
        cgroup_name: None,
    }
}

fn scenario(nr_cpus: u32, tasks: Vec<TaskDef>, duration_ns: u64) -> Scenario {
    Scenario {
        nr_cpus,
        smt_threads_per_core: 1,
        cpus_per_llc: 0,
        tasks,
        cgroups: vec![],
        max_cgroups: 16,
        seed: 42,
        fixed_priority: true,
        duration_ns,
        warmup_ns: 0,
        watchdog_timeout_ns: None,
        ignore_bpf_errors: false,
        noise: NoiseConfig {
            enabled: false,
            run_jitter: false,
            run_jitter_cv_ppm: 0,
            tick_jitter_stddev_ns: 0,
            initial_tick_skew_ns: 0,
        },
        overhead: OverheadConfig {
            enabled: false,
            wakeup_latency_floor_ns: 0,
            migration_penalty_ns: 0,
            cross_llc_migration_penalty_ns: 0,
        },
        sched_overhead_rbc_ns: None,
        interleave: false,
        stochastic_timer_interleave: false,
        stochastic_timer_interleave_window_ns: 0,
        stochastic_timer_interleave_one_in: 0,
        preemptive: None,
        native_concurrent: None,
        wait_debugger: false,
        no_pmu_signal: false,
        hotplug_events: vec![],
        cpu_preempt_events: vec![],
        cgroup_migrate_events: vec![],
        cgroup_create_events: vec![],
        cgroup_destroy_events: vec![],
        cgroup_cpuset_change_events: vec![],
        irq_events: vec![],
        futex_events: vec![],
        futex_texts: vec![],
    }
}

fn run(sim: &mut Simulator<Fifo>, s: Scenario) -> SimulationResult {
    assert!(is_runnable(&s));
    match sim.run(s) {
        Ok(result) => result,
        Err(why) => panic!("halted: {why:?}"),
    }
}

/// When each event that `wanted` picks was recorded.
fn times(trace: &Trace, wanted: impl Fn(&TraceKind) -> bool) -> Vec<u64> {
    trace.events.iter().filter(|e| wanted(&e.kind)).map(|e| e.time_ns).collect()
}

fn scheduled(trace: &Trace, pid: i32) -> Vec<u64> {
    times(trace, |k| *k == TraceKind::TaskScheduled { pid: Pid(pid) })
}

/// Compute time of a task, from its entries in the trace.
fn busy(trace: &Trace, pid: Pid) -> u64 {
    let mut total = 0;
    let mut since: Option<u64> = None;
    for e in &trace.events {
        match e.kind {
            TraceKind::TaskScheduled { pid: p } if p == pid => since = Some(e.time_ns),
            TraceKind::TaskPreempted { pid: p }
            | TraceKind::TaskYielded { pid: p }
            | TraceKind::TaskSlept { pid: p }
            | TraceKind::TaskCompleted { pid: p }
            | TraceKind::SimulationEnd { pid: p }
                if p == pid =>
            {
                if let Some(t) = since.take() {
                    total += e.time_ns - t;
                }
            }
            _ => {}
        }
    }
    total
}

#[test]
fn a_task_runs_its_phase_and_exits() {
    let mut sim = Simulator::new(Fifo::new(1, 20 * MS), false);
    let s = scenario(1, vec![task(1, vec![Phase::Run(5 * MS)], RepeatMode::Once)], 50 * MS);
    let result = run(&mut sim, s);
    assert_eq!(result.exit, ExitKind::Normal);
    assert_eq!(exit_code_for(&result.exit), 0);
    let start = scheduled(&result.trace, 1);
    let end = times(&result.trace, |k| *k == TraceKind::TaskCompleted { pid: Pid(1) });
    assert_eq!(start.len(), 1);
    assert_eq!(end, vec![start[0] + 5 * MS]);
    assert_eq!(result.tasks.len(), 1);
    assert_eq!(result.tasks[0].state, TaskState::Exited);
    assert_eq!(result.trace.task_name(Pid(1)), "task1");
    let kinds: Vec<&Request> = sim.scheduler.log.iter().collect();
    assert!(kinds.contains(&&Request::Exit));
    assert!(kinds.contains(&&Request::ExitTask { pid: Pid(1) }));
}

#[test]
fn two_tasks_share_a_cpu() {
    let mut sim = Simulator::new(Fifo::new(1, 5 * MS), false);
    let tasks = vec![
        task(1, vec![Phase::Run(20 * MS)], RepeatMode::Forever),
        task(2, vec![Phase::Run(20 * MS)], RepeatMode::Forever),
    ];
    let result = run(&mut sim, scenario(1, tasks, 100 * MS));
    let a = scheduled(&result.trace, 1);
    let b = scheduled(&result.trace, 2);
    assert!(a.len() >= 5 && b.len() >= 5, "{} and {}", a.len(), b.len());
    let total = busy(&result.trace, Pid(1)) + busy(&result.trace, Pid(2));
    assert_eq!(total, 100 * MS);
    // Nobody waits for more than the other's slice.
    for w in a.windows(2) {
        assert!(w[1] - w[0] <= 10 * MS);
    }
}

#[test]
fn two_tasks_use_two_cpus() {
    let mut sim = Simulator::new(Fifo::new(2, 5 * MS), false);
    let tasks = vec![
        task(1, vec![Phase::Run(20 * MS)], RepeatMode::Forever),
        task(2, vec![Phase::Run(20 * MS)], RepeatMode::Forever),
    ];
    let result = run(&mut sim, scenario(2, tasks, 100 * MS));
    assert_eq!(busy(&result.trace, Pid(1)), 100 * MS);
    assert_eq!(busy(&result.trace, Pid(2)), 100 * MS);
}

#[test]
fn each_cpu_goes_forward() {
    let mut sim = Simulator::new(Fifo::new(2, 3 * MS), false);
    let tasks = vec![
        task(1, vec![Phase::Run(4 * MS), Phase::Sleep(MS)], RepeatMode::Forever),
        task(2, vec![Phase::Run(2 * MS), Phase::Wake(Pid(3))], RepeatMode::Forever),
        task(3, vec![Phase::Run(MS), Phase::Sleep(50 * MS)], RepeatMode::Count(3)),
    ];
    let result = run(&mut sim, scenario(2, tasks, 60 * MS));
    for cpu in 0..2 {
        let mut last = 0;
        for e in result.trace.events.iter().filter(|e| e.cpu == CpuId(cpu)) {
            let on_cpu = matches!(
                e.kind,
                TraceKind::TaskScheduled { .. }
                    | TraceKind::TaskPreempted { .. }
                    | TraceKind::TaskSlept { .. }
                    | TraceKind::TaskCompleted { .. }
            );
            if on_cpu {
                assert!(e.time_ns >= last, "{e:?} after {last}");
                last = e.time_ns;
            }
        }
    }
}

#[test]
fn a_sleeping_task_wakes_on_time() {
    let mut sim = Simulator::new(Fifo::new(1, 20 * MS), false);
    let phases = vec![Phase::Run(2 * MS), Phase::Sleep(7 * MS), Phase::Run(MS)];
    let result = run(&mut sim, scenario(1, vec![task(1, phases, RepeatMode::Once)], 50 * MS));
    let slept = times(&result.trace, |k| *k == TraceKind::TaskSlept { pid: Pid(1) });
    let woke = times(&result.trace, |k| *k == TraceKind::TaskWoke { pid: Pid(1) });
    assert_eq!(slept.len(), 1);
    assert_eq!(woke.len(), 2);
    assert_eq!(woke[1], slept[0] + 7 * MS);
    assert_eq!(busy(&result.trace, Pid(1)), 3 * MS);
}

#[test]
fn one_task_wakes_another() {
    let mut sim = Simulator::new(Fifo::new(1, 20 * MS), false);
    let mut late = task(2, vec![Phase::Run(MS)], RepeatMode::Once);
    late.start_time_ns = 900 * MS;
    let tasks = vec![
        task(1, vec![Phase::Run(3 * MS), Phase::Wake(Pid(2))], RepeatMode::Once),
        late,
    ];
    let result = run(&mut sim, scenario(1, tasks, 20 * MS));
    let end = times(&result.trace, |k| *k == TraceKind::TaskCompleted { pid: Pid(1) });
    let start = scheduled(&result.trace, 2);
    assert_eq!(end.len(), 1);
    assert_eq!(start.len(), 1);
    assert!(start[0] >= 3 * MS && start[0] < 4 * MS, "{}", start[0]);
}

#[test]
fn a_stalled_task_is_reported() {
    let mut scheduler = Fifo::new(1, 20 * MS);
    scheduler.lazy = true;
    let mut sim = Simulator::new(scheduler, false);
    let tasks = vec![
        task(5, vec![Phase::Run(MS)], RepeatMode::Once),
        task(3, vec![Phase::Run(MS)], RepeatMode::Once),
    ];
    let mut s = scenario(1, tasks, 500 * MS);
    s.watchdog_timeout_ns = Some(30 * MS);
    let result = run(&mut sim, s);
    match result.exit {
        ExitKind::ErrorStall { pid, runnable_for_ns } => {
            assert_eq!(pid, Pid(3));
            assert!(runnable_for_ns > 30 * MS && runnable_for_ns <= 40 * MS);
        }
        other => panic!("{other:?}"),
    }
}

#[test]
fn no_watchdog_no_stall() {
    let mut scheduler = Fifo::new(1, 20 * MS);
    scheduler.lazy = true;
    let mut sim = Simulator::new(scheduler, false);
    let tasks = vec![task(5, vec![Phase::Run(MS)], RepeatMode::Once)];
    let result = run(&mut sim, scenario(1, tasks, 100 * MS));
    assert_eq!(result.exit, ExitKind::Normal);
    assert_eq!(result.tasks[0].state, TaskState::Runnable);
    assert!(scheduled(&result.trace, 5).is_empty());
}

#[test]
fn an_error_of_the_scheduler_ends_the_run() {
    let mut scheduler = Fifo::new(1, 20 * MS);
    scheduler.error_on = Some(Pid(2));
    let mut sim = Simulator::new(scheduler, false);
    let tasks = vec![
        task(1, vec![Phase::Run(MS)], RepeatMode::Forever),
        task(2, vec![Phase::Run(MS)], RepeatMode::Forever),
    ];
    let result = run(&mut sim, scenario(1, tasks, 100 * MS));
    assert_eq!(result.exit, ExitKind::ErrorBpf("boom".to_string()));
    assert_eq!(exit_code_for(&result.exit), 43);
}

#[test]
fn errors_can_be_ignored() {
    let mut scheduler = Fifo::new(1, 20 * MS);
    scheduler.error_on = Some(Pid(2));
    let mut sim = Simulator::new(scheduler, false);
    let tasks = vec![
        task(1, vec![Phase::Run(MS)], RepeatMode::Forever),
        task(2, vec![Phase::Run(MS)], RepeatMode::Forever),
    ];
    let mut s = scenario(1, tasks, 100 * MS);
    s.ignore_bpf_errors = true;
    let result = run(&mut sim, s);
    assert_eq!(result.exit, ExitKind::Normal);
}

#[test]
fn a_dispatch_to_a_missing_cpu_is_an_error() {
    let mut scheduler = Fifo::new(1, 20 * MS);
    scheduler.target = Some(CpuId(9));
    let mut sim = Simulator::new(scheduler, false);
    let tasks = vec![task(1, vec![Phase::Run(MS)], RepeatMode::Forever)];
    let result = run(&mut sim, scenario(1, tasks, 100 * MS));
    assert_eq!(result.exit, ExitKind::ErrorBpf(BAD_ANSWER.to_string()));
}

#[test]
fn failing_callbacks_halt_the_run() {
    let tasks = || vec![task(1, vec![Phase::Run(MS)], RepeatMode::Once)];

    let mut scheduler = Fifo::new(1, MS);
    scheduler.init_rc = -22;
    let got = Simulator::new(scheduler, false).run(scenario(1, tasks(), MS));
    assert_eq!(got.err(), Some(HaltReason::InitFailed { rc: -22 }));

    let mut scheduler = Fifo::new(1, MS);
    scheduler.init_task_rc = -12;
    let got = Simulator::new(scheduler, false).run(scenario(1, tasks(), MS));
    assert_eq!(got.err(), Some(HaltReason::InitTaskFailed { pid: Pid(1), rc: -12 }));

    let mut scheduler = Fifo::new(1, MS);
    scheduler.cgroup_init_rc = -7;
    let got = Simulator::new(scheduler, false).run(scenario(1, tasks(), MS));
    assert_eq!(got.err(), Some(HaltReason::CgroupInitFailed { cgid: CgroupId(1), rc: -7 }));
}

#[test]
fn events_on_missing_groups_halt_the_run() {
    let tasks = || vec![task(1, vec![Phase::Run(MS)], RepeatMode::Forever)];

    let mut s = scenario(1, tasks(), 20 * MS);
    s.cgroup_migrate_events.push(CgroupMigrateEvent {
        at_ns: MS,
        pid: Pid(1),
        from_cgroup: "a".to_string(),
        to_cgroup: "b".to_string(),
    });
    let got = Simulator::new(Fifo::new(1, MS), false).run(s);
    assert_eq!(got.err(), Some(HaltReason::MigrateCgroupMissing { event: 0 }));

    let mut s = scenario(1, tasks(), 20 * MS);
    s.cgroup_create_events.push(CgroupCreateEvent {
        at_ns: MS,
        name: "child".to_string(),
        parent_name: Some("nowhere".to_string()),
        cpuset: None,
    });
    let got = Simulator::new(Fifo::new(1, MS), false).run(s);
    assert_eq!(got.err(), Some(HaltReason::ParentCgroupMissing { event: 0 }));
}

#[test]
fn too_many_groups_end_the_run() {
    let mut s = scenario(1, vec![task(1, vec![Phase::Run(MS)], RepeatMode::Forever)], 20 * MS);
    s.max_cgroups = 1;
    for name in ["a", "b"] {
        s.cgroup_create_events.push(CgroupCreateEvent {
            at_ns: MS,
            name: name.to_string(),
            parent_name: None,
            cpuset: None,
        });
    }
    let mut sim = Simulator::new(Fifo::new(1, MS), false);
    let result = run(&mut sim, s);
    match result.exit {
        ExitKind::ErrorCgroupExhausted { ref cgroup_name, active_count, max_cgroups } => {
            assert!(cgroup_name == "a" || cgroup_name == "b");
            assert_eq!(max_cgroups, 1);
            assert!(active_count >= 1);
        }
        ref other => panic!("{other:?}"),
    }
    assert_eq!(exit_code_for(&result.exit), 45);
}

#[test]
fn an_offline_cpu_runs_nothing() {
    let mut s = scenario(2, vec![
        task(1, vec![Phase::Run(MS)], RepeatMode::Forever),
        task(2, vec![Phase::Run(MS)], RepeatMode::Forever),
    ], 60 * MS);
    s.hotplug_events.push(HotplugEvent { time_ns: 20 * MS, cpu: CpuId(1), online: false });
    s.hotplug_events.push(HotplugEvent { time_ns: 40 * MS, cpu: CpuId(1), online: true });
    let mut sim = Simulator::new(Fifo::new(2, 2 * MS), false);
    let result = run(&mut sim, s);
    for e in &result.trace.events {
        if let TraceKind::TaskScheduled { .. } = e.kind {
            let away = e.time_ns > 20 * MS && e.time_ns < 40 * MS;
            assert!(!(away && e.cpu == CpuId(1)), "scheduled at {}", e.time_ns);
        }
    }
    assert!(sim.scheduler.log.contains(&Request::CpuOffline { cpu: CpuId(1) }));
    assert!(sim.scheduler.log.contains(&Request::CpuOnline { cpu: CpuId(1) }));
}

#[test]
fn an_interrupt_takes_time_from_the_task() {
    let once = || task(1, vec![Phase::Run(6 * MS)], RepeatMode::Once);
    let mut sim = Simulator::new(Fifo::new(1, 50 * MS), false);
    let quiet = run(&mut sim, scenario(1, vec![once()], 50 * MS));
    let mut s = scenario(1, vec![once()], 50 * MS);
    s.irq_events.push(IrqEvent {
        at_ns: 2 * MS,
        cpu: CpuId(0),
        irq_type: IrqType::HardIrq,
        duration_ns: MS,
        wake_pids: vec![],
    });
    let mut sim = Simulator::new(Fifo::new(1, 50 * MS), false);
    let noisy = run(&mut sim, s);
    let done = |r: &SimulationResult| {
        times(&r.trace, |k| *k == TraceKind::TaskCompleted { pid: Pid(1) })[0]
    };
    assert_eq!(done(&noisy), done(&quiet) + MS);
    assert_eq!(
        times(&noisy.trace, |k| *k
            == TraceKind::IrqStart { cpu: CpuId(0), irq_type: IrqType::HardIrq }),
        vec![2 * MS]
    );
}

#[test]
fn a_preempting_kick_takes_effect_at_the_next_tick() {
    let mut scheduler = Fifo::new(1, 50 * MS);
    scheduler.kick = Some((Pid(2), CpuId(0), KICK_PREEMPT));
    let mut sim = Simulator::new(scheduler, false);
    let mut second = task(2, vec![Phase::Run(MS)], RepeatMode::Once);
    second.start_time_ns = 10 * MS;
    let tasks = vec![task(1, vec![Phase::Run(30 * MS)], RepeatMode::Once), second];
    let result = run(&mut sim, scenario(1, tasks, 60 * MS));
    assert!(!times(&result.trace, |k| *k == TraceKind::TaskPreempted { pid: Pid(1) }).is_empty());
    assert_eq!(scheduled(&result.trace, 2), vec![12 * MS]);
    // The end that was set when the task first started stands.
    let done = times(&result.trace, |k| *k == TraceKind::TaskCompleted { pid: Pid(1) });
    assert_eq!(done, vec![30 * MS]);
}

#[test]
fn a_timer_fires_once() {
    let mut scheduler = Fifo::new(1, 5 * MS);
    scheduler.timer_at = Some(7 * MS);
    let mut sim = Simulator::new(scheduler, false);
    run(&mut sim, scenario(1, vec![task(1, vec![Phase::Run(MS)], RepeatMode::Forever)], 20 * MS));
    let fired = sim
        .scheduler
        .log
        .iter()
        .filter(|r| **r == Request::FireTimer { cpu: CpuId(0), slot: 0 })
        .count();
    assert_eq!(fired, 1);
}

#[test]
fn ticks_go_on_while_a_task_runs() {
    let mut sim = Simulator::new(Fifo::new(1, 100 * MS), false);
    let tasks = vec![task(1, vec![Phase::Run(100 * MS)], RepeatMode::Forever)];
    let result = run(&mut sim, scenario(1, tasks, 40 * MS));
    let ticks = times(&result.trace, |k| *k == TraceKind::Tick { pid: Pid(1) });
    assert!(ticks.len() >= 8, "{}", ticks.len());
    for w in ticks.windows(2) {
        assert_eq!(w[1] - w[0], 4 * MS);
    }
}

#[test]
fn a_group_without_budget_holds_its_tasks_back() {
    let group = || CgroupDef {
        name: "limited".to_string(),
        parent_name: None,
        cpuset: None,
        bandwidth: Some(BandwidthDef { period_us: 100_000, quota_us: 10_000, burst_us: 0 }),
    };
    let mut member = task(1, vec![Phase::Run(50 * MS)], RepeatMode::Forever);
    member.cgroup_name = Some("limited".to_string());

    let mut scheduler = Fifo::new(1, 20 * MS);
    scheduler.throttled = true;
    let mut s = scenario(1, vec![member.clone()], 40 * MS);
    s.cgroups.push(group());
    let mut sim = Simulator::new(scheduler, false);
    let result = run(&mut sim, s);
    assert!(scheduled(&result.trace, 1).is_empty());

    let mut scheduler = Fifo::new(1, 20 * MS);
    scheduler.budget = Some(3 * MS);
    let mut s = scenario(1, vec![member], 10 * MS);
    s.cgroups.push(group());
    let mut sim = Simulator::new(scheduler, false);
    let result = run(&mut sim, s);
    let started = scheduled(&result.trace, 1);
    assert!(!started.is_empty());
    let stopped = times(&result.trace, |k| *k == TraceKind::TaskPreempted { pid: Pid(1) });
    assert_eq!(stopped[0] - started[0], 3 * MS);
}

#[test]
fn the_same_seed_gives_the_same_trace() {
    let go = |seed: u32| {
        let mut tasks: Vec<TaskDef> = Vec::new();
        for pid in 1..6 {
            tasks.push(task(pid, vec![Phase::Run(MS), Phase::Sleep(MS)], RepeatMode::Forever));
        }
        let mut s = scenario(2, tasks, 50 * MS);
        s.fixed_priority = false;
        s.seed = seed;
        let mut sim = Simulator::new(Fifo::new(2, 5 * MS), false);
        run(&mut sim, s).trace.events
    };
    assert!(go(1) == go(1));
    assert!(go(1) != go(2) || go(1) != go(3));
}

#[test]
fn runs_with_fixed_priority_can_be_repeated() {
    let go = |seed: u32| {
        let mut tasks: Vec<TaskDef> = Vec::new();
        for pid in 1..6 {
            tasks.push(task(pid, vec![Phase::Run(MS), Phase::Sleep(MS)], RepeatMode::Forever));
        }
        let mut s = scenario(2, tasks, 50 * MS);
        s.seed = seed;
        let mut sim = Simulator::new(Fifo::new(2, 5 * MS), false);
        let result = run(&mut sim, s);
        (result.trace.events, result.tasks, result.clock)
    };
    // The seed plays no part.
    assert!(go(1) == go(1));
    assert!(go(1) == go(2));
}

#[test]
fn warmup_is_noted_in_the_trace() {
    let mut s = scenario(1, vec![task(1, vec![Phase::Run(MS)], RepeatMode::Forever)], 20 * MS);
    s.warmup_ns = 5 * MS;
    let mut sim = Simulator::new(Fifo::new(1, 5 * MS), false);
    let result = run(&mut sim, s);
    assert_eq!(result.trace.warmup_ns, 5 * MS);
}

#[test]
fn unrunnable_scenarios_are_told() {
    let good = || scenario(2, vec![task(1, vec![Phase::Run(MS)], RepeatMode::Once)], MS);
    assert!(is_runnable(&good()));
    let mut s = good();
    s.nr_cpus = 0;
    assert!(!is_runnable(&s));
    let mut s = good();
    s.nr_cpus = 3;
    s.smt_threads_per_core = 2;
    assert!(!is_runnable(&s));
    let mut s = good();
    s.tasks[0].allowed_cpus = Some(vec![CpuId(2)]);
    assert!(!is_runnable(&s));
    let mut s = good();
    s.tasks[0].parent_pid = Some(Pid(8));
    assert!(!is_runnable(&s));
    let mut s = good();
    s.tasks[0].cgroup_name = Some("none".to_string());
    assert!(!is_runnable(&s));
    let mut s = good();
    s.cgroups.push(CgroupDef {
        name: "b".to_string(),
        parent_name: Some("a".to_string()),
        cpuset: None,
        bandwidth: None,
    });
    assert!(!is_runnable(&s));
}

#[test]
fn events_after_the_end_may_name_missing_cpus() {
    let good = || scenario(2, vec![task(1, vec![Phase::Run(MS)], RepeatMode::Once)], 9 * MS);
    let plug = |at: u64| HotplugEvent { time_ns: at, cpu: CpuId(7), online: false };
    let borrow = |release: u64, acquire: u64| CpuPreemptEvent {
        cpu: CpuId(7),
        release_at_ns: release,
        acquire_at_ns: acquire,
    };
    let irq = |at: u64| IrqEvent {
        at_ns: at,
        cpu: CpuId(7),
        irq_type: IrqType::HardIrq,
        duration_ns: 1,
        wake_pids: vec![],
    };
    let late = 9 * MS + 1;
    let mut s = good();
    s.hotplug_events.push(plug(late));
    s.cpu_preempt_events.push(borrow(late, late));
    s.irq_events.push(irq(late));
    let with_late = {
        let mut sim = Simulator::new(Fifo::new(2, 20 * MS), false);
        run(&mut sim, s).trace.events
    };
    let without = {
        let mut sim = Simulator::new(Fifo::new(2, 20 * MS), false);
        run(&mut sim, good()).trace.events
    };
    assert!(with_late == without);
    let mut s = good();
    s.hotplug_events.push(plug(9 * MS));
    assert!(!is_runnable(&s));
    let mut s = good();
    s.cpu_preempt_events.push(borrow(late, 9 * MS));
    assert!(!is_runnable(&s));
    let mut s = good();
    s.cpu_preempt_events.push(borrow(9 * MS, late));
    assert!(!is_runnable(&s));
    let mut s = good();
    s.irq_events.push(irq(0));
    assert!(!is_runnable(&s));
}

struct Witness {
    seen: Vec<(ProbePoint, Pid, u64)>,
}

impl Monitor for Witness {
    fn sample(&mut self, point: ProbePoint, pid: Pid, _cpu: CpuId, time_ns: u64, _trace: &Trace) {
        self.seen.push((point, pid, time_ns));
    }
}

#[test]
fn an_observer_sees_each_run() {
    let mut sim = Simulator::new(Fifo::new(1, 20 * MS), false);
    let s = scenario(1, vec![task(4, vec![Phase::Run(5 * MS)], RepeatMode::Once)], 50 * MS);
    let mut witness = Witness { seen: vec![] };
    let result = match sim.run_monitored(s, &mut witness) {
        Ok(result) => result,
        Err(why) => panic!("halted: {why:?}"),
    };
    let start = scheduled(&result.trace, 4)[0];
    assert!(witness.seen.contains(&(ProbePoint::Running, Pid(4), start)));
    assert!(witness.seen.contains(&(ProbePoint::Stopping, Pid(4), start + 5 * MS)));
}

#[test]
fn the_scheduler_is_called_in_order() {
    let mut sim = Simulator::new(Fifo::new(2, 20 * MS), false);
    let mut tasks = vec![
        task(7, vec![Phase::Run(5 * MS)], RepeatMode::Once),
        task(3, vec![Phase::Run(5 * MS)], RepeatMode::Once),
    ];
    tasks[0].cgroup_name = Some("leaf".to_string());
    let mut s = scenario(2, tasks, 50 * MS);
    s.cgroups = vec![
        CgroupDef {
            name: "top".to_string(),
            parent_name: None,
            cpuset: None,
            bandwidth: Some(BandwidthDef { period_us: 100, quota_us: 50, burst_us: 0 }),
        },
        CgroupDef {
            name: "leaf".to_string(),
            parent_name: Some("top".to_string()),
            cpuset: None,
            bandwidth: None,
        },
    ];
    run(&mut sim, s);
    let calls = &sim.scheduler.log;
    let groups: Vec<CgroupId> = calls
        .iter()
        .filter_map(|c| match c {
            Request::CgroupInit { cgid } => Some(*cgid),
            _ => None,
        })
        .collect();
    assert_eq!(groups.len(), 3);
    assert_eq!(groups[0], CgroupId(1));
    let (top, leaf) = (groups[1], groups[2]);
    let start = vec![
        Request::Init,
        Request::CgroupInit { cgid: groups[0] },
        Request::CgroupInit { cgid: top },
        Request::CgroupInit { cgid: leaf },
        Request::CgroupSetBandwidth {
            cgid: top,
            bandwidth: BandwidthDef { period_us: 100, quota_us: 50, burst_us: 0 },
        },
        Request::InitTask { pid: Pid(3), cgid: None },
        Request::SetCpumask { pid: Pid(3) },
        Request::InitTask { pid: Pid(7), cgid: Some(leaf) },
        Request::SetCpumask { pid: Pid(7) },
        Request::UpdateIdle { cpu: CpuId(0), idle: true },
        Request::UpdateIdle { cpu: CpuId(1), idle: true },
    ];
    assert_eq!(calls[..start.len()].to_vec(), start);
    let end = vec![
        Request::Dump,
        Request::DumpTask { pid: Pid(3) },
        Request::DumpTask { pid: Pid(7) },
        Request::ExitTask { pid: Pid(3) },
        Request::ExitTask { pid: Pid(7) },
        Request::CgroupExit { cgid: leaf },
        Request::CgroupExit { cgid: top },
        Request::CgroupExit { cgid: groups[0] },
        Request::Exit,
    ];
    assert_eq!(calls[calls.len() - end.len()..].to_vec(), end);
}

#[test]
fn the_trace_knows_the_scenario() {
    let mut sim = Simulator::new(Fifo::new(4, 20 * MS), false);
    let mut tasks = vec![
        task(9, vec![Phase::Run(MS)], RepeatMode::Once),
        task(2, vec![Phase::Run(MS)], RepeatMode::Once),
    ];
    tasks[0].allowed_cpus = Some(vec![CpuId(1), CpuId(3)]);
    let mut s = scenario(4, tasks, 50 * MS);
    s.warmup_ns = 3 * MS;
    s.futex_texts = vec!["Acquire".to_string()];
    let trace = run(&mut sim, s).trace;
    assert_eq!(trace.nr_cpus, 4);
    assert_eq!(trace.task_name(Pid(9)), "task9");
    assert_eq!(trace.task_name(Pid(2)), "task2");
    assert_eq!(trace.masks, vec!["a".to_string(), "f".to_string()]);
    assert_eq!(trace.futex_texts, vec!["Acquire".to_string()]);
    assert_eq!(trace.warmup_ns, 3 * MS);
}

#[test]
fn an_observer_changes_nothing() {
    let s = || {
        let phases = vec![Phase::Run(3 * MS), Phase::Sleep(2 * MS)];
        let tasks = vec![
            task(1, phases.clone(), RepeatMode::Forever),
            task(2, phases, RepeatMode::Count(3)),
        ];
        scenario(1, tasks, 60 * MS)
    };
    let mut alone = Simulator::new(Fifo::new(1, 2 * MS), false);
    let mut watched = Simulator::new(Fifo::new(1, 2 * MS), false);
    let a = run(&mut alone, s());
    let mut witness = Witness { seen: vec![] };
    let b = match watched.run_monitored(s(), &mut witness) {
        Ok(result) => result,
        Err(why) => panic!("halted: {why:?}"),
    };
    assert_eq!(a.trace.events, b.trace.events);
    assert_eq!(a.clock, b.clock);
    assert_eq!(alone.scheduler.log, watched.scheduler.log);
    assert!(!witness.seen.is_empty());
}
