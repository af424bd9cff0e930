use scx_simulator::backend::{
    drain_structop_accum, find_mailbox, parse_mailbox_range, StructopDelta, WorkerStage,
    E9_MAILBOX_MAGIC,
};
use scx_simulator::replay::{
    plan_replay, print_determinism_failure, replay_params, replay_scenario, rip_offsets,
    scenario_metadata, CheckpointDivergence, DeterminismCheckpoint, ReplayParams, ReplaySteps,
    TraceMetadata,
};
use scx_simulator::run_options::PreemptModeArg;
use scx_simulator::scenario::{
    NoiseConfig, OverheadConfig, Phase, PmuEvent, PreemptMode, PreemptiveConfig, RepeatMode,
    Scenario,
};
use scx_simulator::state::{OpsTaskState, RbcStats, SimTask, TaskState};
use scx_simulator::summary::{print_preemption_stats, summarize, RunSummary};
use scx_simulator::trace::{TraceEvent, TraceKind};
use scx_simulator::types::{CpuId, Pid};

fn plain() -> Scenario {
    Scenario {
        nr_cpus: 1,
        smt_threads_per_core: 1,
        cpus_per_llc: 0,
        tasks: vec![],
        cgroups: vec![],
        max_cgroups: 8,
        seed: 0,
        fixed_priority: false,
        duration_ns: 9,
        warmup_ns: 0,
        watchdog_timeout_ns: None,
        ignore_bpf_errors: false,
        noise: NoiseConfig {
            enabled: false,
            run_jitter: false,
            run_jitter_cv_ppm: 0,
            tick_jitter_stddev_ns: 0,
            initial_tick_skew_ns: 0,
        },
        overhead: OverheadConfig {
            enabled: false,
            wakeup_latency_floor_ns: 0,
            migration_penalty_ns: 0,
            cross_llc_migration_penalty_ns: 0,
        },
        sched_overhead_rbc_ns: None,
        interleave: false,
        stochastic_timer_interleave: false,
        stochastic_timer_interleave_window_ns: 0,
        stochastic_timer_interleave_one_in: 0,
        preemptive: None,
        native_concurrent: None,
        wait_debugger: false,
        no_pmu_signal: false,
        hotplug_events: vec![],
        cpu_preempt_events: vec![],
        cgroup_migrate_events: vec![],
        cgroup_create_events: vec![],
        cgroup_destroy_events: vec![],
        cgroup_cpuset_change_events: vec![],
        irq_events: vec![],
        futex_events: vec![],
        futex_texts: vec![],
    }
}

fn recorded() -> ReplayParams {
    ReplayParams {
        nr_cpus: 2,
        nr_tasks: 3,
        seed: 4,
        duration_ns: 5,
        timeslice_min: 6,
        timeslice_max: 7,
    }
}

#[test]
fn recordings_can_be_replayed() {
    let s = replay_scenario(
        plain(),
        &recorded(),
        PmuEvent::InstructionsRetired,
        PreemptModeArg::E9patch,
        true,
        false,
    );
    assert_eq!((s.nr_cpus, s.seed, s.duration_ns), (2, 4, 5));
    assert!(s.interleave && s.no_pmu_signal && !s.wait_debugger);
    assert_eq!(
        s.preemptive,
        Some(PreemptiveConfig {
            timeslice_min: 6,
            timeslice_max: 7,
            cooperative_only: false,
            break_on: PmuEvent::InstructionsRetired,
            preempt_mode: PreemptMode::E9patch,
        })
    );
    assert_eq!(s.tasks.len(), 3);
    assert_eq!(s.tasks[2].pid, Pid(3));
    assert_eq!(s.tasks[2].name, "task-2");
    assert_eq!(s.tasks[2].behavior.phases, vec![Phase::Run(10_000_000)]);
    assert_eq!(s.tasks[2].behavior.repeat, RepeatMode::Forever);
    let m = scenario_metadata(&s, "lavd".to_string(), 8, Some("/x.so".to_string()));
    assert_eq!(replay_params(&m), Ok(recorded()));
    assert_eq!(m.so_hash, Some(8));
    assert_eq!(m.scheduler, Some("lavd".to_string()));
}

#[test]
fn what_is_missing_is_named_in_order() {
    let full = || TraceMetadata {
        nr_cpus: Some(2),
        nr_tasks: Some(3),
        seed: Some(4),
        duration_ns: Some(5),
        scheduler: None,
        timeslice_min: Some(6),
        timeslice_max: Some(7),
        so_hash: None,
        so_path: None,
    };
    assert_eq!(replay_params(&full()), Ok(recorded()));
    let said = |m: TraceMetadata| replay_params(&m).err().unwrap();
    let mut m = full();
    m.seed = None;
    m.timeslice_max = None;
    assert_eq!(said(m), "trace file missing required metadata: seed");
    for what in ["nr_cpus", "nr_tasks", "duration_ns", "timeslice_min", "timeslice_max"] {
        let mut m = full();
        match what {
            "nr_cpus" => m.nr_cpus = None,
            "nr_tasks" => m.nr_tasks = None,
            "duration_ns" => m.duration_ns = None,
            "timeslice_min" => m.timeslice_min = None,
            _ => m.timeslice_max = None,
        }
        assert_eq!(said(m), format!("trace file missing required metadata: {what}"));
    }
    // A run without preemption leaves no timeslices.
    let m = scenario_metadata(&plain(), "simple".to_string(), 0, None);
    assert_eq!(m.so_hash, None);
    assert_eq!(said(m), "trace file missing required metadata: timeslice_min");
}

#[test]
fn replays_are_planned() {
    let plan = |mode, event, given| plan_replay(mode, event, given);
    let nothing = ReplaySteps {
        map_counter: false,
        map_targets: false,
        derive_variant: false,
        create_variant: false,
    };
    let branches = PmuEvent::RetiredBranchConditional;
    let instructions = PmuEvent::InstructionsRetired;
    assert_eq!(plan(PreemptModeArg::Pmu, branches, false), nothing);
    assert_eq!(plan(PreemptModeArg::Pmu, instructions, false), nothing);
    assert_eq!(
        plan(PreemptModeArg::E9patch, branches, false),
        ReplaySteps { map_counter: true, derive_variant: true, ..nothing }
    );
    assert_eq!(
        plan(PreemptModeArg::E9patch, branches, true),
        ReplaySteps { map_counter: true, ..nothing }
    );
    assert_eq!(
        plan(PreemptModeArg::E9patch, instructions, false),
        ReplaySteps {
            map_counter: true,
            map_targets: true,
            derive_variant: false,
            create_variant: true,
        }
    );
}

#[test]
fn addresses_become_offsets() {
    assert_eq!(rip_offsets(&vec![0x1010, 0x500, 0x1020], 0x1000), Ok(vec![0x10, 0x20]));
    let said = rip_offsets(&vec![], 0x1000).err().unwrap();
    assert!(said.starts_with("e9patch RIP mode: no non-zero RIPs"));
    let said = rip_offsets(&vec![0x500], 0x1000).err().unwrap();
    assert!(said.starts_with("e9patch RIP mode: no RIPs within"));
    assert!(rip_offsets(&vec![0x500], 0).is_err());
}

#[test]
fn differences_are_told() {
    let at = |event: &str, cpu, rip, rbc, hash| DeterminismCheckpoint {
        event: event.to_string(),
        cpu_id: CpuId(cpu),
        instruction_pointer: rip,
        rbc_count: rbc,
        memory_hash: hash,
    };
    let d = CheckpointDivergence {
        checkpoint_index: 12,
        expected: at("Dispatch", 0, 0x10, 5, 0xab),
        actual: at("Enqueue", 1, 0x10, 6, 0xab),
    };
    assert_eq!(
        print_determinism_failure("42", &d),
        "DETERMINISM FAILURE at seed 42:\n  Divergence at checkpoint 12 (Dispatch event):\n    \
         RIP: 0x10 vs 0x10 (match)\n    RBC: 5 vs 6 (MISMATCH)\n    Memory hash: 0xab vs 0xab \
         (match)\n    Event: Dispatch vs Enqueue (MISMATCH)\n    CPU: 0 vs 1 (MISMATCH)\n"
    );
    let d = CheckpointDivergence {
        checkpoint_index: 0,
        expected: at("Tick", 0, 1, 2, 3),
        actual: at("Tick", 0, 1, 2, 4),
    };
    assert!(!print_determinism_failure("7", &d).contains("Event:"));
}

#[test]
fn costs_are_added_to_their_cpu() {
    let zero = StructopDelta { rbc_total: 0, interleave_count: 0 };
    let mut accounts = vec![zero, StructopDelta { rbc_total: 5, interleave_count: 1 }];
    let delta = StructopDelta { rbc_total: 10, interleave_count: 2 };
    drain_structop_accum(&mut accounts, CpuId(1), &delta);
    drain_structop_accum(&mut accounts, CpuId(2), &delta);
    assert_eq!(accounts, vec![zero, StructopDelta { rbc_total: 15, interleave_count: 3 }]);
}

#[test]
fn workers_go_through_their_stages() {
    let walk = |has_target: bool| {
        let mut stage = WorkerStage::Setup;
        let mut seen: Vec<WorkerStage> = vec![stage];
        while stage != WorkerStage::Done {
            stage = stage.next(has_target);
            seen.push(stage);
        }
        seen
    };
    let armed = walk(true);
    assert_eq!(armed.len(), 12);
    assert_eq!(armed[3], WorkerStage::Arm);
    let free = walk(false);
    assert_eq!(free.len(), 11);
    assert!(!free.contains(&WorkerStage::Arm));
    assert_eq!(WorkerStage::Done.next(true), WorkerStage::Done);
}

#[test]
fn mailboxes_are_looked_for_in_writable_parts() {
    let line = "7f0000001000-7f0000002000 rw-p 00000000 08:01 42 /x/libscx_lavd_e9.so";
    assert_eq!(parse_mailbox_range(line), Some((0x7f0000001000, 0x7f0000002000)));
    assert_eq!(parse_mailbox_range(&line.replace("rw-p", "r-xp")), None);
    assert_eq!(parse_mailbox_range(&line.replace("_e9.so", ".so")), None);
    assert_eq!(parse_mailbox_range("7f10-7f20 rw-p x_e9.so"), None);
    assert_eq!(parse_mailbox_range("zz-7f20 rw-p x_e9.so"), None);
    assert_eq!(parse_mailbox_range("x_e9.so"), None);
    assert_eq!(find_mailbox(&vec![1, E9_MAILBOX_MAGIC, 3, E9_MAILBOX_MAGIC]), Some(1));
    assert_eq!(find_mailbox(&vec![1, 2]), None);
}

fn task(pid: i32, state: TaskState) -> SimTask {
    SimTask {
        pid: Pid(pid),
        def: 0,
        state,
        prev_cpu: CpuId(0),
        run_remaining_ns: 0,
        runnable_at_ns: None,
        enqueued_at_ns: None,
        sum_exec_base: 0,
        enabled: true,
        ops_state: OpsTaskState::Free,
        cgid: None,
        phase: 0,
        rounds: 0,
    }
}

fn event(time_ns: u64, kind: TraceKind) -> TraceEvent {
    TraceEvent { time_ns, cpu: CpuId(0), kind }
}

#[test]
fn runs_are_summarized() {
    let events = vec![
        event(1, TraceKind::TaskScheduled { pid: Pid(1) }),
        event(2, TraceKind::TaskScheduled { pid: Pid(2) }),
        event(3, TraceKind::TaskCompleted { pid: Pid(1) }),
        event(4, TraceKind::TaskScheduled { pid: Pid(3) }),
        event(5, TraceKind::TaskPreempted { pid: Pid(3) }),
        event(6, TraceKind::TaskSlept { pid: Pid(2) }),
        event(7, TraceKind::TaskSlept { pid: Pid(2) }),
    ];
    let tasks = vec![
        task(1, TaskState::Exited),
        task(2, TaskState::Sleeping),
        task(3, TaskState::Runnable),
        task(4, TaskState::Running { cpu: CpuId(0) }),
    ];
    let s = summarize(&events, &tasks);
    assert_eq!(
        s,
        RunSummary {
            total_tasks: 4,
            tasks_alive: 3,
            tasks_runnable: 2,
            max_running: 2,
            total_slices: 3,
            completed: 1,
            all_completed_at: None,
        }
    );
    assert_eq!(
        s.text("7ns", "-", None),
        "\nSimulation complete:\n  Logical time elapsed:   7ns\n  Total tasks:            4\n  \
         Max concurrent running: 2\n  Total time slices:      3\n  Tasks at end:           3 \
         alive, 2 runnable\n  Tasks completed:        1/4\n"
    );
}

#[test]
fn the_last_completion_is_told() {
    let events = vec![
        event(1, TraceKind::TaskScheduled { pid: Pid(1) }),
        event(30, TraceKind::TaskCompleted { pid: Pid(1) }),
    ];
    let s = summarize(&events, &vec![task(1, TaskState::Exited)]);
    assert_eq!(s.all_completed_at, Some(30));
    let with_share = s.text("100ns", "30ns", Some("30.0"));
    assert!(with_share.ends_with("  All tasks completed:    30ns (30.0% of simulation)\n"));
    assert!(s.text("0ns", "30ns", None).ends_with("  All tasks completed:    30ns\n"));
}

#[test]
fn long_stretches_are_told() {
    let stats = RbcStats { longest_structop_rbc: 20, longest_rbc_interval: 7 };
    assert_eq!(
        print_preemption_stats(&stats, 500),
        Some(
            "\nPreemption stats:\n  longest_structop_rbc:    20\n  longest_rbc_interval:    7  \
             (between kfuncs)\n  REPLAY_MARGIN:           500\n"
                .to_string()
        )
    );
    let none = RbcStats { longest_structop_rbc: 0, longest_rbc_interval: 7 };
    assert_eq!(print_preemption_stats(&none, 500), None);
}
