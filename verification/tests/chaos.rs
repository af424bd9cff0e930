use scx_simulator::chaos::{
    break_on_name, build_scenario, classify, noise_config, parse_args, parse_break_on, parse_mode,
    parse_scenario, Args, ChaosError, ChaosMode, ChaosRequest, ScenarioKind, CHAOS_WATCHDOG_NS,
};
use scx_simulator::lifecycle::is_runnable;
use scx_simulator::scenario::{
    BandwidthDef, IrqType, NoiseConfig, OverheadConfig, Phase, PmuEvent, PreemptMode, RepeatMode,
    Scenario,
};
use scx_simulator::trace::ExitKind;
use scx_simulator::types::{CpuId, Pid};

fn parse(words: &[&str]) -> Result<ChaosRequest, String> {
    let raw: Vec<String> = words.iter().map(|w| w.to_string()).collect();
    parse_args(&raw).map_err(|e| e.text())
}

fn args(words: &[&str]) -> Args {
    match parse(words) {
        Ok(ChaosRequest::Run(a)) => a,
        other => panic!("{other:?}"),
    }
}

fn plain() -> Scenario {
    Scenario {
        nr_cpus: 1,
        smt_threads_per_core: 1,
        cpus_per_llc: 0,
        tasks: vec![],
        cgroups: vec![],
        max_cgroups: 8,
        seed: 0,
        fixed_priority: false,
        duration_ns: 0,
        warmup_ns: 0,
        watchdog_timeout_ns: None,
        ignore_bpf_errors: true,
        noise: NoiseConfig {
            enabled: true,
            run_jitter: true,
            run_jitter_cv_ppm: 0,
            tick_jitter_stddev_ns: 0,
            initial_tick_skew_ns: 0,
        },
        overhead: OverheadConfig {
            enabled: true,
            wakeup_latency_floor_ns: 0,
            migration_penalty_ns: 0,
            cross_llc_migration_penalty_ns: 0,
        },
        sched_overhead_rbc_ns: None,
        interleave: false,
        stochastic_timer_interleave: false,
        stochastic_timer_interleave_window_ns: 0,
        stochastic_timer_interleave_one_in: 0,
        preemptive: None,
        native_concurrent: None,
        wait_debugger: false,
        no_pmu_signal: false,
        hotplug_events: vec![],
        cpu_preempt_events: vec![],
        cgroup_migrate_events: vec![],
        cgroup_create_events: vec![],
        cgroup_destroy_events: vec![],
        cgroup_cpuset_change_events: vec![],
        irq_events: vec![],
        futex_events: vec![],
        futex_texts: vec![],
    }
}

#[test]
fn defaults_stand_where_nothing_is_said() {
    assert_eq!(
        args(&[]),
        Args {
            scenario: ScenarioKind::Throttle,
            mode: ChaosMode::Off,
            seed: 42,
            cpus: 4,
            tasks: 8,
            duration_ms: 100,
            window_ns: 10_000_000,
            timeslice_min: 300,
            timeslice_max: 1500,
            break_on: PmuEvent::RetiredBranchConditional,
            fixed_priority: false,
            tick_jitter_stddev_ns: 2_000,
            initial_tick_skew_ns: 0,
            run_jitter_cv_ppm: 200_000,
            max_cgroups: 10_000,
            expect_cgroup_exhausted: false,
        }
    );
}

#[test]
fn every_flag_is_read() {
    let a = args(&[
        "--scenario", "churn", "--mode", "preemptive", "--break-on", "insn", "--seed", "7", "--cpus",
        "3", "--tasks", "11", "--max-cgroups", "12", "--duration-ms", "13", "--window-ns", "14",
        "--timeslice-min", "15", "--timeslice-max", "16", "--tick-jitter-stddev-ns", "17",
        "--initial-tick-skew-ns", "18", "--run-jitter-cv-ppm", "19", "--fixed-priority",
        "--expect-cgroup-exhausted",
    ]);
    assert_eq!(
        a,
        Args {
            scenario: ScenarioKind::Churn,
            mode: ChaosMode::Preemptive,
            seed: 7,
            cpus: 3,
            tasks: 11,
            duration_ms: 13,
            window_ns: 14,
            timeslice_min: 15,
            timeslice_max: 16,
            break_on: PmuEvent::InstructionsRetired,
            fixed_priority: true,
            tick_jitter_stddev_ns: 17,
            initial_tick_skew_ns: 18,
            run_jitter_cv_ppm: 19,
            max_cgroups: 12,
            expect_cgroup_exhausted: true,
        }
    );
}

#[test]
fn each_mistake_is_told() {
    let said = |words: &[&str]| parse(words).err().unwrap();
    assert_eq!(said(&["--seed"]), "--seed requires a value");
    assert_eq!(
        said(&["--seed", "x"]),
        "--seed: failed to parse \"x\": invalid digit found in string"
    );
    assert_eq!(
        said(&["--cpus", "4294967296"]),
        "--cpus: failed to parse \"4294967296\": number too large to fit in target type"
    );
    for v in ["", "-1", "+", "1x", "18446744073709551616", "99999999999999999999x"] {
        let e = v.parse::<u64>().err().unwrap();
        assert_eq!(
            said(&["--window-ns", v]),
            format!("--window-ns: failed to parse {v:?}: {e}")
        );
        let e = v.parse::<u32>().err().unwrap();
        assert_eq!(said(&["--tasks", v]), format!("--tasks: failed to parse {v:?}: {e}"));
    }
    assert_eq!(said(&["--scenario", "z"]), "unknown scenario: z");
    assert_eq!(said(&["--mode", "z"]), "unknown mode: z");
    assert_eq!(said(&["--break-on", "z"]), "unknown --break-on value: z");
    assert_eq!(said(&["--what"]), "unknown flag: --what");
    assert_eq!(
        said(&["--timeslice-min", "9", "--timeslice-max", "8"]),
        "--timeslice-max must be >= --timeslice-min"
    );
    assert!(matches!(
        parse_args(&vec!["--what".to_string()]),
        Err(ChaosError::UnknownFlag(f)) if f == "--what"
    ));
}

#[test]
fn help_wins_over_what_follows() {
    assert_eq!(parse(&["--cpus", "2", "--help", "--what"]), Ok(ChaosRequest::Help));
    assert_eq!(parse(&["-h"]), Ok(ChaosRequest::Help));
    assert!(parse(&["--what", "-h"]).is_err());
}

#[test]
fn names_are_read() {
    assert_eq!(parse_scenario("throttle"), Some(ScenarioKind::Throttle));
    assert_eq!(parse_scenario("r3-like"), Some(ScenarioKind::R3Like));
    assert_eq!(parse_scenario("lifecycle"), Some(ScenarioKind::Lifecycle));
    assert_eq!(parse_scenario("enomem"), Some(ScenarioKind::Enomem));
    assert_eq!(parse_scenario("Churn"), None);
    assert_eq!(parse_mode("off"), Some(ChaosMode::Off));
    assert_eq!(parse_mode("cooperative"), Some(ChaosMode::Cooperative));
    assert_eq!(parse_mode("native-concurrent"), Some(ChaosMode::NativeConcurrent));
    assert_eq!(parse_mode("native"), None);
    for e in [PmuEvent::RetiredBranchConditional, PmuEvent::InstructionsRetired] {
        assert_eq!(parse_break_on(break_on_name(e)), Some(e));
    }
}

#[test]
fn outcomes_are_classified() {
    let full = ExitKind::ErrorCgroupExhausted {
        cgroup_name: "x".to_string(),
        active_count: 1,
        max_cgroups: 1,
    };
    assert_eq!(classify(true, &full), "expected_cgroup_exhausted");
    assert_eq!(classify(false, &full), "sim_error");
    assert_eq!(classify(true, &ExitKind::Normal), "pass");
    assert_eq!(classify(false, &ExitKind::ErrorBpf("e".to_string())), "sim_error");
}

#[test]
fn throttled_tasks_share_a_tight_limit() {
    let s = build_scenario(plain(), &args(&["--tasks", "1", "--cpus", "2"]));
    assert!(is_runnable(&s));
    assert_eq!(s.nr_cpus, 2);
    assert_eq!(s.duration_ns, 100_000_000);
    assert_eq!(s.watchdog_timeout_ns, Some(CHAOS_WATCHDOG_NS));
    assert!(!s.ignore_bpf_errors);
    assert!(!s.interleave);
    assert_eq!(s.max_cgroups, 10_000);
    assert_eq!(s.cgroups.len(), 1);
    assert_eq!(s.cgroups[0].cpuset, Some(vec![CpuId(0), CpuId(1)]));
    assert_eq!(
        s.cgroups[0].bandwidth,
        Some(BandwidthDef { period_us: 10_000, quota_us: 2_000, burst_us: 0 })
    );
    assert_eq!(s.tasks.len(), 2);
    assert_eq!(s.tasks[1].pid, Pid(2));
    assert_eq!(s.tasks[1].name, "hog-1");
    assert_eq!(s.tasks[1].behavior.phases, vec![Phase::Run(100_000_000)]);
    assert_eq!(s.tasks[1].behavior.repeat, RepeatMode::Forever);
    assert_eq!(s.tasks[1].cgroup_name, Some("limited".to_string()));
}

#[test]
fn round_trips_and_interrupts() {
    let s = build_scenario(
        plain(),
        &args(&["--scenario", "r3-like", "--tasks", "2", "--cpus", "2", "--duration-ms", "8"]),
    );
    assert!(is_runnable(&s));
    let moves: Vec<(u64, i32, &str)> = s
        .cgroup_migrate_events
        .iter()
        .map(|m| (m.at_ns, m.pid.0, m.to_cgroup.as_str()))
        .collect();
    assert_eq!(
        moves,
        vec![
            (25_050_000, 1, "unlimited"),
            (45_050_000, 1, "limited"),
            (25_100_000, 2, "unlimited"),
            (45_100_000, 2, "limited"),
        ]
    );
    let irqs: Vec<(u64, u32, u64)> =
        s.irq_events.iter().map(|i| (i.at_ns, i.cpu.0, i.duration_ns)).collect();
    assert_eq!(
        irqs,
        vec![
            (5_000_000, 0, 25_000),
            (7_000_000, 0, 25_000),
            (5_250_000, 1, 25_000),
            (7_250_000, 1, 25_000),
        ]
    );
    assert!(s.irq_events.iter().all(|i| i.irq_type == IrqType::SoftIrq));
}

#[test]
fn churning_tasks_go_round() {
    let s = build_scenario(plain(), &args(&["--scenario", "churn", "--tasks", "20"]));
    assert!(is_runnable(&s));
    assert_eq!(s.cgroups.len(), 5);
    assert_eq!(s.tasks[7].cgroup_name, Some("group_2".to_string()));
    assert_eq!(s.cgroup_migrate_events.len(), 400);
    let m = &s.cgroup_migrate_events[20 + 4];
    assert_eq!((m.at_ns, m.pid), (15_000_000, Pid(5)));
    assert_eq!((m.from_cgroup.as_str(), m.to_cgroup.as_str()), ("group_0", "group_1"));
}

#[test]
fn short_lived_groups_end() {
    let s = build_scenario(plain(), &args(&["--scenario", "lifecycle", "--tasks", "1"]));
    assert!(is_runnable(&s));
    assert_eq!(s.tasks.len(), 1);
    assert_eq!(s.cgroup_create_events.len(), 8);
    assert_eq!(s.cgroup_destroy_events.len(), 8);
    for (b, e) in s.cgroup_create_events.iter().zip(&s.cgroup_destroy_events) {
        assert_eq!(b.name, e.name);
        assert_eq!(b.at_ns + 8_000_000, e.at_ns);
    }
    assert_eq!(s.cgroup_create_events[5].name, "cycle1_1");
    assert_eq!(s.cgroup_create_events[5].at_ns, 16_000_000);
}

#[test]
fn enomem_has_no_room() {
    let s = build_scenario(plain(), &args(&["--scenario", "enomem", "--tasks", "3"]));
    assert!(is_runnable(&s));
    assert_eq!(s.max_cgroups, 16);
    assert_eq!(s.cgroup_create_events.len(), 20);
    assert_eq!(s.cgroup_create_events[19].name, "container_19");
    assert_eq!(s.cgroup_create_events[19].at_ns, 19_000_000);
    let s = build_scenario(plain(), &args(&["--scenario", "enomem", "--max-cgroups", "5"]));
    assert_eq!(s.max_cgroups, 5);
}

#[test]
fn modes_choose_the_interleaving() {
    let s = build_scenario(plain(), &args(&["--mode", "cooperative"]));
    assert!(s.interleave && s.preemptive.is_none() && s.native_concurrent.is_none());
    let s = build_scenario(plain(), &args(&["--mode", "preemptive"]));
    let p = s.preemptive.unwrap();
    assert_eq!((p.timeslice_min, p.timeslice_max), (300, 1500));
    assert_eq!(p.preempt_mode, PreemptMode::Pmu);
    assert!(s.interleave && !p.cooperative_only);
    let s = build_scenario(plain(), &args(&["--mode", "native-concurrent", "--window-ns", "5"]));
    assert_eq!(s.native_concurrent.unwrap().window_ns, 5);
}

#[test]
fn noise_is_what_was_asked_for() {
    let a = args(&["--run-jitter-cv-ppm", "5", "--initial-tick-skew-ns", "6"]);
    let n = noise_config(plain().noise, &a);
    assert_eq!(n.run_jitter_cv_ppm, 5);
    assert_eq!(n.initial_tick_skew_ns, 6);
    assert_eq!(n.tick_jitter_stddev_ns, 2_000);
    assert!(n.enabled && n.run_jitter);
    assert_eq!(build_scenario(plain(), &a).noise, n);
}
