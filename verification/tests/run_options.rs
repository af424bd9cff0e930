use scx_simulator::run_options::{
    apply_overrides, print_exit_marker, BreakOn, PreemptModeArg, RunOptions, TraceFormat,
    WrittenDuration,
};
use scx_simulator::scenario::{
    NativeConcurrentConfig, NoiseConfig, OverheadConfig, PmuEvent, PreemptMode, PreemptiveConfig,
    Scenario,
};
use scx_simulator::trace::ExitKind;
use scx_simulator::types::{CpuId, Pid};

fn scenario() -> Scenario {
    Scenario {
        nr_cpus: 4,
        smt_threads_per_core: 1,
        cpus_per_llc: 0,
        tasks: vec![],
        cgroups: vec![],
        max_cgroups: 8,
        seed: 5,
        fixed_priority: false,
        duration_ns: 1_000,
        warmup_ns: 3,
        watchdog_timeout_ns: Some(30),
        ignore_bpf_errors: false,
        noise: NoiseConfig {
            enabled: true,
            run_jitter: true,
            run_jitter_cv_ppm: 1,
            tick_jitter_stddev_ns: 2,
            initial_tick_skew_ns: 3,
        },
        overhead: OverheadConfig {
            enabled: true,
            wakeup_latency_floor_ns: 1,
            migration_penalty_ns: 2,
            cross_llc_migration_penalty_ns: 3,
        },
        sched_overhead_rbc_ns: Some(10),
        interleave: false,
        stochastic_timer_interleave: false,
        stochastic_timer_interleave_window_ns: 77,
        stochastic_timer_interleave_one_in: 9,
        preemptive: None,
        native_concurrent: None,
        wait_debugger: false,
        no_pmu_signal: false,
        hotplug_events: vec![],
        cpu_preempt_events: vec![],
        cgroup_migrate_events: vec![],
        cgroup_create_events: vec![],
        cgroup_destroy_events: vec![],
        cgroup_cpuset_change_events: vec![],
        irq_events: vec![],
        futex_events: vec![],
        futex_texts: vec![],
    }
}

fn written(text: &str, ns: u64) -> WrittenDuration {
    WrittenDuration { text: text.to_string(), read: Ok(ns) }
}

fn misread(text: &str) -> WrittenDuration {
    WrittenDuration { text: text.to_string(), read: Err(format!("bad duration {text}")) }
}

fn options() -> RunOptions {
    RunOptions {
        smt: 1,
        no_noise: false,
        no_overhead: false,
        seed: None,
        fixed_priority: false,
        interleave: false,
        stochastic_timer_interleave: false,
        stochastic_window: written("100us", 100_000),
        stochastic_one_in: 8,
        preemptive: false,
        timeslice_min: 100,
        timeslice_max: 1_000,
        break_on: BreakOn::Rbc,
        preempt_mode: PreemptModeArg::Pmu,
        native_concurrent: false,
        window_ns: 50_000,
        end_time: None,
        rbc_ns: None,
        no_rbc: false,
        watchdog_timeout: None,
        warmup_ms: None,
        wait_debugger: false,
    }
}

fn applied(o: &RunOptions) -> Scenario {
    apply_overrides(scenario(), o).unwrap()
}

#[test]
fn no_options_change_nothing() {
    assert_eq!(applied(&options()), scenario());
}

#[test]
fn every_option_has_its_effect() {
    let mut o = options();
    o.smt = 2;
    o.no_noise = true;
    o.no_overhead = true;
    o.seed = Some(99);
    o.fixed_priority = true;
    o.stochastic_timer_interleave = true;
    o.stochastic_one_in = 0;
    o.end_time = Some(written("2s", 2_000_000_000));
    o.rbc_ns = Some(3);
    o.watchdog_timeout = Some(written("5s", 5_000_000_000));
    o.warmup_ms = Some(7);
    o.wait_debugger = true;
    let s = applied(&o);
    let mut expected = scenario();
    expected.smt_threads_per_core = 2;
    expected.noise.enabled = false;
    expected.overhead.enabled = false;
    expected.seed = 99;
    expected.fixed_priority = true;
    expected.stochastic_timer_interleave = true;
    expected.stochastic_timer_interleave_window_ns = 100_000;
    expected.stochastic_timer_interleave_one_in = 1;
    expected.duration_ns = 2_000_000_000;
    expected.sched_overhead_rbc_ns = Some(3);
    expected.watchdog_timeout_ns = Some(5_000_000_000);
    expected.warmup_ns = 7_000_000;
    expected.wait_debugger = true;
    assert_eq!(s, expected);
}

#[test]
fn concurrency_brings_interleaving() {
    let mut o = options();
    o.preemptive = true;
    o.break_on = BreakOn::Insn;
    o.preempt_mode = PreemptModeArg::E9patch;
    let s = applied(&o);
    assert!(s.interleave);
    assert_eq!(
        s.preemptive,
        Some(PreemptiveConfig {
            timeslice_min: 100,
            timeslice_max: 1_000,
            cooperative_only: false,
            break_on: PmuEvent::InstructionsRetired,
            preempt_mode: PreemptMode::E9patch,
        })
    );
    let mut o = options();
    o.native_concurrent = true;
    let s = applied(&o);
    assert!(s.interleave);
    assert_eq!(s.native_concurrent, Some(NativeConcurrentConfig { window_ns: 50_000 }));
    let mut o = options();
    o.interleave = true;
    assert!(applied(&o).interleave);
}

#[test]
fn the_watchdog_can_be_turned_off() {
    for text in ["off", " OFF ", "None", "0"] {
        let mut o = options();
        o.watchdog_timeout = Some(misread(text));
        assert_eq!(applied(&o).watchdog_timeout_ns, None, "{text}");
    }
    let mut o = options();
    o.watchdog_timeout = Some(written("0ms", 0));
    assert_eq!(applied(&o).watchdog_timeout_ns, None);
}

#[test]
fn turning_branch_costs_off_wins() {
    let mut o = options();
    o.rbc_ns = Some(4);
    o.no_rbc = true;
    assert_eq!(applied(&o).sched_overhead_rbc_ns, Some(0));
}

#[test]
fn unreadable_durations_are_named() {
    let mut o = options();
    o.end_time = Some(misread("soon"));
    assert_eq!(
        apply_overrides(scenario(), &o).err(),
        Some("--end-time: bad duration soon".to_string())
    );
    let mut o = options();
    o.watchdog_timeout = Some(misread("later"));
    assert_eq!(
        apply_overrides(scenario(), &o).err(),
        Some("--watchdog-timeout: bad duration later".to_string())
    );
    let mut o = options();
    o.stochastic_timer_interleave = true;
    o.stochastic_window = misread("x");
    o.end_time = Some(misread("soon"));
    assert_eq!(
        apply_overrides(scenario(), &o).err(),
        Some("--stochastic-timer-interleave-window: bad duration x".to_string())
    );
    // A window that is not used need not be readable.
    let mut o = options();
    o.stochastic_window = misread("x");
    assert!(apply_overrides(scenario(), &o).is_ok());
}

#[test]
fn endings_are_marked() {
    assert_eq!(print_exit_marker(&ExitKind::Normal), None);
    assert_eq!(
        print_exit_marker(&ExitKind::ErrorStall { pid: Pid(-3), runnable_for_ns: 30_000 }),
        Some("scxsim: ExitKind::ErrorStall pid=-3 runnable_for_ns=30000".to_string())
    );
    assert_eq!(
        print_exit_marker(&ExitKind::ErrorBpf("bad dsq".to_string())),
        Some("scxsim: ExitKind::ErrorBpf bad dsq".to_string())
    );
    assert_eq!(
        print_exit_marker(&ExitKind::ErrorDispatchLoopExhausted { cpu: CpuId(2) }),
        Some("scxsim: ExitKind::ErrorDispatchLoopExhausted cpu=2".to_string())
    );
    assert_eq!(
        print_exit_marker(&ExitKind::ErrorCgroupExhausted {
            cgroup_name: "a \"b\"\n".to_string(),
            active_count: 4,
            max_cgroups: 3,
        }),
        Some(
            "scxsim: ExitKind::ErrorCgroupExhausted cgroup_name=\"a \\\"b\\\"\\n\" \
             active_count=4 max_cgroups=3"
                .to_string()
        )
    );
}

#[test]
fn formats_have_labels() {
    assert_eq!(TraceFormat::Json.label(), "chrome-json");
    assert_eq!(TraceFormat::Perfetto.label(), "wprof-perfetto-pb");
}
