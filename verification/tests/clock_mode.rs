use scx_simulator::clock_mode::{decide, ClockMode, Downgrade};

#[test]
fn pmu_when_asked_and_available() {
    let d = decide(false, Some(10), true, true, false);
    assert_eq!(d.mode, ClockMode::Pmu);
    assert_eq!(d.downgrade, None);
}

#[test]
fn asked_for_pmu_but_unavailable_is_a_downgrade_not_a_silent_swap() {
    let d = decide(false, Some(10), false, true, false);
    assert_eq!(d.mode, ClockMode::Fallback);
    let dg = d.downgrade.expect("a swapped clock must be reported");
    assert_eq!(dg.requested_rbc_ns, 10);
    assert_eq!(dg.actual, ClockMode::Fallback);
    assert!(
        !dg.explicit,
        "the Some(10) default is not an explicit request"
    );
    assert!(
        dg.message().contains("DIFFERENT CLOCK"),
        "the message must not read as a fidelity tweak: {}",
        dg.message()
    );
}

#[test]
fn an_explicit_request_is_marked_explicit_so_it_can_hard_fail() {
    let d = decide(false, Some(25), false, true, true);
    assert!(d.downgrade.expect("still a downgrade").explicit);
}

#[test]
fn not_asking_for_the_pmu_is_never_a_downgrade() {
    // --no-rbc (Some(0)) and "disabled" (None) both decline the PMU, so
    // neither can be downgraded from it.
    for rbc in [None, Some(0)] {
        let d = decide(false, rbc, false, true, false);
        assert_eq!(d.mode, ClockMode::Fallback);
        assert_eq!(d.downgrade, None, "rbc_ns={rbc:?} did not ask for the PMU");
    }
}

#[test]
fn e9patch_wins_and_is_not_a_downgrade() {
    // e9patch deliberately supersedes the PMU; reporting that as a
    // downgrade would cry wolf on every instrumented run.
    let d = decide(true, Some(10), true, true, true);
    assert_eq!(d.mode, ClockMode::E9patch);
    assert_eq!(d.downgrade, None);
}

#[test]
fn overhead_disabled_yields_off_not_fallback() {
    let d = decide(false, None, false, false, false);
    assert_eq!(d.mode, ClockMode::Off);
}

#[test]
fn downgrade_to_off_is_still_reported() {
    let d = decide(false, Some(10), false, false, false);
    assert_eq!(d.mode, ClockMode::Off);
    assert_eq!(d.downgrade.expect("reported").actual, ClockMode::Off);
}

#[test]
fn only_pmu_is_host_dependent() {
    assert!(ClockMode::Pmu.is_host_dependent());
    for m in [ClockMode::E9patch, ClockMode::Fallback, ClockMode::Off] {
        assert!(
            !m.is_host_dependent(),
            "{m:?} is computed from the code under simulation, not the host, \
             so it must not be flagged host-dependent"
        );
    }
}

#[test]
fn names_are_stable_and_lowercase() {
    // These strings land in committed artifacts; changing one silently
    // breaks comparison against every previously recorded result.
    assert_eq!(ClockMode::E9patch.as_str(), "e9patch");
    assert_eq!(ClockMode::Pmu.as_str(), "pmu");
    assert_eq!(ClockMode::Fallback.as_str(), "fallback");
    assert_eq!(ClockMode::Off.as_str(), "off");
}

#[test]
fn describe_warns_for_the_host_dependent_mode_only() {
    assert!(ClockMode::Pmu.describe().contains("HOST-DEPENDENT"));
    for m in [ClockMode::E9patch, ClockMode::Fallback, ClockMode::Off] {
        assert!(!m.describe().contains("HOST-DEPENDENT"));
    }
}

#[test]
fn a_downgrade_names_the_models() {
    let d = Downgrade {
        requested_rbc_ns: 25,
        actual: ClockMode::Fallback,
        explicit: true,
    };
    assert_eq!(
        d.message(),
        "scxsim: PMU scheduler-overhead accounting was requested \
         (sched_overhead_rbc_ns = 25 ns/branch) but no PMU counter could be \
         created on this host, so simulated time was advanced by the 'fallback' \
         model instead.\n\
         This is a DIFFERENT CLOCK, not a slower one: results from this run \
         are not comparable with results produced under 'pmu'."
    );
}
