//! Which model advances the simulated time of a run.
//!
//! Two results can be compared only if the same model made both, so the model
//! travels with the result.

use vstd::prelude::*;

use crate::text::{dec, decimal, plus};

verus! {

/// The model that advances simulated time.
#[derive(Clone, Copy, Debug, PartialEq, Eq, Structural)]
pub enum ClockMode {
    /// A branch counter in the instrumented scheduler. The same everywhere.
    E9patch,
    /// The hardware's branch counter. It depends on the machine.
    Pmu,
    /// The cost of kernel functions, and a least cost of each callback. The
    /// same everywhere.
    Fallback,
    /// Callbacks cost nothing.
    Off,
}

impl ClockMode {
    /// The name of the model.
    pub open spec fn spec_as_str(self) -> Seq<char> {
        match self {
            ClockMode::E9patch => "e9patch"@,
            ClockMode::Pmu => "pmu"@,
            ClockMode::Fallback => "fallback"@,
            ClockMode::Off => "off"@,
        }
    }

    /// The name of the model.
    pub fn as_str(self) -> (r: &'static str)
        ensures
            r@ == self.spec_as_str(),
    {
        match self {
            ClockMode::E9patch => "e9patch",
            ClockMode::Pmu => "pmu",
            ClockMode::Fallback => "fallback",
            ClockMode::Off => "off",
        }
    }

    /// Whether results depend on the machine.
    pub fn is_host_dependent(self) -> (r: bool)
        ensures
            r == (self == ClockMode::Pmu),
    {
        matches!(self, ClockMode::Pmu)
    }

    /// What a run's header says of the model.
    pub open spec fn description(self) -> Seq<char> {
        match self {
            ClockMode::E9patch =>
            "e9patch software branch counter — deterministic, host-independent"@,
            ClockMode::Pmu =>
            "hardware PMU branch counter — HOST-DEPENDENT, not comparable across machines"@,
            ClockMode::Fallback => "kfunc-cost model — deterministic, host-independent"@,
            ClockMode::Off => "scheduler overhead accounting disabled"@,
        }
    }

    /// What a run's header says of the model.
    pub fn describe(self) -> (r: &'static str)
        ensures
            r@ == self.description(),
    {
        match self {
            ClockMode::E9patch =>
            "e9patch software branch counter — deterministic, host-independent",
            ClockMode::Pmu =>
            "hardware PMU branch counter — HOST-DEPENDENT, not comparable across machines",
            ClockMode::Fallback => "kfunc-cost model — deterministic, host-independent",
            ClockMode::Off => "scheduler overhead accounting disabled",
        }
    }
}

/// A run asked for the hardware's counter and got another model.
#[derive(Clone, Copy, Debug, PartialEq, Eq, Structural)]
pub struct Downgrade {
    /// The time per branch that was asked for.
    pub requested_rbc_ns: u64,
    /// The model used instead.
    pub actual: ClockMode,
    /// Whether it was asked for explicitly.
    pub explicit: bool,
}

/// The model of a run.
#[derive(Clone, Copy, Debug, PartialEq, Eq, Structural)]
pub struct ClockDecision {
    pub mode: ClockMode,
    /// Set where the hardware's counter was asked for and is not there.
    pub downgrade: Option<Downgrade>,
}

/// Whether the hardware's counter is asked for.
pub open spec fn asks_for_pmu(rbc_ns: Option<u64>) -> bool {
    rbc_ns is Some && rbc_ns->0 > 0
}

/// The model of a run.
pub open spec fn decided(
    is_e9: bool,
    rbc_ns: Option<u64>,
    pmu_counter_available: bool,
    overhead_enabled: bool,
    explicit: bool,
) -> ClockDecision {
    if is_e9 {
        ClockDecision { mode: ClockMode::E9patch, downgrade: None }
    } else if asks_for_pmu(rbc_ns) && pmu_counter_available {
        ClockDecision { mode: ClockMode::Pmu, downgrade: None }
    } else {
        let mode = if overhead_enabled {
            ClockMode::Fallback
        } else {
            ClockMode::Off
        };
        ClockDecision {
            mode,
            downgrade: if asks_for_pmu(rbc_ns) {
                Some(Downgrade { requested_rbc_ns: rbc_ns->0, actual: mode, explicit })
            } else {
                None
            },
        }
    }
}

/// Decides the model of a run: the instrumented scheduler's counter if there is
/// one, else the hardware's if it is asked for and there, else the cost model
/// if overhead counts.
pub fn decide(
    is_e9: bool,
    rbc_ns: Option<u64>,
    pmu_counter_available: bool,
    overhead_enabled: bool,
    explicit: bool,
) -> (r: ClockDecision)
    ensures
        r == decided(is_e9, rbc_ns, pmu_counter_available, overhead_enabled, explicit),
{
    if is_e9 {
        return ClockDecision { mode: ClockMode::E9patch, downgrade: None };
    }
    let requested: u64 = match rbc_ns {
        Some(ns) => ns,
        None => 0,
    };
    if requested > 0 && pmu_counter_available {
        return ClockDecision { mode: ClockMode::Pmu, downgrade: None };
    }
    let mode = if overhead_enabled {
        ClockMode::Fallback
    } else {
        ClockMode::Off
    };
    let downgrade = if requested > 0 {
        Some(Downgrade { requested_rbc_ns: requested, actual: mode, explicit })
    } else {
        None
    };
    ClockDecision { mode, downgrade }
}

/// A clock is never swapped silently: whoever asks for the hardware's counter
/// gets it, or the instrumented scheduler's, or is told of the downgrade. And
/// whoever does not ask is told of none.
pub proof fn law_no_clock_is_swapped_silently(
    is_e9: bool,
    rbc_ns: Option<u64>,
    pmu_counter_available: bool,
    overhead_enabled: bool,
    explicit: bool,
)
    ensures
        ({
            let d = decided(is_e9, rbc_ns, pmu_counter_available, overhead_enabled, explicit);
            &&& asks_for_pmu(rbc_ns) ==> d.mode == ClockMode::Pmu || d.mode == ClockMode::E9patch
                || d.downgrade is Some
            &&& !asks_for_pmu(rbc_ns) ==> d.downgrade is None
            &&& d.downgrade is Some ==> (d.downgrade->0).actual == d.mode && (
            d.downgrade->0).explicit == explicit
        }),
{
}

/// Only the hardware's counter makes a run depend on the machine, and it is
/// used only where it is there.
pub proof fn law_only_the_counter_depends_on_the_machine(
    is_e9: bool,
    rbc_ns: Option<u64>,
    overhead_enabled: bool,
    explicit: bool,
)
    ensures
        decided(is_e9, rbc_ns, false, overhead_enabled, explicit).mode != ClockMode::Pmu,
        !asks_for_pmu(rbc_ns) ==> decided(is_e9, rbc_ns, true, overhead_enabled, explicit).mode
            == decided(is_e9, rbc_ns, false, overhead_enabled, explicit).mode,
{
}

/// What a downgrade says.
pub open spec fn downgrade_text(d: Downgrade) -> Seq<char> {
    "scxsim: PMU scheduler-overhead accounting was requested (sched_overhead_rbc_ns = "@ + decimal(
        d.requested_rbc_ns as nat,
    )
        + " ns/branch) but no PMU counter could be created on this host, so simulated time was advanced by the '"@
        + d.actual.spec_as_str()
        + "' model instead.\nThis is a DIFFERENT CLOCK, not a slower one: results from this run are not comparable with results produced under '"@
        + ClockMode::Pmu.spec_as_str() + "'."@
}

impl Downgrade {
    /// What the downgrade says.
    pub fn message(&self) -> (r: String)
        ensures
            r@ == downgrade_text(*self),
    {
        let head = plus(
            "scxsim: PMU scheduler-overhead accounting was requested (sched_overhead_rbc_ns = ".to_string(),
            dec(self.requested_rbc_ns).as_str(),
        );
        let why = plus(
            plus(
                head,
                " ns/branch) but no PMU counter could be created on this host, so simulated time was advanced by the '",
            ),
            self.actual.as_str(),
        );
        plus(
            plus(
                plus(
                    why,
                    "' model instead.\nThis is a DIFFERENT CLOCK, not a slower one: results from this run are not comparable with results produced under '",
                ),
                ClockMode::Pmu.as_str(),
            ),
            "'.",
        )
    }
}

/// An instrumented scheduler counts for itself whatever else is asked. Otherwise the
/// hardware counts exactly where a branch has a price and the counter is there; and
/// otherwise the costs of kernel functions count exactly where overhead does. Whoever
/// asked for the hardware's counter and got neither is told what they had asked for.
pub proof fn law_each_clock_has_its_place(
    is_e9: bool,
    rbc_ns: Option<u64>,
    pmu_counter_available: bool,
    overhead_enabled: bool,
    explicit: bool,
)
    ensures
        ({
            let d = decided(is_e9, rbc_ns, pmu_counter_available, overhead_enabled, explicit);
            let asked = rbc_ns is Some && rbc_ns->0 != 0;
            &&& d.mode is E9patch <==> is_e9
            &&& d.mode is Pmu <==> !is_e9 && asked && pmu_counter_available
            &&& d.mode is Fallback <==> !is_e9 && !(asked && pmu_counter_available)
                && overhead_enabled
            &&& d.mode is Off <==> !is_e9 && !(asked && pmu_counter_available)
                && !overhead_enabled
            &&& d.downgrade is Some <==> asked && !is_e9 && !pmu_counter_available
            &&& d.downgrade is Some ==> (d.downgrade->0).requested_rbc_ns == rbc_ns->0
        }),
{
}

/// The models go by names that tell them apart.
pub proof fn law_clocks_go_by_their_names(a: ClockMode, b: ClockMode)
    ensures
        ClockMode::E9patch.spec_as_str() == "e9patch"@,
        ClockMode::Pmu.spec_as_str() == "pmu"@,
        ClockMode::Fallback.spec_as_str() == "fallback"@,
        ClockMode::Off.spec_as_str() == "off"@,
        a.spec_as_str() == b.spec_as_str() ==> a == b,
        a is Pmu <==> a.description() == "hardware PMU branch counter — HOST-DEPENDENT, not comparable across machines"@,
        a is E9patch <==> a.description() == "e9patch software branch counter — deterministic, host-independent"@,
        a is Fallback <==> a.description() == "kfunc-cost model — deterministic, host-independent"@,
        a is Off <==> a.description() == "scheduler overhead accounting disabled"@,
{
    reveal_strlit("e9patch");
    reveal_strlit("pmu");
    reveal_strlit("fallback");
    reveal_strlit("off");
    reveal_strlit("hardware PMU branch counter — HOST-DEPENDENT, not comparable across machines");
    reveal_strlit("e9patch software branch counter — deterministic, host-independent");
    reveal_strlit("kfunc-cost model — deterministic, host-independent");
    reveal_strlit("scheduler overhead accounting disabled");
    assert("e9patch"@[0] == 'e' && "pmu"@[0] == 'p' && "fallback"@[0] == 'f' && "off"@[0] == 'o');
    assert("hardware PMU branch counter — HOST-DEPENDENT, not comparable across machines"@[0]
        == 'h');
    assert("e9patch software branch counter — deterministic, host-independent"@[0] == 'e');
    assert("kfunc-cost model — deterministic, host-independent"@[0] == 'k');
    assert("scheduler overhead accounting disabled"@[0] == 's');
}

/// What a downgrade says names the price that was asked for and the model used instead.
pub proof fn law_downgrades_name_both_clocks(d: Downgrade)
    ensures
        downgrade_text(d)
            == "scxsim: PMU scheduler-overhead accounting was requested (sched_overhead_rbc_ns = "@
            + decimal(d.requested_rbc_ns as nat)
            + " ns/branch) but no PMU counter could be created on this host, so simulated time was advanced by the '"@
            + d.actual.spec_as_str()
            + "' model instead.\nThis is a DIFFERENT CLOCK, not a slower one: results from this run are not comparable with results produced under '"@
            + "pmu"@ + "'."@,
{
}

} // verus!
