//! Migration of a layer's tasks between nodes.

use vstd::prelude::*;

use crate::layered::Double;

verus! {

/// The budgets of migrations between nodes, from each node to each.
pub struct XnumaRates {
    pub rates: Vec<Vec<u64>>,
}

/// What was measured of a layer on a node.
#[derive(Clone, Copy, Debug, PartialEq, Eq, Structural)]
pub struct NodeLoad {
    /// The time that its tasks were runnable, in CPUs.
    pub duty: Double,
    /// That time for each CPU that the layer has there.
    pub load: Double,
    /// What of it lies above an equal share, for each CPU.
    pub surplus: Double,
}

/// Whether a node is to become a source of migrations: its load and its surplus
/// are high, and the layer could not grow there.
pub open spec fn opens(
    n: NodeLoad,
    threshold: (Double, Double),
    threshold_delta: (Double, Double),
    growth_denied: bool,
) -> bool {
    threshold.1.lt(n.load) && threshold_delta.1.lt(n.surplus) && growth_denied
}

/// Whether a node is to be a source no more: its load or its surplus is low, or
/// the layer could grow there.
pub open spec fn closes(
    n: NodeLoad,
    threshold: (Double, Double),
    threshold_delta: (Double, Double),
    growth_denied: bool,
) -> bool {
    n.load.lt(threshold.0) || n.surplus.lt(threshold_delta.0) || !growth_denied
}

/// Whether tasks may migrate from a node. A layer without CPUs there may if it
/// has work there and could not grow; otherwise a node stays what it was between
/// the thresholds.
pub open spec fn is_source(
    n: NodeLoad,
    cpus: usize,
    threshold: (Double, Double),
    threshold_delta: (Double, Double),
    growth_denied: bool,
    was_source: bool,
) -> bool {
    if cpus == 0 {
        Double::spec_zero().lt(n.duty) && growth_denied
    } else if opens(n, threshold, threshold_delta, growth_denied) {
        true
    } else if closes(n, threshold, threshold_delta, growth_denied) {
        false
    } else {
        was_source
    }
}

/// From which nodes tasks may migrate.
pub open spec fn sources_of(
    loads: Seq<NodeLoad>,
    cpus: Seq<usize>,
    threshold: (Double, Double),
    threshold_delta: (Double, Double),
    growth_denied: Seq<bool>,
    were_sources: Seq<bool>,
) -> Seq<bool> {
    Seq::new(
        loads.len(),
        |i: int|
            is_source(
                loads[i],
                cpus[i],
                threshold,
                threshold_delta,
                growth_denied[i],
                were_sources[i],
            ),
    )
}

/// From which nodes tasks may migrate.
pub fn xnuma_check_active(
    loads: &Vec<NodeLoad>,
    allocs: &Vec<usize>,
    threshold: (Double, Double),
    threshold_delta: (Double, Double),
    growth_denied: &Vec<bool>,
    currently_active: &Vec<bool>,
) -> (r: Vec<bool>)
    requires
        loads@.len() <= allocs@.len(),
        loads@.len() <= growth_denied@.len(),
        loads@.len() <= currently_active@.len(),
    ensures
        r@ == sources_of(
            loads@,
            allocs@,
            threshold,
            threshold_delta,
            growth_denied@,
            currently_active@,
        ),
{
    let mut result: Vec<bool> = Vec::new();
    let mut i: usize = 0;
    while i < loads.len()
        invariant
            i <= loads@.len(),
            loads@.len() <= allocs@.len(),
            loads@.len() <= growth_denied@.len(),
            loads@.len() <= currently_active@.len(),
            result@.len() == i,
            forall|k: int|
                0 <= k < i ==> #[trigger] result@[k] == is_source(
                    loads@[k],
                    allocs@[k],
                    threshold,
                    threshold_delta,
                    growth_denied@[k],
                    currently_active@[k],
                ),
        decreases loads@.len() - i,
    {
        let n = loads[i];
        let denied = growth_denied[i];
        let active = if allocs[i] == 0 {
            Double(0).is_less(n.duty) && denied
        } else if threshold.1.is_less(n.load) && threshold_delta.1.is_less(n.surplus) && denied {
            true
        } else if n.load.is_less(threshold.0) || n.surplus.is_less(threshold_delta.0) || !denied {
            false
        } else {
            currently_active[i]
        };
        result.push(active);
        i = i + 1;
    }
    proof {
        assert(result@ =~= sources_of(
            loads@,
            allocs@,
            threshold,
            threshold_delta,
            growth_denied@,
            currently_active@,
        ));
    }
    result
}

/// Tasks migrate only from where the layer could not grow.
pub proof fn law_growth_comes_before_migration(
    n: NodeLoad,
    cpus: usize,
    threshold: (Double, Double),
    threshold_delta: (Double, Double),
    growth_denied: bool,
    was_source: bool,
)
    ensures
        is_source(n, cpus, threshold, threshold_delta, growth_denied, was_source) ==> growth_denied,
{
}

/// A node on which the layer has CPUs becomes a source only if its load and its
/// surplus both exceed their upper thresholds, and stays one until either falls
/// below its lower threshold or the layer can grow there.
pub proof fn law_migration_has_two_thresholds(
    n: NodeLoad,
    cpus: usize,
    threshold: (Double, Double),
    threshold_delta: (Double, Double),
    growth_denied: bool,
)
    requires
        cpus > 0,
    ensures
        is_source(n, cpus, threshold, threshold_delta, growth_denied, false) <==> opens(
            n,
            threshold,
            threshold_delta,
            growth_denied,
        ),
        threshold.0.le(threshold.1) && threshold_delta.0.le(threshold_delta.1) ==> (is_source(
            n,
            cpus,
            threshold,
            threshold_delta,
            growth_denied,
            true,
        ) <==> !closes(n, threshold, threshold_delta, growth_denied)),
{
}

/// From where tasks may migrate, node by node. Where the layer has no CPUs they may
/// exactly if there is work and it could not grow. Where it has some, a node is a source
/// if load and surplus are both above their upper thresholds and growth was denied; it is
/// none if either is below its lower threshold or growth was not denied; and otherwise it
/// is what it was.
pub proof fn law_sources_follow_their_nodes(
    loads: Seq<NodeLoad>,
    cpus: Seq<usize>,
    threshold: (Double, Double),
    threshold_delta: (Double, Double),
    growth_denied: Seq<bool>,
    were_sources: Seq<bool>,
    i: int,
)
    requires
        0 <= i < loads.len(),
    ensures
        ({
            let all = sources_of(
                loads,
                cpus,
                threshold,
                threshold_delta,
                growth_denied,
                were_sources,
            );
            let n = loads[i];
            let high = threshold.1.lt(n.load) && threshold_delta.1.lt(n.surplus);
            let low = n.load.lt(threshold.0) || n.surplus.lt(threshold_delta.0);
            &&& all.len() == loads.len()
            &&& cpus[i] == 0 ==> (all[i] <==> Double(0).lt(n.duty) && growth_denied[i])
            &&& cpus[i] > 0 && !growth_denied[i] ==> !all[i]
            &&& cpus[i] > 0 && growth_denied[i] && high ==> all[i]
            &&& cpus[i] > 0 && growth_denied[i] && !high && low ==> !all[i]
            &&& cpus[i] > 0 && growth_denied[i] && !high && !low ==> all[i] == were_sources[i]
        }),
{
}

} // verus!
