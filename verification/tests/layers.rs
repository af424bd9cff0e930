use scx_simulator::layered::{
    Double, LayerGrowthAlgo, LayerKind, LayerMatch, LayerSpec, DEFAULT_LAYER_WEIGHT, XNUMA_CLOSE,
    XNUMA_DELTA_CLOSE, XNUMA_DELTA_OPEN, XNUMA_OPEN,
};
use scx_simulator::layered_alloc::largest_remainder;
use scx_simulator::layered_control::{
    ControlTopology, LayerAlloc, LayerNeeds, LayeredControl, LayeredControlSnapshot, SettleError,
    XnumaMeasure,
};
use scx_simulator::layered_xnuma::{xnuma_check_active, NodeLoad, XnumaRates};
use scx_simulator::types::CpuId;

fn double(v: f64) -> Double {
    Double(v.to_bits())
}

#[test]
fn catch_all_has_one_empty_or_group() {
    let spec = LayerSpec::catch_all("default".to_string());
    assert_eq!(spec.kind, LayerKind::Open);
    assert_eq!(spec.matches, vec![Vec::<LayerMatch>::new()]);
}

#[test]
fn not_inverts_without_changing_the_kind() {
    let inner = LayerMatch::CommPrefix("bench".into());
    let negated = LayerMatch::Not(Box::new(LayerMatch::CommPrefix("bench".into())));
    assert!(!inner.exclude());
    assert!(negated.exclude());
    assert_eq!(inner.to_ffi().0, negated.to_ffi().0);
    assert_eq!(inner.to_ffi().1, negated.to_ffi().1);
}

#[test]
fn builder_defaults_match_scx_layered() {
    let spec = LayerSpec::new("l".to_string(), LayerKind::Grouped);
    assert_eq!(spec.weight, DEFAULT_LAYER_WEIGHT);
    assert!(!spec.preempt);
    assert!(!spec.exclusive);
    assert_eq!(spec.slice_ns, 0);
    assert_eq!(spec.growth_algo, LayerGrowthAlgo::Linear);
    assert!(spec.cpus.is_none());
}

#[test]
fn ratios_are_the_numbers_they_stand_for() {
    assert_eq!(f64::from_bits(XNUMA_CLOSE), 0.6);
    assert_eq!(f64::from_bits(XNUMA_OPEN), 0.7);
    assert_eq!(f64::from_bits(XNUMA_DELTA_CLOSE), 0.2);
    assert_eq!(f64::from_bits(XNUMA_DELTA_OPEN), 0.3);
}

#[test]
fn numbers_compare_like_the_machine_does() {
    let all = [
        f64::NEG_INFINITY,
        -2.5,
        -0.0,
        0.0,
        1e-300,
        0.5,
        1.0,
        f64::INFINITY,
        f64::NAN,
    ];
    for a in all {
        for b in all {
            assert_eq!(double(a).is_less(double(b)), a < b, "{a} < {b}");
            assert_eq!(double(a).is_at_most(double(b)), a <= b, "{a} <= {b}");
        }
    }
}

#[test]
fn rules_are_told_by_kind_and_value() {
    assert_eq!(
        LayerMatch::CgroupSuffix("x".into()).to_ffi(),
        (19, Some("x"), 0)
    );
    assert_eq!(LayerMatch::NiceAbove(-3).to_ffi(), (3, None, -3));
    assert_eq!(LayerMatch::IsKthread(true).to_ffi(), (15, None, 1));
    assert_eq!(LayerMatch::NumaNode(2).match_kind(), 25);
    assert_eq!(LayerKind::Confined.number(), 2);
    assert_eq!(LayerGrowthAlgo::StickyDynamic.number(), 15);
}

#[test]
fn builders_set_what_they_name() {
    let s = LayerSpec::new("l".to_string(), LayerKind::Confined)
        .with_weight(7)
        .with_util_range(double(0.1), double(0.5))
        .with_cpus_range(1, 3)
        .with_open_cputime(true)
        .with_growth_algo(LayerGrowthAlgo::Topo)
        .with_nodes(vec![1])
        .with_llcs(vec![2])
        .with_preempt(true)
        .with_exclusive(true)
        .with_slice_ns(9)
        .with_cpus(vec![CpuId(4)])
        .with_match(LayerMatch::PidEquals(5))
        .with_xnuma_threshold((double(0.0), double(0.0)), (double(1.0), double(2.0)));
    assert_eq!(s.weight, 7);
    assert_eq!(s.util_range, Some((double(0.1), double(0.5))));
    assert_eq!(s.cpus_range, Some((1, 3)));
    assert!(s.util_includes_open_cputime && s.preempt && s.exclusive);
    assert_eq!(s.growth_algo, LayerGrowthAlgo::Topo);
    assert_eq!((s.nodes, s.llcs), (vec![1], vec![2]));
    assert_eq!(s.slice_ns, 9);
    assert_eq!(s.cpus, Some(vec![CpuId(4)]));
    assert_eq!(s.matches, vec![vec![LayerMatch::PidEquals(5)]]);
    assert_eq!(s.xnuma_threshold_delta, (double(1.0), double(2.0)));
}

/// A machine of `cores` cores with one CPU each, on one node.
fn flat(cores: usize, layers: usize, llcs: usize) -> ControlTopology {
    ControlTopology {
        nr_nodes: 1,
        core_of: (0..cores).collect(),
        core_nodes: vec![0; cores],
        core_llcs: (0..cores).map(|c| c * llcs / cores).collect(),
        llc_nodes: vec![0; llcs],
        core_orders: vec![vec![(0..cores).collect()]; layers],
        node_orders: vec![vec![0]; layers],
    }
}

fn grouped(name: &str) -> LayerSpec {
    LayerSpec::new(name.to_string(), LayerKind::Grouped).with_util_range(double(0.8), double(0.9))
}

fn specs() -> Vec<LayerSpec> {
    vec![
        grouped("busy").with_match(LayerMatch::CommPrefix("busy".into())),
        grouped("idle").with_or(Vec::new()),
    ]
}

fn control(specs: Vec<LayerSpec>, llcs: usize) -> Result<LayeredControl, String> {
    let layers = specs.len();
    LayeredControl::new(100_000_000, 4, 1, flat(4, layers, llcs), specs).map_err(|e| e.message())
}

#[test]
fn measured_busy_layer_grows_and_idle_layer_shrinks() {
    let mut control = control(specs(), 1).unwrap();
    let (deltas, masks) = control.observe(LayeredControlSnapshot {
        // Two CPU-seconds/sec of busy work; no idle work. The 100ms EWMA
        // starts at zero, so the first 100ms sample contributes one CPU.
        usages: vec![(400_000_000, 0), (0, 0)],
        node_usages: vec![vec![400_000_000], vec![0]],
        node_pinned_usages: vec![vec![0], vec![0]],
        node_duty_raw: vec![vec![400_000_000], vec![0]],
        cpu_masks: vec![
            vec![true, true, false, false],
            vec![false, false, true, true],
        ],
    });
    assert_eq!(deltas.usages, vec![(400_000_000, 0), (0, 0)]);
    let needs: Vec<LayerNeeds> = deltas
        .usages
        .iter()
        .map(|u| {
            let util = u.0 as f64 / 1_000_000_000.0 / 0.1 * 0.5;
            let low = (util / 0.9).ceil() as usize;
            let high = ((util / 0.8).floor() as usize).max(low);
            LayerNeeds {
                low,
                high,
                pinned: vec![0],
            }
        })
        .collect();
    let demands = control.demands(&masks, &needs);
    assert_eq!(demands[0].raw_unpinned, 3);
    assert_eq!(demands[1].raw_unpinned, 1);
    assert!(control.holdings_allowed(&masks));
    let allocs: Vec<LayerAlloc> = demands
        .iter()
        .map(|d| LayerAlloc {
            pinned: vec![0],
            unpinned: vec![d.raw_unpinned],
        })
        .collect();
    let update = control.settle(&masks, &allocs).ok().unwrap();
    assert!(update.targets[0] > update.targets[1]);
    assert!(update.cpu_masks[0].iter().filter(|&&v| v).count() > 2);
    assert!(update.cpu_masks[1].iter().filter(|&&v| v).count() < 2);
    assert_eq!(
        update.cpu_masks,
        vec![
            vec![true, true, false, true],
            vec![false, false, true, false],
        ]
    );
    assert_eq!(update.previous_node_cpus, vec![vec![2], vec![2]]);
    assert_eq!(update.current_node_cpus, vec![vec![3], vec![1]]);
    assert!(control.holdings_allowed(&update.cpu_masks));
}

#[test]
fn counters_grow_from_round_to_round() {
    let mut control = control(specs(), 1).unwrap();
    let snapshot = |n: u64| LayeredControlSnapshot {
        usages: vec![(n, 1), (0, n)],
        node_usages: vec![vec![n], vec![0]],
        node_pinned_usages: vec![vec![0], vec![0]],
        node_duty_raw: vec![vec![2 * n], vec![0]],
        cpu_masks: vec![vec![false; 4]; 2],
    };
    control.observe(snapshot(10));
    let (deltas, _) = control.observe(snapshot(25));
    assert_eq!(deltas.usages, vec![(15, 0), (0, 15)]);
    assert_eq!(deltas.node_usages, vec![vec![15], vec![0]]);
    assert_eq!(deltas.node_duty, vec![vec![30], vec![0]]);
    // A counter that falls has not grown.
    let (deltas, _) = control.observe(snapshot(5));
    assert_eq!(deltas.usages[0].0, 0);
}

#[test]
fn improper_layers_are_refused_by_name() {
    let refused = |s: LayerSpec, llcs: usize| control(vec![s], llcs).err().unwrap();
    assert_eq!(
        refused(
            grouped("reverse").with_growth_algo(LayerGrowthAlgo::CpuSetSpread),
            1
        ),
        "CpuSetSpread requires cgroup-cpuset topology, which scxsim does not model"
    );
    assert_eq!(
        refused(grouped("pinned").with_cpus(vec![CpuId(0), CpuId(1)]), 1),
        "Tier-3 control cannot resize explicitly pinned layer \"pinned\""
    );
    assert_eq!(
        refused(LayerSpec::new("x".to_string(), LayerKind::Confined), 1),
        "Tier-3 control requires util_range for non-open layer \"x\""
    );
    let mut wide = grouped("w\n");
    wide.cpus_range = Some((1, 9));
    assert_eq!(refused(wide, 1), "invalid CPU range for \"w\\n\"");
    let mut odd = grouped("odd");
    odd.util_range = Some((double(0.9), double(0.8)));
    assert_eq!(refused(odd, 1), "invalid util range for \"odd\"");
    assert_eq!(
        refused(grouped("n").with_nodes(vec![1]), 1),
        "a layer names a node that does not exist"
    );
    assert_eq!(
        refused(grouped("l").with_llcs(vec![1]), 1),
        "a layer names an LLC that does not exist"
    );
    let bad = |period: u64, cpus: usize, threads: usize| {
        LayeredControl::new(period, cpus, threads, flat(4, 0, 1), vec![])
            .err()
            .unwrap()
            .message()
    };
    assert_eq!(bad(0, 4, 1), "layered control period must be positive");
    assert_eq!(bad(1, 0, 1), "layered control needs at least one CPU");
    assert_eq!(
        bad(1, 4, 0),
        "layered control needs at least one thread per core"
    );
    assert_eq!(bad(1, 3, 1), "invalid layered control topology");
}

#[test]
fn cache_trading_needs_a_single_cache() {
    let spec = || grouped("sticky").with_growth_algo(LayerGrowthAlgo::StickyDynamic);
    // One LLC covering all 4 CPUs: nothing to trade, so it is allowed.
    assert!(control(vec![spec()], 1).is_ok());
    // Two LLCs of 2: must refuse.
    let msg = control(vec![spec()], 2).err().unwrap();
    assert!(msg.contains("StickyDynamic on multiple LLCs"), "{msg}");
}

#[test]
fn open_layers_get_what_is_left() {
    let specs = vec![
        grouped("busy"),
        LayerSpec::catch_all("rest".to_string()),
        LayerSpec::catch_all("near".to_string()).with_llcs(vec![1]),
    ];
    let control = control(specs, 2).unwrap();
    let alloc = |n: usize| LayerAlloc {
        pinned: vec![0],
        unpinned: vec![n],
    };
    let settled = control
        .settle(&vec![vec![false; 4]; 3], &vec![alloc(1), alloc(0), alloc(0)])
        .ok()
        .unwrap();
    assert_eq!(
        settled.cpu_masks,
        vec![
            vec![true, false, false, false],
            vec![false, true, true, true],
            vec![false, false, true, true],
        ]
    );
}

#[test]
fn a_layer_that_cannot_grow_is_named() {
    let control = control(vec![grouped("a"), grouped("b")], 1).unwrap();
    let alloc = |n: usize| LayerAlloc {
        pinned: vec![1],
        unpinned: vec![n],
    };
    let masks = vec![vec![false; 4]; 2];
    assert!(matches!(
        control.settle(&masks, &vec![alloc(2), alloc(2)]),
        Err(SettleError::Shortage { layer: 1, node: 0 })
    ));
    let huge = LayerAlloc {
        pinned: vec![usize::MAX],
        unpinned: vec![1],
    };
    assert!(matches!(
        control.settle(&masks, &vec![alloc(0), huge]),
        Err(SettleError::TooLarge { layer: 1 })
    ));
}

#[test]
fn overlapping_or_split_holdings_are_not_allowed() {
    let mut t = flat(4, 2, 1);
    t.core_of = vec![0, 0, 1, 1];
    t.core_nodes = vec![0, 0];
    t.core_llcs = vec![0, 0];
    t.core_orders = vec![vec![vec![0, 1]]; 2];
    let c = LayeredControl::new(1, 4, 2, t, vec![grouped("a"), grouped("b")])
        .ok()
        .unwrap();
    let none = vec![false; 4];
    let first = vec![true, true, false, false];
    assert!(c.holdings_allowed(&vec![first.clone(), none.clone()]));
    assert!(!c.holdings_allowed(&vec![first.clone(), first.clone()]));
    assert!(!c.holdings_allowed(&vec![vec![true, false, false, false], none]));
}

#[test]
fn refused_growth_is_counted() {
    let mut c = control(specs(), 1).unwrap();
    c.note_growth(
        &vec![vec![true], vec![false]],
        &vec![vec![2], vec![2]],
        &vec![vec![2], vec![1]],
    );
    assert_eq!(c.growth_denied(0), vec![true]);
    assert_eq!(c.growth_denied(1), vec![false]);
    c.note_growth(
        &vec![vec![true], vec![true]],
        &vec![vec![2], vec![2]],
        &vec![vec![3], vec![2]],
    );
    assert_eq!(c.growth_denied(0), vec![false]);
    assert_eq!(c.growth_denied_count(0, 0), 1);
    assert_eq!(c.growth_denied_count(1, 0), 1);
}

#[test]
fn migration_is_limited_between_nodes_only() {
    // The first node is overloaded and could not grow; the second is idle.
    let measure = || XnumaMeasure {
        loads: vec![
            NodeLoad { duty: double(8.0), load: double(4.0), surplus: double(2.0) },
            NodeLoad { duty: double(0.1), load: double(0.05), surplus: double(-2.0) },
        ],
        rates: XnumaRates { rates: vec![vec![0, 5], vec![6, 0]] },
    };
    let mut t = flat(4, 2, 1);
    t.nr_nodes = 2;
    t.core_orders = vec![vec![vec![0, 1, 2, 3], vec![]]; 2];
    let open = grouped("o").with_xnuma_threshold(
        (double(0.0), double(-1.0)),
        (double(0.2), double(0.3)),
    );
    let mut c = LayeredControl::new(1, 4, 1, t, vec![grouped("g"), open])
        .ok()
        .unwrap();
    let cpus = vec![vec![2, 2], vec![2, 2]];
    let full = vec![vec![true, true], vec![true, true]];
    let (_, sources) = c.refresh_xnuma(&cpus, vec![measure(), measure()]);
    assert_eq!(sources[0], vec![false, false]);
    c.note_growth(&full, &cpus, &cpus);
    assert_eq!(c.growth_denied(0), vec![true, true]);
    let (rates, sources) = c.refresh_xnuma(&cpus, vec![measure(), measure()]);
    assert_eq!(rates[0], vec![vec![0, 5], vec![6, 0]]);
    assert_eq!(sources[0], vec![true, false]);
    assert_eq!(rates[1], vec![vec![u64::MAX; 2]; 2]);
    assert_eq!(sources[1], vec![true, true]);
    assert_eq!(c.migration_sources(0), vec![true, false]);
    assert_eq!(c.migration_sources(1), vec![false, false]);

    let mut one = control(specs(), 1).unwrap();
    let single = || XnumaMeasure {
        loads: vec![NodeLoad { duty: double(8.0), load: double(4.0), surplus: double(2.0) }],
        rates: XnumaRates { rates: vec![vec![9]] },
    };
    let (rates, sources) = one.refresh_xnuma(&vec![vec![2], vec![2]], vec![single(), single()]);
    assert_eq!(rates, vec![vec![vec![0]]; 2]);
    assert_eq!(sources, vec![vec![false]; 2]);
}

#[test]
fn layers_shrink_halfway() {
    // Three CPUs too many: two go in the first round.
    let c = control(vec![grouped("a")], 1).unwrap();
    let idle = || LayerNeeds {
        low: 0,
        high: 0,
        pinned: vec![0],
    };
    let d = c.demands(&vec![vec![true, true, true, false]], &vec![idle()]);
    assert_eq!(d[0].raw_unpinned, 1);
    let mut kept = grouped("k");
    kept.cpus_range = Some((2, 4));
    let c = control(vec![kept], 1).unwrap();
    let d = c.demands(&vec![vec![true, true, true, false]], &vec![idle()]);
    assert_eq!(d[0].raw_unpinned, 2);
    assert!(c.counts_open_time(0, &vec![false; 4]));
    assert!(!c.counts_open_time(0, &vec![true; 4]));
    assert_eq!(c.period_ns(), 100_000_000);
}

#[test]
fn migration_starts_high_and_ends_low() {
    let load = |load: f64, surplus: f64| NodeLoad {
        duty: double(load * 2.0),
        load: double(load),
        surplus: double(surplus),
    };
    let check = |n: NodeLoad, cpus: usize, denied: bool, was: bool| {
        xnuma_check_active(
            &vec![n],
            &vec![cpus],
            (double(0.6), double(0.7)),
            (double(0.2), double(0.3)),
            &vec![denied],
            &vec![was],
        )[0]
    };
    // It takes a high load, a high surplus and no way to grow.
    assert!(check(load(0.8, 0.4), 2, true, false));
    assert!(!check(load(0.8, 0.4), 2, false, false));
    assert!(!check(load(0.65, 0.4), 2, true, false));
    assert!(!check(load(0.8, 0.25), 2, true, false));
    // Between the thresholds a source stays one.
    assert!(check(load(0.65, 0.25), 2, true, true));
    assert!(!check(load(0.5, 0.25), 2, true, true));
    assert!(!check(load(0.65, 0.1), 2, true, true));
    assert!(!check(load(0.65, 0.25), 2, false, true));
    // Without CPUs, work that cannot grow leaves.
    assert!(check(load(0.1, 0.0), 0, true, false));
    assert!(!check(load(0.0, 0.0), 0, true, true));
    assert!(!check(load(0.1, 0.0), 0, false, true));
}

#[test]
fn what_is_left_over_goes_to_the_greatest_fractions() {
    let fractions = |v: &[f64]| -> Vec<Double> { v.iter().map(|f| double(*f)).collect() };
    assert_eq!(largest_remainder(10, &vec![3, 3, 2], &fractions(&[0.3, 0.6, 0.7])), vec![3, 4, 3]);
    assert_eq!(largest_remainder(9, &vec![3, 3, 2], &fractions(&[0.5, 0.5, 0.2])), vec![4, 3, 2]);
    assert_eq!(largest_remainder(5, &vec![5, 0], &fractions(&[0.0, 0.0])), vec![5, 0]);
    assert_eq!(largest_remainder(3, &vec![], &fractions(&[])), Vec::<usize>::new());
    assert_eq!(largest_remainder(1, &vec![2, 0], &fractions(&[0.1, 0.2])), vec![2, 0]);
    // Nobody is served twice.
    assert_eq!(largest_remainder(9, &vec![1, 1], &fractions(&[0.1, 0.2])), vec![2, 2]);
}

#[test]
fn negating_twice_cancels() {
    let twice = LayerMatch::Not(Box::new(LayerMatch::Not(Box::new(LayerMatch::NiceAbove(0)))));
    assert!(!twice.exclude());
    let thrice = LayerMatch::Not(Box::new(twice));
    assert!(thrice.exclude());
    assert_eq!(thrice.to_ffi(), LayerMatch::NiceAbove(0).to_ffi());
}
