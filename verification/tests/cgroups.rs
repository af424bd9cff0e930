use scx_simulator::cgroup::{CgroupRegistry, DEFAULT_MAX_CGROUPS};
use scx_simulator::cgroup_bw::{BandwidthManager, CgroupBandwidthState};
use scx_simulator::types::{CgroupId, CpuId, Pid, ROOT_CGID};

fn no_parent(_: CgroupId) -> Option<CgroupId> {
    None
}

fn root() -> CgroupId {
    CgroupId(ROOT_CGID)
}

#[test]
fn test_registry_has_root() {
    let registry = CgroupRegistry::new(4, DEFAULT_MAX_CGROUPS);
    assert!(registry.get(root()).is_some());
    assert_eq!(registry.get(root()).unwrap().level, 0);
}

#[test]
fn test_bpf_entry_allocation() {
    let mut registry = CgroupRegistry::new(4, 3);
    assert_eq!(registry.allocated_bpf_entries(), 0);
    assert_eq!(registry.max_cgroups(), 3);

    // First 3 allocations should succeed
    assert!(registry.try_allocate_bpf_entry().is_ok());
    assert!(registry.try_allocate_bpf_entry().is_ok());
    assert!(registry.try_allocate_bpf_entry().is_ok());
    assert_eq!(registry.allocated_bpf_entries(), 3);

    // 4th allocation should fail with ENOMEM
    assert_eq!(registry.try_allocate_bpf_entry(), Err(-12));
    assert_eq!(registry.allocated_bpf_entries(), 3);

    // Free one entry
    registry.free_bpf_entry();
    assert_eq!(registry.allocated_bpf_entries(), 2);

    // Now allocation should succeed again
    assert!(registry.try_allocate_bpf_entry().is_ok());
    assert_eq!(registry.allocated_bpf_entries(), 3);
}

#[test]
fn test_free_bpf_entry_saturates() {
    let mut registry = CgroupRegistry::new(4, 10);
    assert_eq!(registry.allocated_bpf_entries(), 0);

    // Free with zero entries should not underflow
    registry.free_bpf_entry();
    assert_eq!(registry.allocated_bpf_entries(), 0);
}

#[test]
fn groups_form_a_tree() {
    let mut r = CgroupRegistry::new(4, DEFAULT_MAX_CGROUPS);
    let a = r.create("a", root(), None);
    let b = r.create("b", a, Some(vec![CpuId(1)]));
    let c = r.create("c", root(), None);
    assert_eq!(r.len(), 4);
    assert_eq!(r.get(b).unwrap().level, 2);
    assert_eq!(r.get_by_name("b").unwrap().cgid, b);
    assert_eq!(r.ancestor(b, 1).unwrap().cgid, a);
    assert_eq!(r.ancestor(b, 0).unwrap().cgid, root());
    assert!(r.ancestor(b, 3).is_none());
    assert_eq!(r.all_cgids_preorder(), vec![root(), a, b, c]);
    assert!(r.update_cpuset("c", vec![CpuId(0), CpuId(2)]));
    assert!(!r.update_cpuset("d", vec![]));
    assert_eq!(
        r.get(c).unwrap().cpuset,
        Some(vec![CpuId(0), CpuId(2)])
    );
    assert_eq!(r.destroy_by_name("c"), Some(c));
    assert!(r.get(c).is_none());
    assert_eq!(r.destroy_by_name("c"), None);
}

#[test]
fn test_new_state_has_full_quota() {
    let state = CgroupBandwidthState::new(200_000, 100_000, 0);
    assert_eq!(state.quota_ns, 200_000_000); // 200ms in ns
    assert_eq!(state.period_ns, 100_000_000); // 100ms in ns
    assert_eq!(state.runtime_remaining_ns, 200_000_000);
    assert!(!state.throttled);
    assert!(state.throttled_pids.is_empty());
}

#[test]
fn test_charge_within_quota() {
    let mut state = CgroupBandwidthState::new(200_000, 100_000, 0);
    // Charge 50ms — should not exhaust
    let exhausted = state.charge(50_000_000);
    assert!(!exhausted);
    assert_eq!(state.runtime_remaining_ns, 150_000_000);
    assert!(!state.throttled);
}

#[test]
fn test_charge_exhausts_quota() {
    let mut state = CgroupBandwidthState::new(200_000, 100_000, 0);
    // Charge 250ms — exceeds 200ms quota
    let exhausted = state.charge(250_000_000);
    assert!(exhausted);
    assert_eq!(state.runtime_remaining_ns, -50_000_000);
}

#[test]
fn test_refill_restores_quota() {
    let mut state = CgroupBandwidthState::new(200_000, 100_000, 0);
    state.charge(250_000_000);
    state.throttle(Pid(1));
    state.throttle(Pid(2));
    assert!(state.throttled);

    let pids = state.refill(100_000_000);
    assert_eq!(pids.len(), 2);
    assert!(pids.contains(&Pid(1)));
    assert!(pids.contains(&Pid(2)));

    state.unthrottle();
    assert!(!state.throttled);
    assert_eq!(state.runtime_remaining_ns, 200_000_000);
    assert!(state.throttled_pids.is_empty());
}

#[test]
fn test_manager_configure_and_charge() {
    let mut mgr = BandwidthManager::new();
    let cg = CgroupId(10);
    mgr.configure(cg, 100_000, 200_000, 0);
    assert_eq!(mgr.len(), 1);

    // Charge 100ms — within quota
    let exhausted = mgr.charge(cg, 100_000_000, no_parent);
    assert!(exhausted.is_none());

    // Charge another 150ms — exceeds quota
    let exhausted = mgr.charge(cg, 150_000_000, no_parent);
    assert_eq!(exhausted, Some(cg));
}

#[test]
fn test_manager_hierarchical_throttle() {
    let mut mgr = BandwidthManager::new();
    let parent = CgroupId(10);
    let child = CgroupId(20);

    // Parent: 100ms quota, child: 50ms quota
    mgr.configure(parent, 100_000, 100_000, 0);
    mgr.configure(child, 100_000, 50_000, 0);

    let ancestor = |cg: CgroupId| -> Option<CgroupId> {
        if cg == child {
            Some(parent)
        } else {
            None
        }
    };

    // Charge 60ms to child — child exhausted (50ms quota), parent still has 40ms
    let exhausted = mgr.charge(child, 60_000_000, ancestor);
    assert_eq!(exhausted, Some(child));

    // Child should be throttleable
    assert!(!mgr.is_throttled(child, ancestor)); // not marked yet, just exhausted
}

#[test]
fn test_manager_max_run_ns() {
    let mut mgr = BandwidthManager::new();
    let parent = CgroupId(10);
    let child = CgroupId(20);

    mgr.configure(parent, 100_000, 300_000, 0); // 300ms quota
    mgr.configure(child, 100_000, 100_000, 0); // 100ms quota

    let ancestor = |cg: CgroupId| -> Option<CgroupId> {
        if cg == child {
            Some(parent)
        } else {
            None
        }
    };

    // Max run = min(child's 100ms, parent's 300ms) = 100ms
    let max = mgr.max_run_ns(child, ancestor);
    assert_eq!(max, Some(100_000_000));

    // After charging 80ms, max = min(20ms, 220ms) = 20ms
    mgr.charge(child, 80_000_000, ancestor);
    let max = mgr.max_run_ns(child, ancestor);
    assert_eq!(max, Some(20_000_000));
}

#[test]
fn test_manager_unlimited_cgroup() {
    let mgr = BandwidthManager::new();
    let cg = CgroupId(10);

    // Not configured = unlimited
    assert!(!mgr.is_throttled(cg, no_parent));
    assert_eq!(mgr.max_run_ns(cg, no_parent), None);
}

#[test]
fn nothing_is_asked_above_a_throttled_group() {
    let mut mgr = BandwidthManager::new();
    mgr.configure(CgroupId(20), 100_000, 100_000, 0);
    mgr.get_mut(CgroupId(20)).unwrap().throttle(Pid(1));
    let ancestor = |cg: CgroupId| -> Option<CgroupId> {
        assert_ne!(cg, CgroupId(20));
        Some(CgroupId(20))
    };
    assert!(mgr.is_throttled(CgroupId(30), ancestor));
    assert_eq!(mgr.max_run_ns(CgroupId(30), ancestor), Some(0));
    // Charging nothing asks nothing.
    let unasked = |_: CgroupId| -> Option<CgroupId> { unreachable!() };
    assert_eq!(mgr.charge(CgroupId(30), 0, unasked), None);
}

#[test]
fn test_manager_remove() {
    let mut mgr = BandwidthManager::new();
    let cg = CgroupId(10);
    mgr.configure(cg, 100_000, 200_000, 0);
    assert_eq!(mgr.len(), 1);

    mgr.remove(cg);
    assert_eq!(mgr.len(), 0);
}

#[test]
fn test_time_until_refill() {
    let state = CgroupBandwidthState::new(200_000, 100_000, 50_000_000);
    // Period started at 50ms, period is 100ms, so refill at 150ms
    assert_eq!(state.time_until_refill(50_000_000), 100_000_000);
    assert_eq!(state.time_until_refill(100_000_000), 50_000_000);
    assert_eq!(state.time_until_refill(150_000_000), 0);
}

#[test]
fn test_configure_zero_removes() {
    let mut mgr = BandwidthManager::new();
    let cg = CgroupId(10);
    mgr.configure(cg, 100_000, 200_000, 0);
    assert_eq!(mgr.len(), 1);

    // Zero quota = unlimited = remove
    mgr.configure(cg, 100_000, 0, 0);
    assert_eq!(mgr.len(), 0);
}

fn utilization(state: &CgroupBandwidthState) -> f64 {
    state.consumed_ns() as f64 / state.quota_ns as f64
}

#[test]
fn test_utilization() {
    let mut state = CgroupBandwidthState::new(100_000, 100_000, 0);
    assert!((utilization(&state) - 0.0).abs() < f64::EPSILON);

    state.charge(50_000_000); // 50% of 100ms quota
    assert!((utilization(&state) - 0.5).abs() < 0.001);

    state.charge(50_000_000); // 100%
    assert!((utilization(&state) - 1.0).abs() < 0.001);
}

#[test]
fn limits_and_walks_from_the_root() {
    let mut r = CgroupRegistry::new(4, 3);
    r.set_max_cgroups(7);
    assert_eq!(r.max_cgroups(), 7);
    let a = r.create_under_root(Some(vec![CpuId(2)]));
    assert!(r.get_by_name(&format!("cgroup_{}", a.0)).is_some());
    let b = r.create("b", a, None);
    let c = r.create_under_root(None);
    assert_eq!(r.prepare_css_iter_from_root(), Some(vec![root(), a, b, c]));
}

#[test]
fn the_run_limit_is_exact() {
    let (child, parent) = (CgroupId(3), CgroupId(2));
    let up = |c: CgroupId| if c == child { Some(parent) } else { None };
    let filled = || {
        let mut mgr = BandwidthManager::new();
        mgr.configure(child, 100, 80, 0);
        mgr.configure(parent, 100, 50, 0);
        mgr
    };
    assert_eq!(filled().max_run_ns(child, up), Some(50_000));
    assert_eq!(filled().charge(child, 49_999, up), None);
    assert_eq!(filled().charge(child, 50_000, up), Some(parent));
}
