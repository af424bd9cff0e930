use scx_simulator::atomic_types::{
    AtomicEngineWake, AtomicFinishedMask, AtomicWorkerState, AtomicYieldReason,
    AtomicYieldedWorker, EngineWakeState, TimeslicePrng, WorkerId, YieldReason, NO_WORKER,
};

#[test]
fn test_yield_reason_roundtrip() {
    for reason in [
        YieldReason::Cooperative,
        YieldReason::Preemption,
        YieldReason::Finished,
    ] {
        let raw = reason.to_u32();
        let recovered = YieldReason::from_u32(raw);
        assert_eq!(recovered, Some(reason));
    }
    assert_eq!(YieldReason::from_u32(0), None);
    assert_eq!(YieldReason::from_u32(99), None);
}

#[test]
fn reasons_have_their_numbers() {
    assert_eq!(YieldReason::Cooperative.to_u32(), 1);
    assert_eq!(YieldReason::Preemption.to_u32(), 2);
    assert_eq!(YieldReason::Finished.to_u32(), 3);
}

#[test]
fn test_atomic_worker_state_transitions() {
    let mut state = AtomicWorkerState::new_parked();
    assert!(!state.is_running());

    state.set_running();
    assert!(state.is_running());

    state.park();
    assert!(!state.is_running());
}

#[test]
fn test_atomic_engine_wake_swap_sleeping() {
    let mut wake = AtomicEngineWake::new_sleeping();

    // Swap from Sleeping -> Sleeping returns Sleeping.
    assert_eq!(wake.swap_sleeping(), EngineWakeState::Sleeping);

    // Simulate a worker wake signal.
    wake.wake();

    // Swap from Woken -> Sleeping returns Woken (consumed the signal).
    assert_eq!(wake.swap_sleeping(), EngineWakeState::Woken);

    // Second swap without intervening wake returns Sleeping.
    assert_eq!(wake.swap_sleeping(), EngineWakeState::Sleeping);
}

#[test]
fn test_atomic_yield_reason_roundtrip() {
    let mut atomic = AtomicYieldReason::new();
    for reason in [
        YieldReason::Cooperative,
        YieldReason::Preemption,
        YieldReason::Finished,
    ] {
        atomic.store(reason);
        assert_eq!(atomic.load(), reason);
    }
}

#[test]
#[should_panic(expected = "invalid discriminant")]
fn test_atomic_yield_reason_panics_on_invalid() {
    let atomic = AtomicYieldReason::new();
    // Raw 0 is not a valid YieldReason discriminant.
    let _ = atomic.load();
}

#[test]
fn test_atomic_yielded_worker_roundtrip() {
    let mut atomic = AtomicYieldedWorker::new();
    // Sentinel value maps to WorkerId(u32::MAX as usize).
    let sentinel = atomic.load();
    assert_eq!(sentinel.0, u32::MAX as usize);
    assert_eq!(sentinel.0, NO_WORKER as usize);

    atomic.store(WorkerId(42));
    assert_eq!(atomic.load(), WorkerId(42));
}

#[test]
fn test_atomic_finished_mask_operations() {
    let mut mask = AtomicFinishedMask::new();
    assert_eq!(mask.load(), 0);
    assert!(!mask.is_all_done(3));

    mask.mark_finished(WorkerId(0));
    assert_eq!(mask.load(), 0b001);
    assert!(!mask.is_all_done(3));

    mask.mark_finished(WorkerId(1));
    mask.mark_finished(WorkerId(2));
    assert_eq!(mask.load(), 0b111);
    assert!(mask.is_all_done(3));
}

#[test]
fn test_finished_mask_full_mask() {
    assert_eq!(AtomicFinishedMask::full_mask(1), 0b1);
    assert_eq!(AtomicFinishedMask::full_mask(3), 0b111);
    assert_eq!(AtomicFinishedMask::full_mask(64), u64::MAX);
}

#[test]
fn all_are_done_when_the_mask_is_full() {
    let mut mask = AtomicFinishedMask::new();
    for w in 0..64 {
        mask.mark_finished(WorkerId(w));
    }
    assert_eq!(mask.load(), AtomicFinishedMask::full_mask(64));
    assert!(mask.is_all_done(64));
}

#[test]
fn test_timeslice_prng_determinism() {
    let mut prng1 = TimeslicePrng::new(42);
    let mut prng2 = TimeslicePrng::new(42);
    for _ in 0..100 {
        assert_eq!(prng1.next(), prng2.next());
    }
}

#[test]
fn test_timeslice_prng_zero_seed_promoted() {
    // Seed 0 would break xorshift; verify it's promoted to 1.
    let mut prng = TimeslicePrng::new(0);
    let val = prng.next();
    assert_ne!(val, 0, "zero seed should be promoted to 1");
}

#[test]
fn test_timeslice_prng_roll_range() {
    let mut prng = TimeslicePrng::new(123);
    for _ in 0..200 {
        let v = prng.roll_timeslice(10, 20);
        assert!(v >= 10 && v <= 20, "roll_timeslice out of range: {v}");
    }
}

#[test]
fn test_timeslice_prng_roll_degenerate() {
    let mut prng = TimeslicePrng::new(1);
    assert_eq!(prng.roll_timeslice(5, 5), 5, "min == max should return min");
}

#[test]
fn first_number_of_seed_one() {
    // 1 ^ (1 << 13) = 8193, its shift by 17 adds nothing, and the last shift
    // adds 8193 << 5.
    assert_eq!(TimeslicePrng::new(1).next(), 8193 ^ (8193 << 5));
}

#[test]
fn another_worker_does_not_stand_in() {
    let mut mask = AtomicFinishedMask::new();
    mask.mark_finished(WorkerId(5));
    assert!(!mask.is_all_done(1));
    mask.mark_finished(WorkerId(0));
    assert!(mask.is_all_done(1));
    assert!(mask.is_all_done(0));
    assert!(!mask.is_all_done(65));
}
