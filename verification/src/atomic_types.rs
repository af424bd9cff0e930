//! Words of typed state through which the engine and its workers talk.
//!
//! Each type keeps one machine word and lets only meaningful values in and out.

use vstd::prelude::*;

verus! {

/// A worker, by its index.
#[derive(Clone, Copy, Debug, PartialEq, Eq, Structural)]
pub struct WorkerId(pub usize);

/// One step of the generator: three xorshifts.
pub open spec fn xorshift(x: u32) -> u32 {
    let a = x ^ (x << 13);
    let b = a ^ (a >> 17);
    b ^ (b << 5)
}

/// A small generator of timeslices.
pub struct TimeslicePrng {
    state: u32,
}

impl View for TimeslicePrng {
    type V = u32;

    closed spec fn view(&self) -> u32 {
        self.state
    }
}

impl TimeslicePrng {
    /// A generator with a seed; 0 would stay 0 and becomes 1.
    pub fn new(seed: u32) -> (r: TimeslicePrng)
        ensures
            r@ == if seed == 0 {
                1
            } else {
                seed
            },
    {
        TimeslicePrng {
            state: if seed == 0 {
                1
            } else {
                seed
            },
        }
    }

    /// The next number.
    pub fn next(&mut self) -> (r: u32)
        ensures
            r == xorshift(old(self)@),
            final(self)@ == r,
    {
        let x = self.state;
        let a = x ^ (x << 13);
        let b = a ^ (a >> 17);
        let c = b ^ (b << 5);
        self.state = c;
        c
    }

    /// A timeslice between `min` and `max`. Where there is no choice no number
    /// is drawn.
    pub fn roll_timeslice(&mut self, min: u64, max: u64) -> (r: u64)
        requires
            min <= max,
            max - min < u64::MAX,
        ensures
            min <= r <= max,
            min == max ==> final(self)@ == old(self)@,
            min < max ==> final(self)@ == xorshift(old(self)@) && r == min + xorshift(
                old(self)@,
            ) as int % (max - min + 1),
    {
        let range = max - min;
        if range == 0 {
            return min;
        }
        min + (self.next() as u64) % (range + 1)
    }
}

/// A generator never gets stuck: from any number but 0 comes another but 0.
pub proof fn law_prng_never_sticks(x: u32)
    requires
        x != 0,
    ensures
        xorshift(x) != 0,
{
    assert(x != 0 ==> ({
        let a = x ^ (x << 13);
        let b = a ^ (a >> 17);
        b ^ (b << 5)
    }) != 0) by (bit_vector);
}

/// Why a worker gave control back.
#[derive(Clone, Copy, Debug, PartialEq, Eq, Structural)]
pub enum YieldReason {
    /// At the boundary of a kernel function.
    Cooperative,
    /// It was preempted.
    Preemption,
    /// It has nothing left to do.
    Finished,
}

/// The number of a reason.
pub open spec fn reason_number(r: YieldReason) -> u32 {
    match r {
        YieldReason::Cooperative => 1,
        YieldReason::Preemption => 2,
        YieldReason::Finished => 3,
    }
}

/// The reason with a number.
pub open spec fn reason_of(v: u32) -> Option<YieldReason> {
    if v == 1 {
        Some(YieldReason::Cooperative)
    } else if v == 2 {
        Some(YieldReason::Preemption)
    } else if v == 3 {
        Some(YieldReason::Finished)
    } else {
        None
    }
}

impl YieldReason {
    /// The number of the reason.
    pub fn to_u32(self) -> (r: u32)
        ensures
            r == reason_number(self),
    {
        match self {
            YieldReason::Cooperative => 1,
            YieldReason::Preemption => 2,
            YieldReason::Finished => 3,
        }
    }

    /// The reason with a number.
    pub fn from_u32(v: u32) -> (r: Option<YieldReason>)
        ensures
            r == reason_of(v),
    {
        match v {
            1 => Some(YieldReason::Cooperative),
            2 => Some(YieldReason::Preemption),
            3 => Some(YieldReason::Finished),
            _ => None,
        }
    }
}

/// A reason comes back from its number, and only its own number gives it.
pub proof fn law_reasons_survive_their_numbers(r: YieldReason, v: u32)
    ensures
        reason_of(reason_number(r)) == Some(r),
        reason_of(v) == Some(r) ==> v == reason_number(r),
{
}

/// Whether a worker waits or runs.
#[derive(Clone, Copy, Debug, PartialEq, Eq, Structural)]
pub enum WorkerState {
    Parked,
    Running,
}

/// The state of a worker.
pub struct AtomicWorkerState {
    word: u32,
}

impl View for AtomicWorkerState {
    type V = u32;

    closed spec fn view(&self) -> u32 {
        self.word
    }
}

/// The number of a worker's state.
pub open spec fn worker_state_number(s: WorkerState) -> u32 {
    match s {
        WorkerState::Parked => 0,
        WorkerState::Running => 1,
    }
}

impl AtomicWorkerState {
    /// A worker that waits.
    pub fn new_parked() -> (r: AtomicWorkerState)
        ensures
            r@ == worker_state_number(WorkerState::Parked),
    {
        AtomicWorkerState { word: 0 }
    }

    /// Lets the worker wait.
    pub fn park(&mut self)
        ensures
            final(self)@ == worker_state_number(WorkerState::Parked),
    {
        self.word = 0;
    }

    /// Lets the worker run.
    pub fn set_running(&mut self)
        ensures
            final(self)@ == worker_state_number(WorkerState::Running),
    {
        self.word = 1;
    }

    /// Whether the worker runs.
    pub fn is_running(&self) -> (r: bool)
        ensures
            r == (self@ == worker_state_number(WorkerState::Running)),
    {
        self.word == 1
    }
}

/// Whether the engine sleeps or was woken.
#[derive(Clone, Copy, Debug, PartialEq, Eq, Structural)]
pub enum EngineWakeState {
    Sleeping,
    Woken,
}

/// Whether the engine was woken since it last looked.
pub struct AtomicEngineWake {
    state: EngineWakeState,
}

impl View for AtomicEngineWake {
    type V = EngineWakeState;

    closed spec fn view(&self) -> EngineWakeState {
        self.state
    }
}

impl AtomicEngineWake {
    /// An engine that sleeps.
    pub fn new_sleeping() -> (r: AtomicEngineWake)
        ensures
            r@ == EngineWakeState::Sleeping,
    {
        AtomicEngineWake { state: EngineWakeState::Sleeping }
    }

    /// Wakes the engine.
    pub fn wake(&mut self)
        ensures
            final(self)@ == EngineWakeState::Woken,
    {
        self.state = EngineWakeState::Woken;
    }

    /// Lets the engine sleep and says what it was before, so that no wake is
    /// lost between two looks.
    pub fn swap_sleeping(&mut self) -> (r: EngineWakeState)
        ensures
            r == old(self)@,
            final(self)@ == EngineWakeState::Sleeping,
    {
        let before = self.state;
        self.state = EngineWakeState::Sleeping;
        before
    }
}

/// The reason of the last yield.
pub struct AtomicYieldReason {
    word: u32,
}

impl View for AtomicYieldReason {
    type V = u32;

    closed spec fn view(&self) -> u32 {
        self.word
    }
}

impl AtomicYieldReason {
    /// No reason yet.
    pub fn new() -> (r: AtomicYieldReason)
        ensures
            r@ == 0,
            reason_of(r@) is None,
    {
        AtomicYieldReason { word: 0 }
    }

    /// Keeps a reason.
    pub fn store(&mut self, reason: YieldReason)
        ensures
            final(self)@ == reason_number(reason),
    {
        self.word = reason.to_u32();
    }

    /// The reason that was kept.
    pub fn load(&self) -> (r: YieldReason)
        requires
            reason_of(self@) is Some,
        ensures
            reason_of(self@) == Some(r),
    {
        YieldReason::from_u32(self.word).expect("AtomicYieldReason: invalid discriminant")
    }
}

/// What stands for no worker.
pub const NO_WORKER: u32 = 0xFFFF_FFFF;

/// The worker of the last yield.
pub struct AtomicYieldedWorker {
    word: u32,
}

impl View for AtomicYieldedWorker {
    type V = u32;

    closed spec fn view(&self) -> u32 {
        self.word
    }
}

impl AtomicYieldedWorker {
    /// No worker yet.
    pub fn new() -> (r: AtomicYieldedWorker)
        ensures
            r@ == NO_WORKER,
    {
        AtomicYieldedWorker { word: NO_WORKER }
    }

    /// Keeps a worker; of its index the lower 32 bits.
    pub fn store(&mut self, worker: WorkerId)
        ensures
            final(self)@ == worker.0 as u32,
    {
        self.word = #[verifier::truncate] (worker.0 as u32);
    }

    /// The worker that was kept.
    pub fn load(&self) -> (r: WorkerId)
        ensures
            r == WorkerId(self@ as usize),
    {
        WorkerId(self.word as usize)
    }
}

/// Whether a bit of a mask is set.
pub open spec fn bit_at(mask: u64, i: u64) -> bool {
    (mask >> i) & 1 == 1
}

/// The workers that have finished.
pub struct AtomicFinishedMask {
    mask: u64,
}

impl View for AtomicFinishedMask {
    type V = u64;

    closed spec fn view(&self) -> u64 {
        self.mask
    }
}

/// The mask of the first `total` workers.
pub open spec fn first_workers(total: u64) -> u64 {
    if total >= 64 {
        u64::MAX
    } else {
        ((1u64 << total) - 1) as u64
    }
}

impl AtomicFinishedMask {
    /// Nobody has finished.
    pub fn new() -> (r: AtomicFinishedMask)
        ensures
            r@ == 0,
    {
        AtomicFinishedMask { mask: 0 }
    }

    /// Notes that a worker has finished.
    pub fn mark_finished(&mut self, worker: WorkerId)
        requires
            worker.0 < 64,
        ensures
            final(self)@ == old(self)@ | (1u64 << (worker.0 as u64)),
            forall|i: u64|
                i < 64 ==> #[trigger] bit_at(final(self)@, i) == (bit_at(old(self)@, i) || i
                    == worker.0),
    {
        let w = worker.0 as u64;
        let before = self.mask;
        self.mask = before | (1u64 << w);
        proof {
            assert forall|i: u64| i < 64 implies #[trigger] bit_at(self.mask, i) == (bit_at(
                before,
                i,
            ) || i == w) by {
                assert(((before | (1u64 << w)) >> i) & 1 == 1 <==> ((before >> i) & 1 == 1 || i
                    == w)) by (bit_vector)
                    requires
                        i < 64,
                        w < 64,
                ;
            }
        }
    }

    /// The mask.
    pub fn load(&self) -> (r: u64)
        ensures
            r == self@,
    {
        self.mask
    }

    /// Whether all of the first `total` workers have finished. There are no more
    /// than 64 workers.
    pub fn is_all_done(&self, total: usize) -> (r: bool)
        ensures
            r == (total <= 64 && self@ & first_workers(total as u64) == first_workers(
                total as u64,
            )),
            r == (total <= 64 && forall|i: u64| i < total ==> #[trigger] bit_at(self@, i)),
    {
        if total > 64 {
            return false;
        }
        let full = AtomicFinishedMask::full_mask(total);
        proof {
            lemma_all_done(self.mask, total as u64);
        }
        self.mask & full == full
    }

    /// The mask of the first `total` workers.
    pub fn full_mask(total: usize) -> (r: u64)
        requires
            total <= 64,
        ensures
            r == first_workers(total as u64),
    {
        if total == 64 {
            u64::MAX
        } else {
            let t = total as u64;
            proof {
                assert((1u64 << t) >= 1) by (bit_vector)
                    requires
                        t < 64,
                ;
            }
            (1u64 << t) - 1
        }
    }
}

proof fn lemma_first_workers(total: u64, i: u64)
    requires
        total <= 64,
        i < 64,
    ensures
        bit_at(first_workers(total), i) == (i < total),
{
    if total < 64 {
        let m = first_workers(total);
        assert((1u64 << total) >= 1) by (bit_vector)
            requires
                total < 64,
        ;
        assert((m >> i) & 1 == 1 <==> i < total) by (bit_vector)
            requires
                m + 1 == 1u64 << total,
                total < 64,
                i < 64,
        ;
    } else {
        assert((u64::MAX >> i) & 1 == 1) by (bit_vector)
            requires
                i < 64,
        ;
    }
}

/// A word that is not zero, and zero from bit `n` on, has a bit set below.
proof fn lemma_some_bit(d: u64, n: u64)
    requires
        n <= 63,
        d >> n == 0,
        d != 0,
    ensures
        exists|i: u64| i < n && #[trigger] bit_at(d, i),
    decreases n,
{
    if n == 0 {
        assert(d >> 0u64 == d) by (bit_vector);
    } else {
        let m = (n - 1) as u64;
        if !bit_at(d, m) {
            assert(d >> m == 0) by (bit_vector)
                requires
                    n <= 63,
                    m + 1 == n,
                    d >> n == 0,
                    (d >> m) & 1 != 1,
            ;
            lemma_some_bit(d, m);
        }
    }
}

/// The mask of the first workers is covered if and only if each of their bits
/// is set.
proof fn lemma_all_done(mask: u64, total: u64)
    requires
        total <= 64,
    ensures
        (mask & first_workers(total) == first_workers(total)) == forall|i: u64|
            i < total ==> #[trigger] bit_at(mask, i),
{
    let full = first_workers(total);
    if mask & full == full {
        assert forall|i: u64| i < total implies #[trigger] bit_at(mask, i) by {
            lemma_first_workers(total, i);
            assert((mask >> i) & 1 == 1) by (bit_vector)
                requires
                    i < 64,
                    mask & full == full,
                    (full >> i) & 1 == 1,
            ;
        }
    } else {
        let d = full & !mask;
        assert(d != 0) by (bit_vector)
            requires
                d == full & !mask,
                mask & full != full,
        ;
        if !bit_at(d, 63) {
            assert(d >> 63 == 0) by (bit_vector)
                requires
                    (d >> 63) & 1 != 1,
            ;
            lemma_some_bit(d, 63);
        }
        let i = choose|i: u64| i < 64 && #[trigger] bit_at(d, i);
        assert((full >> i) & 1 == 1 && (mask >> i) & 1 != 1) by (bit_vector)
            requires
                i < 64,
                d == full & !mask,
                (d >> i) & 1 == 1,
        ;
        lemma_first_workers(total, i);
        assert(!bit_at(mask, i));
    }
}

/// All are done exactly when every one of the first `total` workers has finished,
/// whoever else has.
pub proof fn law_all_done_when_all_have_finished(mask: u64, total: u64)
    requires
        total <= 64,
    ensures
        (mask & first_workers(total) == first_workers(total)) <==> forall|i: u64|
            i < total ==> #[trigger] bit_at(mask, i),
{
    lemma_all_done(mask, total);
}

/// One step of the generator turns the bits of a number over three times: by thirteen to
/// the left, by seventeen to the right, by five to the left.
pub proof fn law_generators_shift_three_times(x: u32)
    ensures
        ({
            let a = x ^ (x << 13u32);
            let b = a ^ (a >> 17u32);
            xorshift(x) == b ^ (b << 5u32)
        }),
        xorshift(0) == 0,
        xorshift(1) == 270369,
{
    assert(({
        let a = 0u32 ^ (0u32 << 13);
        let b = a ^ (a >> 17);
        b ^ (b << 5)
    }) == 0) by (bit_vector);
    assert(({
        let a = 1u32 ^ (1u32 << 13);
        let b = a ^ (a >> 17);
        b ^ (b << 5)
    }) == 270369) by (bit_vector);
}

/// The numbers by which reasons and states are kept.
pub proof fn law_reasons_and_states_have_their_numbers(r: YieldReason, s: WorkerState, v: u32)
    ensures
        reason_number(r) == 1 <==> r is Cooperative,
        reason_number(r) == 2 <==> r is Preemption,
        reason_number(r) == 3 <==> r is Finished,
        reason_of(v) is Some <==> 1 <= v <= 3,
        worker_state_number(s) == 0 <==> s is Parked,
        worker_state_number(s) == 1 <==> s is Running,
{
}

/// The mask of the first workers has the bits of those and of no others.
pub proof fn law_masks_have_a_bit_for_each_worker(total: u64, i: u64)
    requires
        i < 64,
    ensures
        bit_at(first_workers(total), i) <==> i < total,
{
    if total >= 64 {
        assert((u64::MAX >> i) & 1 == 1) by (bit_vector)
            requires
                i < 64,
        ;
    } else {
        lemma_first_workers(total, i);
    }
}

} // verus!
