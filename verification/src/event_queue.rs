//! The queue of pending simulation events.
//!
//! Events leave the queue in order of time. Events at the same time leave in
//! insertion order when the queue has fixed priority, and in an order drawn
//! from a generator of its own otherwise.

use rand::rngs::SmallRng;
use rand::{RngCore, SeedableRng};

use vstd::prelude::*;

use crate::types::{CpuId, KickFlags, Pid, TimeNs};

verus! {

/// The task that triggered a wakeup, and where it ran.
#[derive(Clone, Copy, Debug, PartialEq, Eq, Structural)]
pub struct WakerInfo {
    pub pid: Pid,
    pub cpu: CpuId,
}

/// What happens when an event is due.
///
/// Scheduled control group and interrupt events name their entry in the
/// scenario's list of such events.
#[derive(Clone, Copy, Debug, PartialEq, Eq, Structural)]
pub enum EventKind {
    /// A task wakes up. `cpu` is where the wakeup originates.
    TaskWake { pid: Pid, waker: Option<WakerInfo>, cpu: CpuId },
    /// The running task's time slice ends.
    SliceExpired { cpu: CpuId },
    /// The running task finishes its compute phase.
    TaskPhaseComplete { cpu: CpuId },
    /// A timer of the scheduler fires on the CPU that armed it.
    TimerFired { cpu: CpuId, slot: u8 },
    /// The periodic tick.
    Tick { cpu: CpuId },
    CpuOffline { cpu: CpuId },
    CpuOnline { cpu: CpuId },
    CpuRelease { cpu: CpuId },
    CpuAcquire { cpu: CpuId },
    CgroupMigrate { event: usize, cpu: CpuId },
    CgroupCreate { event: usize, cpu: CpuId },
    CgroupDestroy { event: usize, cpu: CpuId },
    CgroupCpusetChange { event: usize, cpu: CpuId },
    IrqStart { event: usize, cpu: CpuId },
    IrqEnd { cpu: CpuId },
    FutexOp { event: usize, pid: Pid },
    /// Move work from the global queue to a CPU.
    DsqConsume { cpu: CpuId },
    /// Start a picked task.
    StartRunning { cpu: CpuId, pid: Pid },
    /// A kick reaches its CPU.
    KickDelivered { cpu: CpuId, flags: KickFlags },
}

/// A pending event. Lower `seq` goes first among events at the same time.
#[derive(Clone, Copy, Debug, PartialEq, Eq, Structural)]
pub struct Event {
    pub time_ns: TimeNs,
    pub seq: u64,
    pub kind: EventKind,
}

impl Event {
    /// Whether this event goes before `other`, or ties with it.
    pub open spec fn before(self, other: Event) -> bool {
        self.time_ns < other.time_ns || (self.time_ns == other.time_ns && self.seq <= other.seq)
    }

    /// Whether this event goes strictly before `other`.
    fn is_before(&self, other: &Event) -> (r: bool)
        ensures
            r == (self.before(*other) && !other.before(*self)),
    {
        self.time_ns < other.time_ns || (self.time_ns == other.time_ns && self.seq < other.seq)
    }

    /// Whether this is a timer other than the first slot's, due by `horizon_ns`.
    pub open spec fn spec_is_early_timer(self, horizon_ns: TimeNs) -> bool {
        self.kind matches EventKind::TimerFired { cpu, slot } && slot != 0 && self.time_ns
            <= horizon_ns
    }

    fn is_early_timer(&self, horizon_ns: TimeNs) -> (r: bool)
        ensures
            r == self.spec_is_early_timer(horizon_ns),
    {
        match self.kind {
            EventKind::TimerFired { cpu: _, slot } => slot != 0 && self.time_ns <= horizon_ns,
            _ => false,
        }
    }
}

/// The pseudo-random generator that orders simultaneous events.
#[verifier::external_type_specification]
#[verifier::external_body]
pub struct ExSmallRng(SmallRng);

/// Calls `SmallRng::seed_from_u64`. Nothing is claimed of the generator: its
/// algorithm differs between platforms and releases.
#[verifier::external_body]
fn seed_rng(seed: u64) -> (r: SmallRng) {
    SmallRng::seed_from_u64(seed)
}

/// Calls `RngCore::next_u32`. Nothing is claimed of the number drawn: it
/// depends on the generator's hidden state.
#[verifier::external_body]
fn draw(rng: &mut SmallRng) -> (r: u32) {
    rng.next_u32()
}

/// The seed of the generator that orders simultaneous events.
pub open spec fn spec_event_seed(seed: u32) -> u64 {
    ((seed * 0x9e3779b9 + 0xdeadbeef) % 0x1_0000_0000_0000_0000) as u64
}

/// The seed of the generator that picks timers to run early.
pub open spec fn spec_timer_seed(seed: u32) -> u64 {
    ((seed * 0xd1b54a32d192ed03 + 0xa5a5_51c3) % 0x1_0000_0000_0000_0000) as u64
}

/// The seed of the generator that orders simultaneous events.
pub fn event_seed(seed: u32) -> (r: u64)
    ensures
        r == spec_event_seed(seed),
{
    (seed as u64).wrapping_mul(0x9e3779b9).wrapping_add(0xdeadbeef)
}

/// The seed of the generator that picks timers to run early.
pub fn timer_seed(seed: u32) -> (r: u64)
    ensures
        r == spec_timer_seed(seed),
{
    (seed as u64).wrapping_mul(0xd1b54a32d192ed03).wrapping_add(0xa5a5_51c3)
}

/// The tiebreaker of the event pushed as number `count`: the number itself
/// under fixed priority, otherwise `random` above the number's low 32 bits.
pub open spec fn spec_tiebreaker(count: u64, fixed_priority: bool, random: u32) -> u64 {
    if fixed_priority {
        count
    } else {
        (random * 0x1_0000_0000 + count % 0x1_0000_0000) as u64
    }
}

/// The tiebreaker of the event pushed as number `count`.
pub fn tiebreaker(count: u64, fixed_priority: bool, random: u32) -> (r: u64)
    ensures
        r == spec_tiebreaker(count, fixed_priority, random),
{
    if fixed_priority {
        count
    } else {
        let high: u64 = random as u64;
        assert(((high << 32) | (count & 0xFFFF_FFFF)) == high * 0x1_0000_0000 + count
            % 0x1_0000_0000) by (bit_vector)
            requires
                high <= 0xFFFF_FFFF,
        ;
        (high << 32) | (count & 0xFFFF_FFFF)
    }
}

/// Whether events stand in the order in which they leave: by time, then by
/// tiebreaker.
pub open spec fn sorted(events: Seq<Event>) -> bool {
    forall|i: int, j: int| 0 <= i <= j < events.len() ==> #[trigger] events[i].before(events[j])
}

/// Events with one more in its place: behind those that go before it or tie with
/// it.
pub open spec fn inserted(events: Seq<Event>, e: Event) -> Seq<Event>
    decreases events.len(),
{
    if events.len() == 0 || events.last().before(e) {
        events.push(e)
    } else {
        inserted(events.drop_last(), e).push(events.last())
    }
}

/// A queue as contracts see it: the pending events, next first, how many have been
/// pushed so far, whether insertion order breaks ties, the seed of the generators,
/// the numbers that are ready for the events to be pushed next, and all that the
/// generators have given: the one that orders simultaneous events, and the one that
/// picks timers to run early.
#[verifier::ext_equal]
pub struct QueueView {
    pub pending: Seq<Event>,
    pub count: nat,
    pub fixed_priority: bool,
    pub seed: u32,
    pub ready: Seq<u32>,
    pub given: Seq<u32>,
    pub tossed: Seq<u32>,
}

impl QueueView {
    /// An empty queue.
    pub open spec fn empty(seed: u32, fixed_priority: bool) -> QueueView {
        QueueView {
            pending: Seq::empty(),
            count: 0,
            fixed_priority,
            seed,
            ready: Seq::empty(),
            given: Seq::empty(),
            tossed: Seq::empty(),
        }
    }

    /// The queue with more numbers ready. Unless the priority is fixed they are those
    /// that the generator gives next.
    pub open spec fn supplied(self, drawn: Seq<u32>) -> QueueView {
        QueueView {
            ready: self.ready + drawn,
            given: if self.fixed_priority {
                self.given
            } else {
                self.given + drawn
            },
            ..self
        }
    }

    /// The queue after more numbers were drawn to pick a timer.
    pub open spec fn after_tosses(self, new: Seq<u32>) -> QueueView {
        QueueView { tossed: self.tossed + new, ..self }
    }

    /// Whether numbers can be drawn: under fixed priority nothing is drawn, and
    /// zeros stand for it.
    pub open spec fn may_draw(self, drawn: Seq<u32>) -> bool {
        self.fixed_priority ==> forall|i: int| 0 <= i < drawn.len() ==> #[trigger] drawn[i] == 0
    }

    /// How many numbers are missing for `n` pushes.
    pub open spec fn lacks(self, n: nat) -> nat {
        if self.ready.len() < n {
            (n - self.ready.len()) as nat
        } else {
            0
        }
    }

    /// The event that the next push adds. The first number drawn breaks its ties.
    pub open spec fn new_event(self, time_ns: TimeNs, kind: EventKind) -> Event {
        Event {
            time_ns,
            seq: spec_tiebreaker(self.count as u64, self.fixed_priority, self.ready[0]),
            kind,
        }
    }

    /// The queue after one more push.
    pub open spec fn push(self, time_ns: TimeNs, kind: EventKind) -> QueueView {
        QueueView {
            pending: inserted(self.pending, self.new_event(time_ns, kind)),
            count: self.count + 1,
            ready: self.ready.skip(1),
            ..self
        }
    }

    /// The queue without its `i`-th event.
    pub open spec fn take(self, i: int) -> QueueView {
        QueueView { pending: self.pending.remove(i), ..self }
    }

    /// What holds of every queue: the events stand in the order in which they leave,
    /// and under fixed priority the tiebreakers are numbers given so far.
    pub open spec fn in_order(self) -> bool {
        &&& sorted(self.pending)
        &&& self.count <= u64::MAX
        &&& self.fixed_priority ==> forall|i: int|
            0 <= i < self.pending.len() ==> (#[trigger] self.pending[i]).seq < self.count
    }
}

/// What putting an event in its place does.
pub proof fn lemma_inserted(events: Seq<Event>, e: Event)
    requires
        sorted(events),
    ensures
        sorted(inserted(events, e)),
        inserted(events, e).len() == events.len() + 1,
        inserted(events, e).contains(e),
        forall|i: int|
            0 <= i < inserted(events, e).len() ==> (#[trigger] inserted(events, e)[i]) == e
                || events.contains(inserted(events, e)[i]),
        forall|i: int|
            0 <= i < events.len() ==> inserted(events, e).contains(#[trigger] events[i]),
    decreases events.len(),
{
    let r = inserted(events, e);
    if events.len() == 0 || events.last().before(e) {
        assert(r[events.len() as int] == e);
        assert forall|i: int| 0 <= i < r.len() implies (#[trigger] r[i]) == e || events.contains(
            r[i],
        ) by {
            if i < events.len() {
                assert(events[i] == r[i]);
            }
        }
        assert forall|i: int| 0 <= i < events.len() implies r.contains(#[trigger] events[i]) by {
            assert(r[i] == events[i]);
        }
        assert forall|i: int, j: int| 0 <= i <= j < r.len() implies #[trigger] r[i].before(
            r[j],
        ) by {
            if j < events.len() {
                assert(events[i].before(events[j]));
            } else if i < events.len() {
                assert(events[i].before(events[events.len() - 1]));
            }
        }
    } else {
        let rest = events.drop_last();
        let last = events.last();
        assert forall|i: int, j: int| 0 <= i <= j < rest.len() implies #[trigger] rest[i].before(
            rest[j],
        ) by {
            assert(events[i].before(events[j]));
        }
        lemma_inserted(rest, e);
        let q = inserted(rest, e);
        let k = choose|k: int| 0 <= k < q.len() && q[k] == e;
        assert(r[k] == e);
        assert forall|i: int| 0 <= i < r.len() implies (#[trigger] r[i]) == e || events.contains(
            r[i],
        ) by {
            if i < q.len() {
                assert(r[i] == q[i]);
                if q[i] != e {
                    let m = choose|m: int| 0 <= m < rest.len() && rest[m] == q[i];
                    assert(events[m] == r[i]);
                }
            } else {
                assert(events[events.len() - 1] == r[i]);
            }
        }
        assert forall|i: int| 0 <= i < events.len() implies r.contains(#[trigger] events[i]) by {
            if i < rest.len() {
                assert(rest[i] == events[i]);
                assert(q.contains(rest[i]));
                let m = choose|m: int| 0 <= m < q.len() && q[m] == rest[i];
                assert(r[m] == events[i]);
            } else {
                assert(r[q.len() as int] == events[i]);
            }
        }
        assert forall|i: int, j: int| 0 <= i <= j < r.len() implies #[trigger] r[i].before(
            r[j],
        ) by {
            if j < q.len() {
                assert(q[i].before(q[j]));
            } else if i < q.len() {
                if q[i] != e {
                    assert(rest.contains(q[i]));
                    let m = choose|m: int| 0 <= m < rest.len() && rest[m] == q[i];
                    assert(events[m].before(events[events.len() - 1]));
                }
            }
        }
    }
}

/// A queue stays in order: whatever is pushed, drawn or taken, events leave by
/// time, then by tiebreaker.
pub proof fn law_queues_stay_in_order(
    q: QueueView,
    time_ns: TimeNs,
    kind: EventKind,
    drawn: Seq<u32>,
    i: int,
)
    requires
        q.in_order(),
    ensures
        q.count < u64::MAX ==> q.push(time_ns, kind).in_order(),
        q.supplied(drawn).in_order(),
        0 <= i < q.pending.len() ==> q.take(i).in_order(),
{
    let e = q.new_event(time_ns, kind);
    lemma_inserted(q.pending, e);
    let p = q.push(time_ns, kind).pending;
    if q.fixed_priority && q.count < u64::MAX {
        assert forall|k: int| 0 <= k < p.len() implies (#[trigger] p[k]).seq < q.count + 1 by {
            if p[k] != e {
                let m = choose|m: int| 0 <= m < q.pending.len() && q.pending[m] == p[k];
                assert(q.pending[m].seq < q.count);
            }
        }
    }
    if 0 <= i < q.pending.len() {
        let t = q.take(i).pending;
        assert forall|a: int, b: int| 0 <= a <= b < t.len() implies #[trigger] t[a].before(
            t[b],
        ) by {
            let a0 = if a < i {
                a
            } else {
                a + 1
            };
            let b0 = if b < i {
                b
            } else {
                b + 1
            };
            assert(q.pending[a0].before(q.pending[b0]));
        }
        if q.fixed_priority {
            assert forall|k: int| 0 <= k < t.len() implies (#[trigger] t[k]).seq < q.count by {
                assert(t[k] == q.pending[if k < i {
                    k
                } else {
                    k + 1
                }]);
            }
        }
    }
}

/// Events leave in order of time: what leaves after an event is not due before
/// it.
pub proof fn law_events_leave_in_time_order(q: QueueView)
    requires
        q.in_order(),
        q.pending.len() > 1,
    ensures
        q.pending[0].time_ns <= q.take(0).pending[0].time_ns,
{
    assert(q.pending[0].before(q.pending[1]));
}

/// Under fixed priority events at the same time leave in insertion order: one that
/// is pushed stands behind all that are due no later.
pub proof fn law_fixed_priority_is_first_in_first_out(
    q: QueueView,
    time_ns: TimeNs,
    kind: EventKind,
    i: int,
    j: int,
)
    requires
        q.fixed_priority,
        q.in_order(),
        q.count < u64::MAX,
        0 <= i < q.push(time_ns, kind).pending.len(),
        0 <= j < q.push(time_ns, kind).pending.len(),
        q.push(time_ns, kind).pending[i] == q.new_event(time_ns, kind),
        q.push(time_ns, kind).pending[j] != q.new_event(time_ns, kind),
        q.push(time_ns, kind).pending[j].time_ns <= time_ns,
    ensures
        j < i,
{
    let p = q.push(time_ns, kind).pending;
    lemma_inserted(q.pending, q.new_event(time_ns, kind));
    let m = choose|m: int| 0 <= m < q.pending.len() && q.pending[m] == p[j];
    assert(q.pending[m].seq < q.count);
    if i <= j {
        assert(p[i].before(p[j]));
    }
}

/// A generator, what it was seeded with and what it has given since.
struct Seeded {
    rng: SmallRng,
    seed: u64,
    given: Ghost<Seq<u32>>,
}

impl Seeded {
    /// A generator seeded with a number.
    fn new(seed: u64) -> (r: Seeded)
        ensures
            r.seed == seed,
            r.given@ == Seq::<u32>::empty(),
    {
        Seeded { rng: seed_rng(seed), seed, given: Ghost(Seq::empty()) }
    }

    /// The next number.
    fn draw(&mut self) -> (r: u32)
        ensures
            final(self).seed == old(self).seed,
            final(self).given@ == old(self).given@.push(r),
    {
        let x = draw(&mut self.rng);
        self.given = Ghost(self.given@.push(x));
        x
    }
}

/// The pending events of a simulation.
pub struct EventQueue {
    /// The pending events, next first.
    events: Vec<Event>,
    /// How many events have been pushed.
    seq: u64,
    /// What the generators were seeded from.
    seed: u32,
    /// Orders simultaneous events unless the priority is fixed.
    event_rng: Seeded,
    /// Numbers drawn for the next events.
    ready: Vec<u32>,
    /// Picks timers to run early.
    timer_interleave_rng: Seeded,
    fixed_priority: bool,
}

/// Whether a queue is another without an event.
pub open spec fn taken_from(before: QueueView, at: int, e: Event, after: QueueView) -> bool {
    0 <= at < before.pending.len() && before.pending[at] == e && after == before.take(at)
}

impl View for EventQueue {
    type V = QueueView;

    closed spec fn view(&self) -> QueueView {
        QueueView {
            pending: self.events@,
            count: self.seq as nat,
            fixed_priority: self.fixed_priority,
            seed: self.seed,
            ready: self.ready@,
            given: self.event_rng.given@,
            tossed: self.timer_interleave_rng.given@,
        }
    }
}

impl EventQueue {
    /// The events stand in the order in which they leave, and the generators were
    /// seeded from the queue's seed.
    pub open spec fn wf(&self) -> bool {
        self@.in_order() && self.is_seeded()
    }

    /// Each generator was seeded with its own number out of the queue's seed.
    pub closed spec fn is_seeded(&self) -> bool {
        &&& self.event_rng.seed == spec_event_seed(self.seed)
        &&& self.timer_interleave_rng.seed == spec_timer_seed(self.seed)
    }

    /// An empty queue whose generators are seeded from the scenario's seed.
    pub fn new(seed: u32, fixed_priority: bool) -> (r: EventQueue)
        ensures
            r.wf(),
            r@ == QueueView::empty(seed, fixed_priority),
    {
        EventQueue {
            events: Vec::new(),
            seq: 0,
            seed,
            event_rng: Seeded::new(event_seed(seed)),
            ready: Vec::new(),
            timer_interleave_rng: Seeded::new(timer_seed(seed)),
            fixed_priority,
        }
    }

    /// Draws numbers until there are enough for `n` pushes. Under fixed priority
    /// nothing is drawn, and zeros stand for it.
    pub fn supply(&mut self, n: usize)
        requires
            old(self).wf(),
        ensures
            final(self).wf(),
            exists|drawn: Seq<u32>|
                {
                    &&& final(self)@ == #[trigger] old(self)@.supplied(drawn)
                    &&& old(self)@.may_draw(drawn)
                    &&& drawn.len() == old(self)@.lacks(n as nat)
                },
    {
        let ghost mut drawn = Seq::<u32>::empty();
        proof {
            assert(self@ =~= old(self)@.supplied(drawn));
        }
        while self.ready.len() < n
            invariant
                self.is_seeded(),
                self@ == old(self)@.supplied(drawn),
                old(self)@.may_draw(drawn),
                self.ready@.len() == old(self)@.ready.len() + drawn.len(),
                drawn.len() <= old(self)@.lacks(n as nat),
            decreases n - self.ready.len(),
        {
            let x: u32 = if self.fixed_priority {
                0
            } else {
                self.event_rng.draw()
            };
            self.ready.push(x);
            proof {
                let before = drawn;
                drawn = drawn.push(x);
                assert(self@ =~= old(self)@.supplied(drawn));
                if old(self)@.fixed_priority {
                    assert forall|i: int| 0 <= i < drawn.len() implies #[trigger] drawn[i]
                        == 0 by {
                        if i < before.len() {
                            assert(before[i] == 0);
                        }
                    }
                }
            }
        }
    }

    /// Adds an event. A number is drawn for it unless one is ready.
    pub fn push(&mut self, time_ns: TimeNs, kind: EventKind)
        requires
            old(self).wf(),
            old(self)@.count < u64::MAX,
        ensures
            final(self).wf(),
            exists|drawn: Seq<u32>|
                {
                    &&& final(self)@ == (#[trigger] old(self)@.supplied(drawn)).push(time_ns, kind)
                    &&& old(self)@.may_draw(drawn)
                    &&& drawn.len() == old(self)@.lacks(1)
                },
    {
        self.supply(1);
        let ghost q = self@;
        let random = self.ready.remove(0);
        let event = Event { time_ns, seq: tiebreaker(self.seq, self.fixed_priority, random), kind };
        self.seq = self.seq + 1;
        let mut at: usize = self.events.len();
        proof {
            assert(event == q.new_event(time_ns, kind));
            assert(q.pending.take(at as int) =~= q.pending);
            assert(inserted(q.pending, event) =~= inserted(q.pending.take(at as int), event)
                + q.pending.skip(at as int));
        }
        while at > 0 && event.is_before(&self.events[at - 1])
            invariant
                at <= q.pending.len(),
                self.is_seeded(),
                self.events@ == q.pending,
                self.ready@ == q.ready.skip(1),
                self.event_rng.given@ == q.given,
                self.timer_interleave_rng.given@ == q.tossed,
                self.seq == q.count + 1,
                self.seed == q.seed,
                self.fixed_priority == q.fixed_priority,
                inserted(q.pending, event) == inserted(q.pending.take(at as int), event)
                    + q.pending.skip(at as int),
            decreases at,
        {
            at = at - 1;
            proof {
                assert(q.pending.take(at + 1).drop_last() =~= q.pending.take(at as int));
                assert(inserted(q.pending, event) =~= inserted(
                    q.pending.take(at as int),
                    event,
                ) + q.pending.skip(at as int));
            }
        }
        self.events.insert(at, event);
        proof {
            assert(self.events@ =~= inserted(q.pending, event));
            assert(self@ =~= q.push(time_ns, kind));
            law_queues_stay_in_order(q, time_ns, kind, Seq::empty(), 0);
        }
    }

    /// Removes the event at position `at` of the queue.
    fn remove_at(&mut self, at: usize) -> (e: Event)
        requires
            old(self).wf(),
            at < old(self)@.pending.len(),
        ensures
            final(self).wf(),
            taken_from(old(self)@, at as int, e, final(self)@),
    {
        let e = self.events.remove(at);
        proof {
            law_queues_stay_in_order(
                old(self)@,
                0,
                EventKind::Tick { cpu: CpuId(0) },
                Seq::empty(),
                at as int,
            );
            assert(self@ =~= old(self)@.take(at as int));
        }
        e
    }

    /// Removes the event that is due next.
    pub fn pop(&mut self) -> (r: Option<Event>)
        requires
            old(self).wf(),
        ensures
            final(self).wf(),
            match r {
                Some(e) => taken_from(old(self)@, 0, e, final(self)@),
                None => old(self)@.pending.len() == 0 && final(self)@ == old(self)@,
            },
    {
        if self.events.len() == 0 {
            return None;
        }
        Some(self.remove_at(0))
    }

    /// How many events have been pushed.
    pub fn count(&self) -> (r: u64)
        ensures
            r == self@.count,
    {
        self.seq
    }

    /// When the next event is due.
    pub fn peek_time(&self) -> (r: Option<TimeNs>)
        ensures
            r == if self@.pending.len() == 0 {
                None
            } else {
                Some(self@.pending[0].time_ns)
            },
    {
        if self.events.len() == 0 {
            None
        } else {
            Some(self.events[0].time_ns)
        }
    }

    /// The position in the queue of the `nth` timer that may run early,
    /// counted from the front.
    fn early_timer(&self, horizon_ns: TimeNs, nth: usize) -> (r: Option<usize>)
        ensures
            match r {
                Some(at) => {
                    &&& at < self@.pending.len()
                    &&& nth < early_timers(self@.pending, horizon_ns).len()
                    &&& self@.pending[at as int] == early_timers(
                        self@.pending,
                        horizon_ns,
                    )[nth as int]
                },
                None => early_timers(self@.pending, horizon_ns).len() <= nth,
            },
    {
        let mut at: usize = 0;
        let mut seen: usize = 0;
        proof {
            assert(self.events@.take(0) =~= Seq::empty());
        }
        while at < self.events.len()
            invariant
                at <= self.events.len(),
                seen <= nth,
                seen <= at,
                seen == early_timers(self.events@.take(at as int), horizon_ns).len(),
            decreases self.events.len() - at,
        {
            proof {
                assert(self.events@.take(at + 1).drop_last() =~= self.events@.take(at as int));
            }
            if self.events[at].is_early_timer(horizon_ns) {
                if seen == nth {
                    proof {
                        lemma_early_timers_at(self.events@, horizon_ns, at as int);
                    }
                    return Some(at);
                }
                seen = seen + 1;
            }
            at = at + 1;
        }
        proof {
            assert(self.events@.take(at as int) =~= self.events@);
        }
        None
    }

    /// How many pending timers may run early.
    fn count_early_timers(&self, horizon_ns: TimeNs) -> (r: usize)
        ensures
            r == early_timers(self@.pending, horizon_ns).len(),
    {
        let mut at: usize = 0;
        let mut seen: usize = 0;
        proof {
            assert(self.events@.take(0) =~= Seq::empty());
        }
        while at < self.events.len()
            invariant
                at <= self.events.len(),
                seen <= at,
                seen == early_timers(self.events@.take(at as int), horizon_ns).len(),
            decreases self.events.len() - at,
        {
            proof {
                assert(self.events@.take(at + 1).drop_last() =~= self.events@.take(at as int));
            }
            if self.events[at].is_early_timer(horizon_ns) {
                seen = seen + 1;
            }
            at = at + 1;
        }
        proof {
            assert(self.events@.take(at as int) =~= self.events@);
        }
        seen
    }

    /// Removes the first timer that may run before its time: one that is not of the
    /// first slot and is due by `horizon_ns`.
    pub fn pop_targeted_timer_interleave(&mut self, horizon_ns: TimeNs) -> (r: Option<Event>)
        requires
            old(self).wf(),
        ensures
            final(self).wf(),
            r == timer_drawn(old(self)@.pending, horizon_ns, 1, 0, 0),
            match r {
                Some(e) => exists|at: int| #[trigger]
                    taken_from(old(self)@, at, e, final(self)@),
                None => final(self)@ == old(self)@,
            },
    {
        match self.early_timer(horizon_ns, 0) {
            None => None,
            Some(at) => {
                let e = self.remove_at(at);
                assert(taken_from(old(self)@, at as int, e, self@));
                Some(e)
            },
        }
    }

    /// Removes a timer that may run before its time, as two draws say: `gate`
    /// whether one runs at all, which one call in `one_in` does, and `pick` which
    /// of those that may.
    pub fn pop_timer_with_draws(
        &mut self,
        horizon_ns: TimeNs,
        one_in: u32,
        gate: u32,
        pick: u32,
    ) -> (r: Option<Event>)
        requires
            old(self).wf(),
        ensures
            final(self).wf(),
            r == timer_drawn(old(self)@.pending, horizon_ns, one_in, gate, pick),
            match r {
                Some(e) => exists|at: int| #[trigger]
                    taken_from(old(self)@, at, e, final(self)@),
                None => final(self)@ == old(self)@,
            },
    {
        if one_in > 1 && gate % one_in != 0 {
            return None;
        }
        let candidates = self.count_early_timers(horizon_ns);
        if candidates == 0 {
            return None;
        }
        let nth: usize = pick as usize % candidates;
        match self.early_timer(horizon_ns, nth) {
            None => None,
            Some(at) => {
                let e = self.remove_at(at);
                assert(taken_from(old(self)@, at as int, e, self@));
                Some(e)
            },
        }
    }

    /// Removes a randomly chosen timer that may run before its time, on about
    /// one call in `one_in`.
    pub fn pop_stochastic_timer_interleave(&mut self, horizon_ns: TimeNs, one_in: u32) -> (r: Option<
        Event,
    >)
        requires
            old(self).wf(),
        ensures
            final(self).wf(),
            exists|new: Seq<u32>| #[trigger]
                taken_by_tosses(old(self)@, horizon_ns, one_in, new, r, final(self)@),
    {
        let ghost mut new: Seq<u32> = Seq::empty();
        let mut gate: u32 = 0;
        if one_in > 1 {
            gate = self.timer_interleave_rng.draw();
            proof {
                new = new.push(gate);
            }
        }
        let mut pick: u32 = 0;
        if (one_in <= 1 || gate % one_in == 0) && self.count_early_timers(horizon_ns) > 0 {
            pick = self.timer_interleave_rng.draw();
            proof {
                new = new.push(pick);
            }
        }
        assert(self@ =~= old(self)@.after_tosses(new));
        let r = self.pop_timer_with_draws(horizon_ns, one_in, gate, pick);
        assert(taken_by_tosses(old(self)@, horizon_ns, one_in, new, r, self@));
        r
    }
}

/// The timers among events that may run early, in order.
pub open spec fn early_timers(events: Seq<Event>, horizon_ns: TimeNs) -> Seq<Event>
    decreases events.len(),
{
    if events.len() == 0 {
        Seq::empty()
    } else {
        let before = early_timers(events.drop_last(), horizon_ns);
        if events.last().spec_is_early_timer(horizon_ns) {
            before.push(events.last())
        } else {
            before
        }
    }
}

/// How many numbers are drawn to pick a timer: one says whether any runs early,
/// unless every call may, and one more which, where there is one to pick.
pub open spec fn nr_tosses(
    events: Seq<Event>,
    horizon_ns: TimeNs,
    one_in: u32,
    gate: u32,
) -> nat {
    let pick: nat = if timer_drawn(events, horizon_ns, one_in, gate, 0) is Some {
        1
    } else {
        0
    };
    if one_in > 1 {
        pick + 1
    } else {
        pick
    }
}

/// Whether a timer is taken as newly drawn numbers say: the first whether any runs
/// early, unless every call may, and the last which.
pub open spec fn taken_by_tosses(
    before: QueueView,
    horizon_ns: TimeNs,
    one_in: u32,
    new: Seq<u32>,
    r: Option<Event>,
    after: QueueView,
) -> bool {
    let gate = if one_in > 1 {
        new[0]
    } else {
        0
    };
    &&& new.len() == nr_tosses(before.pending, horizon_ns, one_in, gate)
    &&& r == timer_drawn(before.pending, horizon_ns, one_in, gate, new.last())
    &&& match r {
        Some(e) => exists|at: int| #[trigger]
            taken_from(before.after_tosses(new), at, e, after),
        None => after == before.after_tosses(new),
    }
}

/// The timer that runs early after two draws, if any does: none unless `one_in`
/// divides the first, and otherwise the one of those that may that the second
/// falls on.
pub open spec fn timer_drawn(
    events: Seq<Event>,
    horizon_ns: TimeNs,
    one_in: u32,
    gate: u32,
    pick: u32,
) -> Option<Event> {
    let timers = early_timers(events, horizon_ns);
    if (one_in > 1 && gate % one_in != 0) || timers.len() == 0 {
        None
    } else {
        Some(timers[pick as int % timers.len() as int])
    }
}

/// A timer that may run early stands behind those before it.
proof fn lemma_early_timers_at(events: Seq<Event>, horizon_ns: TimeNs, k: int)
    requires
        0 <= k < events.len(),
        events[k].spec_is_early_timer(horizon_ns),
    ensures
        ({
            let nth = early_timers(events.take(k), horizon_ns).len() as int;
            &&& nth < early_timers(events, horizon_ns).len()
            &&& early_timers(events, horizon_ns)[nth] == events[k]
        }),
    decreases events.len(),
{
    let rest = events.drop_last();
    if k < rest.len() {
        assert(rest[k] == events[k]);
        assert(rest.take(k) =~= events.take(k));
        lemma_early_timers_at(rest, horizon_ns, k);
    } else {
        assert(events.take(k) =~= rest);
    }
}

/// What a pending event shows of itself: when it is due and what it does.
pub open spec fn due(e: Event) -> (TimeNs, EventKind) {
    (e.time_ns, e.kind)
}

/// What events show of themselves, in order.
pub open spec fn dues(events: Seq<Event>) -> Seq<(TimeNs, EventKind)> {
    events.map_values(|e: Event| due(e))
}

impl QueueView {
    /// The queue after more pushes, in order. A zero stands for each draw, as it does
    /// under fixed priority.
    pub open spec fn push_all(self, items: Seq<(TimeNs, EventKind)>) -> QueueView
        decreases items.len(),
    {
        if items.len() == 0 {
            self
        } else {
            self.push_all(items.drop_last()).supplied(seq![0]).push(
                items.last().0,
                items.last().1,
            )
        }
    }

    /// Whether events come out in this order when the queue is emptied.
    pub open spec fn empties_as(self, out: Seq<(TimeNs, EventKind)>) -> bool
        decreases out.len(),
    {
        if self.pending.len() == 0 || out.len() == 0 {
            self.pending.len() == 0 && out.len() == 0
        } else {
            due(self.pending[0]) == out[0] && self.take(0).empties_as(out.skip(1))
        }
    }
}

/// The events of a list that are due at a time, in order.
pub open spec fn at_time(items: Seq<(TimeNs, EventKind)>, t: TimeNs) -> Seq<(TimeNs, EventKind)>
    decreases items.len(),
{
    if items.len() == 0 {
        Seq::empty()
    } else if items.last().0 == t {
        at_time(items.drop_last(), t).push(items.last())
    } else {
        at_time(items.drop_last(), t)
    }
}

proof fn lemma_at_time_push(
    items: Seq<(TimeNs, EventKind)>,
    x: (TimeNs, EventKind),
    t: TimeNs,
)
    ensures
        at_time(items.push(x), t) == if x.0 == t {
            at_time(items, t).push(x)
        } else {
            at_time(items, t)
        },
{
    assert(items.push(x).drop_last() =~= items);
}

/// An event put in its place comes last among those of its time.
proof fn lemma_inserted_at_time(events: Seq<Event>, e: Event, t: TimeNs)
    requires
        forall|i: int| 0 <= i < events.len() ==> (#[trigger] events[i]).seq < e.seq,
    ensures
        at_time(dues(inserted(events, e)), t) == if e.time_ns == t {
            at_time(dues(events), t).push(due(e))
        } else {
            at_time(dues(events), t)
        },
    decreases events.len(),
{
    if events.len() == 0 || events.last().before(e) {
        assert(dues(events.push(e)) =~= dues(events).push(due(e)));
        lemma_at_time_push(dues(events), due(e), t);
    } else {
        let rest = events.drop_last();
        let last = events.last();
        assert(events[events.len() - 1].seq < e.seq);
        assert forall|i: int| 0 <= i < rest.len() implies (#[trigger] rest[i]).seq < e.seq by {
            assert(events[i].seq < e.seq);
        }
        lemma_inserted_at_time(rest, e, t);
        let q = inserted(rest, e);
        assert(dues(q.push(last)) =~= dues(q).push(due(last)));
        lemma_at_time_push(dues(q), due(last), t);
        assert(dues(events) =~= dues(rest).push(due(last)));
        lemma_at_time_push(dues(rest), due(last), t);
    }
}

/// What is in a queue of fixed priority after some pushes.
proof fn lemma_push_all(seed: u32, items: Seq<(TimeNs, EventKind)>)
    requires
        items.len() <= u64::MAX,
    ensures
        ({
            let q = QueueView::empty(seed, true).push_all(items);
            &&& q.in_order()
            &&& q.fixed_priority
            &&& q.count == items.len()
            &&& q.pending.len() == items.len()
            &&& forall|t: TimeNs| #[trigger] at_time(dues(q.pending), t) == at_time(items, t)
        }),
    decreases items.len(),
{
    let q = QueueView::empty(seed, true).push_all(items);
    if items.len() > 0 {
        let rest = items.drop_last();
        let x = items.last();
        lemma_push_all(seed, rest);
        let p = QueueView::empty(seed, true).push_all(rest).supplied(seq![0]);
        law_queues_stay_in_order(
            QueueView::empty(seed, true).push_all(rest),
            x.0,
            x.1,
            seq![0],
            0,
        );
        law_queues_stay_in_order(p, x.0, x.1, seq![0], 0);
        let e = p.new_event(x.0, x.1);
        lemma_inserted(p.pending, e);
        assert forall|t: TimeNs| #[trigger] at_time(dues(q.pending), t) == at_time(items, t) by {
            lemma_inserted_at_time(p.pending, e, t);
            assert(at_time(dues(p.pending), t) == at_time(rest, t));
        }
    } else {
        assert(dues(q.pending) =~= items);
    }
}

proof fn lemma_empties_as(q: QueueView, out: Seq<(TimeNs, EventKind)>)
    requires
        q.empties_as(out),
    ensures
        out == dues(q.pending),
    decreases out.len(),
{
    if out.len() > 0 {
        lemma_empties_as(q.take(0), out.skip(1));
        assert forall|i: int| 0 <= i < out.len() implies out[i] == dues(q.pending)[i] by {
            if i > 0 {
                assert(out.skip(1)[i - 1] == out[i]);
                assert(q.take(0).pending[i - 1] == q.pending[i]);
            }
        }
        assert(out.skip(1).len() == q.take(0).pending.len());
    }
    assert(out =~= dues(q.pending));
}

/// Under fixed priority events come out stably sorted: as many as were pushed, in
/// order of time, and those of one time in the order in which they were pushed.
pub proof fn law_fixed_priority_sorts_stably(
    seed: u32,
    items: Seq<(TimeNs, EventKind)>,
    out: Seq<(TimeNs, EventKind)>,
)
    requires
        items.len() <= u64::MAX,
        QueueView::empty(seed, true).push_all(items).empties_as(out),
    ensures
        out.len() == items.len(),
        forall|j: int, k: int| 0 <= j <= k < out.len() ==> (#[trigger] out[j]).0 <= (
        #[trigger] out[k]).0,
        forall|t: TimeNs| #[trigger] at_time(out, t) == at_time(items, t),
{
    let q = QueueView::empty(seed, true).push_all(items);
    lemma_push_all(seed, items);
    lemma_empties_as(q, out);
    assert forall|j: int, k: int| 0 <= j <= k < out.len() implies (#[trigger] out[j]).0 <= (
    #[trigger] out[k]).0 by {
        assert(q.pending[j].before(q.pending[k]));
    }
}

/// Events are ordered by their times, those of the same time by their tiebreakers; of two
/// events one goes before the other.
pub proof fn law_events_are_ordered_by_time(a: Event, b: Event, c: Event)
    ensures
        a.time_ns < b.time_ns ==> a.before(b) && !b.before(a),
        a.time_ns == b.time_ns && a.seq < b.seq ==> a.before(b) && !b.before(a),
        a.before(b) || b.before(a),
        a.before(b) && b.before(c) ==> a.before(c),
        a.before(b) && b.before(a) ==> a.time_ns == b.time_ns && a.seq == b.seq,
{
}

/// An event that is pushed is pending, at its time and of its kind; no other comes, none
/// goes, and it is counted.
pub proof fn law_a_pushed_event_is_pending(q: QueueView, time_ns: TimeNs, kind: EventKind, i: int)
    requires
        q.in_order(),
    ensures
        ({
            let p = q.push(time_ns, kind);
            &&& p.pending.len() == q.pending.len() + 1
            &&& exists|k: int|
                0 <= k < p.pending.len() && (#[trigger] p.pending[k]).time_ns == time_ns
                    && p.pending[k].kind == kind
            &&& 0 <= i < q.pending.len() ==> p.pending.contains(q.pending[i])
            &&& 0 <= i < p.pending.len() && !q.pending.contains(p.pending[i]) ==> p.pending[i].kind
                == kind && p.pending[i].time_ns == time_ns
            &&& p.count == q.count + 1
            &&& p.fixed_priority == q.fixed_priority && p.seed == q.seed && p.given == q.given
                && p.tossed == q.tossed
        }),
{
    let e = q.new_event(time_ns, kind);
    lemma_inserted(q.pending, e);
    let p = q.push(time_ns, kind).pending;
    let k = choose|k: int| 0 <= k < p.len() && p[k] == e;
    assert(p[k].time_ns == time_ns);
}

/// Ties are broken by the order of pushes under fixed priority. Otherwise the number drawn
/// decides, and the order of pushes only between equal draws.
pub proof fn law_ties_are_broken_by_draws_then_by_order(a: u64, b: u64, x: u32, y: u32)
    ensures
        spec_tiebreaker(a, true, x) == a,
        x < y ==> spec_tiebreaker(a, false, x) < spec_tiebreaker(b, false, y),
        a < b < 0x1_0000_0000 ==> spec_tiebreaker(a, false, x) < spec_tiebreaker(b, false, x),
        spec_tiebreaker(a, false, x) / 0x1_0000_0000 == x,
        a < 0x1_0000_0000 ==> spec_tiebreaker(a, false, x) % 0x1_0000_0000 == a,
{
}

/// Different seeds give the generators different starts, which are what they were on every
/// machine.
pub proof fn law_seeds_give_different_starts(a: u32, b: u32)
    ensures
        spec_event_seed(a) == a * 0x9e3779b9 + 0xdeadbeef,
        spec_event_seed(a) == spec_event_seed(b) ==> a == b,
        spec_timer_seed(0) == 0xa5a5_51c3,
        (spec_timer_seed(a) - 0xa5a5_51c3 - a * 0xd1b54a32d192ed03) % 0x1_0000_0000_0000_0000
            == 0,
{
    assert(a * 0x9e3779b9 + 0xdeadbeef < 0x1_0000_0000_0000_0000) by (nonlinear_arith)
        requires
            a <= u32::MAX,
    ;
    assert(b * 0x9e3779b9 + 0xdeadbeef < 0x1_0000_0000_0000_0000) by (nonlinear_arith)
        requires
            b <= u32::MAX,
    ;
}

/// What may run early are timers other than that of the first slot, due by the horizon:
/// each such event, in order, and no other.
pub proof fn law_only_later_slots_run_early(events: Seq<Event>, horizon_ns: TimeNs, i: int)
    ensures
        ({
            let all = early_timers(events, horizon_ns);
            &&& all.len() <= events.len()
            &&& 0 <= i < all.len() ==> {
                &&& all[i].kind is TimerFired && all[i].kind->slot != 0 && all[i].time_ns
                    <= horizon_ns
                &&& events.contains(all[i])
            }
            &&& 0 <= i < events.len() && events[i].kind is TimerFired && events[i].kind->slot != 0
                && events[i].time_ns <= horizon_ns ==> all.contains(events[i])
        }),
    decreases events.len(),
{
    if events.len() > 0 {
        let rest = events.drop_last();
        let before = early_timers(rest, horizon_ns);
        let all = early_timers(events, horizon_ns);
        law_only_later_slots_run_early(rest, horizon_ns, i);
        if 0 <= i < all.len() {
            if i < before.len() {
                let k = choose|k: int| 0 <= k < rest.len() && rest[k] == before[i];
                assert(events[k] == all[i]);
            } else {
                assert(events[events.len() - 1] == all[i]);
            }
        }
        if 0 <= i < events.len() && events[i].spec_is_early_timer(horizon_ns) {
            if i < rest.len() {
                assert(rest[i] == events[i]);
                let k = choose|k: int| 0 <= k < before.len() && before[k] == events[i];
                assert(all[k] == events[i]);
            } else {
                assert(all[before.len() as int] == events[i]);
            }
        }
    }
}

/// A timer runs early exactly if the rate lets it, by the first number drawn, and there is
/// one; it is one of those that may, the one that the second number falls on.
pub proof fn law_timers_run_early_at_their_rate(
    events: Seq<Event>,
    horizon_ns: TimeNs,
    one_in: u32,
    gate: u32,
    pick: u32,
)
    ensures
        ({
            let timers = early_timers(events, horizon_ns);
            let r = timer_drawn(events, horizon_ns, one_in, gate, pick);
            let open = one_in <= 1 || gate % one_in == 0;
            &&& r is Some <==> open && timers.len() > 0
            &&& r is Some ==> timers.contains(r->0) && r->0 == timers[pick as int
                % timers.len() as int]
            &&& one_in <= 1 ==> nr_tosses(events, horizon_ns, one_in, gate) == (if timers.len() > 0 {
                1nat
            } else {
                0nat
            })
            &&& one_in > 1 ==> nr_tosses(events, horizon_ns, one_in, gate) == (if open
                && timers.len() > 0 {
                2nat
            } else {
                1nat
            })
        }),
{
    let timers = early_timers(events, horizon_ns);
    if timers.len() > 0 {
        let k = pick as int % timers.len() as int;
        assert(0 <= k < timers.len()) by (nonlinear_arith)
            requires
                timers.len() > 0,
                k == pick as int % timers.len() as int,
        ;
        assert(timers[k] == timers[k]);
    }
}

/// Numbers are drawn for as many pushes as lack one, and under fixed priority nothing is
/// taken from the generator.
pub proof fn law_numbers_are_drawn_for_pushes(q: QueueView, drawn: Seq<u32>, n: nat, i: int)
    ensures
        q.ready.len() + q.lacks(n) >= n,
        q.ready.len() >= n ==> q.lacks(n) == 0,
        q.supplied(drawn).ready == q.ready + drawn,
        q.fixed_priority ==> q.supplied(drawn).given == q.given,
        !q.fixed_priority ==> q.supplied(drawn).given == q.given + drawn,
        q.supplied(drawn).pending == q.pending && q.supplied(drawn).count == q.count,
        q.fixed_priority && q.may_draw(drawn) && 0 <= i < drawn.len() ==> drawn[i] == 0,
{
}

/// A queue from which an event was taken is the queue without it: the event was there, the
/// others stay in their order, and nothing else changes.
pub proof fn law_a_taken_event_leaves_the_others(
    before: QueueView,
    at: int,
    e: Event,
    after: QueueView,
    i: int,
)
    requires
        taken_from(before, at, e, after),
    ensures
        0 <= at < before.pending.len() && before.pending[at] == e,
        after.pending.len() == before.pending.len() - 1,
        0 <= i < at ==> after.pending[i] == before.pending[i],
        at <= i < after.pending.len() ==> after.pending[i] == before.pending[i + 1],
        after.count == before.count && after.ready == before.ready && after.given
            == before.given && after.tossed == before.tossed && after.seed == before.seed
            && after.fixed_priority == before.fixed_priority,
{
}

} // verus!
