//! CPU bandwidth limits of control groups (`cpu.max`).
//!
//! A group with a finite quota has a runtime budget per period. Runtime is
//! charged to a group and to all groups above it; a group whose budget is used
//! up is throttled until its budget is refilled, and a task is held back while
//! its group or any group above it is throttled.

use vstd::prelude::*;

use crate::types::{CgroupId, Pid, TimeNs};

verus! {

/// The bandwidth state of one control group.
#[derive(Debug, Clone)]
pub struct CgroupBandwidthState {
    /// Budget per period.
    pub quota_ns: u64,
    pub period_ns: u64,
    /// What is left of the budget. Negative when a task ran past the end of
    /// it; the deficit does not reduce the next period's budget.
    pub runtime_remaining_ns: i64,
    /// Whether tasks of the group are held back.
    pub throttled: bool,
    /// When the current period began.
    pub period_start_ns: TimeNs,
    /// Tasks to let go when the group is refilled.
    pub throttled_pids: Vec<Pid>,
}

/// A bandwidth state as contracts see it.
#[verifier::ext_equal]
pub struct BwView {
    pub quota_ns: u64,
    pub period_ns: u64,
    pub remaining_ns: i64,
    pub throttled: bool,
    pub period_start_ns: TimeNs,
    pub throttled_pids: Seq<Pid>,
}

impl BwView {
    /// A group with its whole budget.
    pub open spec fn fresh(quota_us: u64, period_us: u64, now_ns: TimeNs) -> BwView {
        BwView {
            quota_ns: (quota_us * 1000) as u64,
            period_ns: (period_us * 1000) as u64,
            remaining_ns: (quota_us * 1000) as i64,
            throttled: false,
            period_start_ns: now_ns,
            throttled_pids: Seq::empty(),
        }
    }

    /// Whether charging `delta_ns` stays within the counter's range.
    pub open spec fn can_charge(self, delta_ns: u64) -> bool {
        delta_ns <= i64::MAX && self.remaining_ns - delta_ns >= i64::MIN
    }

    /// The state after `delta_ns` of runtime.
    pub open spec fn charged(self, delta_ns: u64) -> BwView {
        BwView { remaining_ns: (self.remaining_ns - delta_ns) as i64, ..self }
    }

    /// Whether `delta_ns` of runtime uses up the budget of a group that is not
    /// throttled yet.
    pub open spec fn exhausted_by(self, delta_ns: u64) -> bool {
        self.remaining_ns - delta_ns <= 0 && !self.throttled
    }

    /// The state at the start of a new period: a whole budget, nobody held
    /// back.
    pub open spec fn refilled(self, now_ns: TimeNs) -> BwView {
        BwView {
            period_start_ns: now_ns,
            remaining_ns: self.quota_ns as i64,
            throttled: false,
            throttled_pids: if self.throttled {
                Seq::empty()
            } else {
                self.throttled_pids
            },
            ..self
        }
    }

    /// What is left of the budget, never negative.
    pub open spec fn budget_ns(self) -> u64 {
        if self.remaining_ns > 0 {
            self.remaining_ns as u64
        } else {
            0
        }
    }
}

impl View for CgroupBandwidthState {
    type V = BwView;

    open spec fn view(&self) -> BwView {
        BwView {
            quota_ns: self.quota_ns,
            period_ns: self.period_ns,
            remaining_ns: self.runtime_remaining_ns,
            throttled: self.throttled,
            period_start_ns: self.period_start_ns,
            throttled_pids: self.throttled_pids@,
        }
    }
}

impl CgroupBandwidthState {
    /// A state with its whole budget, whose first period begins at `now_ns`.
    pub fn new(quota_us: u64, period_us: u64, now_ns: TimeNs) -> (r: CgroupBandwidthState)
        requires
            quota_us * 1000 <= i64::MAX,
            period_us * 1000 <= u64::MAX,
        ensures
            r@ == BwView::fresh(quota_us, period_us, now_ns),
    {
        let quota_ns: u64 = quota_us * 1_000;
        let period_ns: u64 = period_us * 1_000;
        let r = CgroupBandwidthState {
            quota_ns,
            period_ns,
            runtime_remaining_ns: quota_ns as i64,
            throttled: false,
            period_start_ns: now_ns,
            throttled_pids: Vec::new(),
        };
        proof {
            assert(r@ =~= BwView::fresh(quota_us, period_us, now_ns));
        }
        r
    }

    /// Charges runtime. True if this used up the budget of a group that is
    /// not throttled yet.
    pub fn charge(&mut self, delta_ns: u64) -> (r: bool)
        requires
            old(self)@.can_charge(delta_ns),
        ensures
            final(self)@ == old(self)@.charged(delta_ns),
            r == old(self)@.exhausted_by(delta_ns),
    {
        self.runtime_remaining_ns = self.runtime_remaining_ns - delta_ns as i64;
        self.runtime_remaining_ns <= 0 && !self.throttled
    }

    /// Begins a new period with a whole budget. If the group was throttled it
    /// no longer is, and the tasks that were held back are returned.
    pub fn refill(&mut self, now_ns: TimeNs) -> (r: Vec<Pid>)
        requires
            old(self)@.quota_ns <= i64::MAX,
        ensures
            final(self)@ == old(self)@.refilled(now_ns),
            r@ == if old(self)@.throttled {
                old(self)@.throttled_pids
            } else {
                Seq::empty()
            },
    {
        self.period_start_ns = now_ns;
        self.runtime_remaining_ns = self.quota_ns as i64;
        if self.throttled {
            self.throttled = false;
            let mut pids: Vec<Pid> = Vec::new();
            std::mem::swap(&mut pids, &mut self.throttled_pids);
            pids
        } else {
            Vec::new()
        }
    }

    /// Throttles the group and records a task that is held back, once.
    pub fn throttle(&mut self, pid: Pid)
        ensures
            final(self)@ == (BwView {
                throttled: true,
                throttled_pids: if old(self)@.throttled_pids.contains(pid) {
                    old(self)@.throttled_pids
                } else {
                    old(self)@.throttled_pids.push(pid)
                },
                ..old(self)@
            }),
    {
        self.throttled = true;
        let mut i: usize = 0;
        while i < self.throttled_pids.len()
            invariant
                i <= self.throttled_pids@.len(),
                forall|j: int| 0 <= j < i ==> self.throttled_pids@[j] != pid,
                self@ == (BwView { throttled: true, ..old(self)@ }),
            decreases self.throttled_pids@.len() - i,
        {
            if self.throttled_pids[i] == pid {
                return ;
            }
            i = i + 1;
        }
        self.throttled_pids.push(pid);
    }

    /// Lets the group run again.
    pub fn unthrottle(&mut self)
        ensures
            final(self)@ == (BwView {
                throttled: false,
                throttled_pids: Seq::empty(),
                ..old(self)@
            }),
    {
        self.throttled = false;
        self.throttled_pids.clear();
    }

    /// How long until the current period ends; zero if it has.
    pub fn time_until_refill(&self, now_ns: TimeNs) -> (r: TimeNs)
        requires
            self.period_start_ns + self.period_ns <= u64::MAX,
        ensures
            r == if self.period_start_ns + self.period_ns > now_ns {
                self.period_start_ns + self.period_ns - now_ns
            } else {
                0
            },
    {
        let period_end: u64 = self.period_start_ns + self.period_ns;
        period_end.saturating_sub(now_ns)
    }

    /// What is left of the budget; zero if it is used up.
    pub fn budget_remaining_ns(&self) -> (r: u64)
        ensures
            r == self@.budget_ns(),
    {
        if self.runtime_remaining_ns > 0 {
            self.runtime_remaining_ns as u64
        } else {
            0
        }
    }

    /// How much of the budget the current period has used; zero if less than
    /// none.
    pub fn consumed_ns(&self) -> (r: u64)
        requires
            self.quota_ns <= i64::MAX,
            self.quota_ns - self.runtime_remaining_ns <= i64::MAX,
        ensures
            r == if self.quota_ns > self.runtime_remaining_ns {
                self.quota_ns - self.runtime_remaining_ns
            } else {
                0
            },
    {
        let consumed: i64 = self.quota_ns as i64 - self.runtime_remaining_ns;
        if consumed > 0 {
            consumed as u64
        } else {
            0
        }
    }
}

/// A group, then the groups above it as far as `up` leads. `rank` falls with
/// every step, so the way ends.
pub open spec fn lineage(
    up: spec_fn(CgroupId) -> Option<CgroupId>,
    rank: spec_fn(CgroupId) -> nat,
    cgid: CgroupId,
) -> Seq<CgroupId>
    decreases rank(cgid),
{
    seq![cgid] + match up(cgid) {
        Some(parent) => if rank(parent) < rank(cgid) {
            lineage(up, rank, parent)
        } else {
            Seq::empty()
        },
        None => Seq::empty(),
    }
}

/// The groups whose parents are asked for on the way up from a group: nothing is
/// asked of a group of `halt`.
pub open spec fn asked(
    up: spec_fn(CgroupId) -> Option<CgroupId>,
    rank: spec_fn(CgroupId) -> nat,
    halt: Set<CgroupId>,
    cgid: CgroupId,
) -> Seq<CgroupId>
    decreases rank(cgid),
{
    if halt.contains(cgid) {
        Seq::empty()
    } else {
        seq![cgid] + match up(cgid) {
            Some(parent) => if rank(parent) < rank(cgid) {
                asked(up, rank, halt, parent)
            } else {
                Seq::empty()
            },
            None => Seq::empty(),
        }
    }
}

/// Whether a lookup of parents answers `up` for a group.
pub open spec fn answers<F: Fn(CgroupId) -> Option<CgroupId>>(
    f: F,
    up: spec_fn(CgroupId) -> Option<CgroupId>,
    cgid: CgroupId,
) -> bool {
    &&& call_requires(f, (cgid,))
    &&& forall|p: Option<CgroupId>| #[trigger] call_ensures(f, (cgid,), p) ==> p == up(cgid)
}

/// Whether a lookup of parents answers `up` for the groups that it is asked of on
/// the way up from a group, and leads to an end or to a group of `halt`.
pub open spec fn looks_up<F: Fn(CgroupId) -> Option<CgroupId>>(
    f: F,
    up: spec_fn(CgroupId) -> Option<CgroupId>,
    rank: spec_fn(CgroupId) -> nat,
    halt: Set<CgroupId>,
    cgid: CgroupId,
) -> bool {
    forall|i: int|
        0 <= i < asked(up, rank, halt, cgid).len() ==> {
            let c = #[trigger] asked(up, rank, halt, cgid)[i];
            answers(f, up, c) && (up(c) is Some ==> rank(up(c)->0) < rank(c))
        }
}

/// The groups that are throttled.
pub open spec fn throttled_in(limits: Limits) -> Set<CgroupId> {
    Set::new(|c: CgroupId| limits.contains_key(c) && limits[c].throttled)
}

/// Whether a walk up from a group has seen the groups up to `current`, if the lookup
/// can be asked for the whole way.
spec fn has_seen<F: Fn(CgroupId) -> Option<CgroupId>>(
    f: F,
    up: spec_fn(CgroupId) -> Option<CgroupId>,
    rank: spec_fn(CgroupId) -> nat,
    halt: Set<CgroupId>,
    cgid: CgroupId,
    seen: Seq<CgroupId>,
    current: Option<CgroupId>,
) -> bool {
    looks_up(f, up, rank, halt, cgid) ==> {
        &&& seen + way_on(up, rank, current) == lineage(up, rank, cgid)
        &&& current is Some ==> looks_up(f, up, rank, halt, current->0)
    }
}

/// A walk goes on with what the lookup answers.
proof fn lemma_goes_up<F: Fn(CgroupId) -> Option<CgroupId>>(
    f: F,
    up: spec_fn(CgroupId) -> Option<CgroupId>,
    rank: spec_fn(CgroupId) -> nat,
    halt: Set<CgroupId>,
    cgid: CgroupId,
    seen: Seq<CgroupId>,
    current: CgroupId,
    next: Option<CgroupId>,
)
    requires
        has_seen(f, up, rank, halt, cgid, seen, Some(current)),
        !halt.contains(current),
        call_ensures(f, (current,), next),
    ensures
        has_seen(f, up, rank, halt, cgid, seen.push(current), next),
        looks_up(f, up, rank, halt, cgid) ==> way_on(up, rank, next).len() < lineage(
            up,
            rank,
            current,
        ).len(),
{
    if looks_up(f, up, rank, halt, cgid) {
        let all = asked(up, rank, halt, current);
        assert(all[0] == current);
        assert(answers(f, up, current));
        assert(next == up(current));
        if next is Some {
            let above = asked(up, rank, halt, next->0);
            assert(all =~= seq![current] + above);
            assert forall|i: int| 0 <= i < above.len() implies {
                let c = #[trigger] above[i];
                answers(f, up, c) && (up(c) is Some ==> rank(up(c)->0) < rank(c))
            } by {
                assert(all[i + 1] == above[i]);
            }
        }
        assert(lineage(up, rank, current) == seq![current] + way_on(up, rank, next));
        assert(seen.push(current) + way_on(up, rank, next) =~= seen + (seq![current] + way_on(
            up,
            rank,
            next,
        )));
    }
}

/// Limits of the groups that have one.
pub type Limits = Map<CgroupId, BwView>;

/// Whether any group of `way` is throttled.
pub open spec fn any_throttled(limits: Limits, way: Seq<CgroupId>) -> bool {
    exists|i: int|
        0 <= i < way.len() && limits.contains_key(#[trigger] way[i]) && limits[way[i]].throttled
}

/// The smallest budget along `way`, if any group on it has a limit.
pub open spec fn least_budget(limits: Limits, way: Seq<CgroupId>) -> Option<u64>
    decreases way.len(),
{
    if way.len() == 0 {
        None
    } else {
        let before = least_budget(limits, way.drop_last());
        let c = way.last();
        if !limits.contains_key(c) {
            before
        } else if before is Some && before->0 <= limits[c].budget_ns() {
            before
        } else {
            Some(limits[c].budget_ns())
        }
    }
}

/// How long a task may run before a limit along `way` stops it: nothing if a
/// group on it is throttled, otherwise the smallest budget.
pub open spec fn run_limit(limits: Limits, way: Seq<CgroupId>) -> Option<u64> {
    if any_throttled(limits, way) {
        Some(0)
    } else {
        least_budget(limits, way)
    }
}

/// Whether `delta_ns` can be charged to every limited group of `way`.
pub open spec fn can_charge_all(limits: Limits, way: Seq<CgroupId>, delta_ns: u64) -> bool {
    forall|i: int|
        0 <= i < way.len() && limits.contains_key(#[trigger] way[i])
            ==> limits[way[i]].can_charge(delta_ns)
}

/// The limits after `delta_ns` was charged to every limited group of `way`.
pub open spec fn charge_all(limits: Limits, way: Seq<CgroupId>, delta_ns: u64) -> Limits
    decreases way.len(),
{
    if way.len() == 0 {
        limits
    } else {
        let before = charge_all(limits, way.drop_last(), delta_ns);
        let c = way.last();
        if before.contains_key(c) {
            before.insert(c, before[c].charged(delta_ns))
        } else {
            before
        }
    }
}

/// The first group of `way` whose budget `delta_ns` uses up.
pub open spec fn first_exhausted(limits: Limits, way: Seq<CgroupId>, delta_ns: u64) -> Option<
    CgroupId,
>
    decreases way.len(),
{
    if way.len() == 0 {
        None
    } else {
        let before = first_exhausted(limits, way.drop_last(), delta_ns);
        let c = way.last();
        if before is Some {
            before
        } else if limits.contains_key(c) && limits[c].exhausted_by(delta_ns) {
            Some(c)
        } else {
            None
        }
    }
}

/// The bandwidth states of all limited groups.
pub struct BandwidthManager {
    /// At most one per group.
    states: Vec<(CgroupId, CgroupBandwidthState)>,
}

spec fn distinct(states: Seq<(CgroupId, CgroupBandwidthState)>) -> bool {
    forall|i: int, j: int|
        0 <= i < j < states.len() ==> (#[trigger] states[i]).0 != (#[trigger] states[j]).0
}

spec fn at(states: Seq<(CgroupId, CgroupBandwidthState)>, c: CgroupId) -> int {
    choose|i: int| 0 <= i < states.len() && (#[trigger] states[i]).0 == c
}

impl View for BandwidthManager {
    type V = Limits;

    closed spec fn view(&self) -> Limits {
        Map::new(
            |c: CgroupId|
                exists|i: int| 0 <= i < self.states@.len() && (#[trigger] self.states@[i]).0 == c,
            |c: CgroupId| self.states@[at(self.states@, c)].1@,
        )
    }
}

impl BandwidthManager {
    /// No group is listed twice.
    pub closed spec fn wf(&self) -> bool {
        distinct(self.states@)
    }

    proof fn lemma_at(&self, i: int)
        requires
            self.wf(),
            0 <= i < self.states@.len(),
        ensures
            self@.contains_key(self.states@[i].0),
            self@[self.states@[i].0] == self.states@[i].1@,
    {
        let j = at(self.states@, self.states@[i].0);
        assert(self.states@[i].0 == self.states@[i].0);
        if i < j {
            assert(self.states@[i].0 != self.states@[j].0);
        } else if j < i {
            assert(self.states@[j].0 != self.states@[i].0);
        }
    }

    /// A manager without limits.
    pub fn new() -> (r: BandwidthManager)
        ensures
            r.wf(),
            r@ == Limits::empty(),
    {
        let r = BandwidthManager { states: Vec::new() };
        proof {
            assert(r@ =~= Limits::empty());
        }
        r
    }

    fn find(&self, cgid: CgroupId) -> (r: Option<usize>)
        requires
            self.wf(),
        ensures
            match r {
                Some(i) => i < self.states@.len() && self.states@[i as int].0 == cgid
                    && self@.contains_key(cgid) && self@[cgid] == self.states@[i as int].1@,
                None => !self@.contains_key(cgid),
            },
    {
        let mut i: usize = 0;
        while i < self.states.len()
            invariant
                self.wf(),
                i <= self.states@.len(),
                forall|j: int| 0 <= j < i ==> (#[trigger] self.states@[j]).0 != cgid,
            decreases self.states@.len() - i,
        {
            if self.states[i].0 == cgid {
                proof {
                    self.lemma_at(i as int);
                }
                return Some(i);
            }
            i = i + 1;
        }
        None
    }

    /// Sets a group's limit and begins its first period; a zero quota or
    /// period takes the limit away.
    pub fn configure(&mut self, cgid: CgroupId, period_us: u64, quota_us: u64, now_ns: TimeNs)
        requires
            old(self).wf(),
            quota_us * 1000 <= i64::MAX,
            period_us * 1000 <= u64::MAX,
        ensures
            final(self).wf(),
            final(self)@ == if quota_us == 0 || period_us == 0 {
                old(self)@.remove(cgid)
            } else {
                old(self)@.insert(cgid, BwView::fresh(quota_us, period_us, now_ns))
            },
    {
        self.remove(cgid);
        if quota_us == 0 || period_us == 0 {
            return ;
        }
        let ghost before = self@;
        let ghost states = self.states@;
        let state = CgroupBandwidthState::new(quota_us, period_us, now_ns);
        proof {
            assert forall|i: int| 0 <= i < states.len() implies (#[trigger] states[i]).0 != cgid by {
                self.lemma_at(i);
            }
        }
        self.states.push((cgid, state));
        proof {
            let after = self.states@;
            assert(distinct(after));
            assert forall|c: CgroupId| #[trigger]
                self@.contains_key(c) <==> (before.contains_key(c) || c == cgid) by {
                if before.contains_key(c) {
                    let i = choose|i: int| 0 <= i < states.len() && (#[trigger] states[i]).0 == c;
                    assert(after[i].0 == c);
                }
                if c == cgid {
                    assert(after[states.len() as int].0 == c);
                }
                if self@.contains_key(c) && c != cgid {
                    let i = choose|i: int| 0 <= i < after.len() && (#[trigger] after[i]).0 == c;
                    assert(states[i].0 == c);
                }
            }
            assert forall|c: CgroupId| self@.contains_key(c) implies #[trigger] self@[c] == old(
                self,
            )@.insert(cgid, state@)[c] by {
                let i = choose|i: int| 0 <= i < after.len() && (#[trigger] after[i]).0 == c;
                self.lemma_at(i);
                if c == cgid {
                    self.lemma_at(states.len() as int);
                } else {
                    assert(states[i] == after[i]);
                    assert(before.contains_key(c));
                    let b = at(states, c);
                    assert(b == i) by {
                        if b < i {
                            assert(states[b].0 != states[i].0);
                        } else if i < b {
                            assert(states[i].0 != states[b].0);
                        }
                    }
                    assert(before[c] == states[b].1@);
                    assert(old(self)@.remove(cgid)[c] == old(self)@[c]);
                }
            }
            assert(self@ =~= old(self)@.insert(cgid, state@));
        }
    }

    /// Takes a group's limit away.
    pub fn remove(&mut self, cgid: CgroupId)
        requires
            old(self).wf(),
        ensures
            final(self).wf(),
            final(self)@ == old(self)@.remove(cgid),
    {
        let ghost before = self@;
        let ghost states = self.states@;
        match self.find(cgid) {
            None => {
                proof {
                    assert(self@ =~= before.remove(cgid));
                }
            },
            Some(i) => {
                let removed = self.states.remove(i);
                proof {
                    let after = self.states@;
                    assert forall|a: int| 0 <= a < after.len() implies #[trigger] after[a]
                        == states[if a < i {
                        a
                    } else {
                        a + 1
                    }] by {}
                    assert(distinct(after));
                    assert forall|c: CgroupId| #[trigger]
                        self@.contains_key(c) <==> (before.contains_key(c) && c != cgid) by {
                        if self@.contains_key(c) {
                            let a = choose|a: int|
                                0 <= a < after.len() && (#[trigger] after[a]).0 == c;
                            let b = if a < i {
                                a
                            } else {
                                a + 1
                            };
                            assert(states[b].0 == c);
                            if b < i {
                                assert(states[b].0 != states[i as int].0);
                            } else {
                                assert(states[i as int].0 != states[b].0);
                            }
                        }
                        if before.contains_key(c) && c != cgid {
                            let b = choose|b: int|
                                0 <= b < states.len() && (#[trigger] states[b]).0 == c;
                            assert(after[if b < i {
                                b
                            } else {
                                b - 1
                            }].0 == c);
                        }
                    }
                    assert forall|c: CgroupId| self@.contains_key(c) implies #[trigger] self@[c]
                        == before[c] by {
                        let a = choose|a: int| 0 <= a < after.len() && (#[trigger] after[a]).0 == c;
                        self.lemma_at(a);
                        let b = if a < i {
                            a
                        } else {
                            a + 1
                        };
                        old(self).lemma_at(b);
                    }
                    assert(self@ =~= before.remove(cgid));
                }
            },
        }
    }

    /// The limit of a group, if it has one.
    pub fn get(&self, cgid: CgroupId) -> (r: Option<&CgroupBandwidthState>)
        requires
            self.wf(),
        ensures
            match r {
                Some(s) => self@.contains_key(cgid) && self@[cgid] == s@,
                None => !self@.contains_key(cgid),
            },
    {
        match self.find(cgid) {
            Some(i) => Some(&self.states[i].1),
            None => None,
        }
    }

    /// The limit of a group, if it has one, for change.
    pub fn get_mut(&mut self, cgid: CgroupId) -> (r: Option<&mut CgroupBandwidthState>)
        requires
            old(self).wf(),
        ensures
            final(self).wf(),
            match r {
                Some(s) => old(self)@.contains_key(cgid) && old(self)@[cgid] == s@ && final(self)@
                    == old(self)@.insert(cgid, final(s)@),
                None => !old(self)@.contains_key(cgid) && final(self)@ == old(self)@,
            },
    {
        match self.find(cgid) {
            Some(i) => {
                proof {
                    lemma_update(*self, i as int);
                }
                Some(&mut self.states[i].1)
            },
            None => None,
        }
    }

    /// Charges a group's limit if it has one. True if this used up the budget
    /// of a group that is not throttled yet.
    fn charge_one(&mut self, cgid: CgroupId, delta_ns: u64) -> (r: bool)
        requires
            old(self).wf(),
            old(self)@.contains_key(cgid) ==> old(self)@[cgid].can_charge(delta_ns),
        ensures
            final(self).wf(),
            old(self)@.contains_key(cgid) ==> final(self)@ == old(self)@.insert(
                cgid,
                old(self)@[cgid].charged(delta_ns),
            ) && r == old(self)@[cgid].exhausted_by(delta_ns),
            !old(self)@.contains_key(cgid) ==> final(self)@ == old(self)@ && !r,
    {
        match self.get_mut(cgid) {
            Some(state) => state.charge(delta_ns),
            None => false,
        }
    }

    /// The groups from one up to the first throttled one, which is not among them, or
    /// to the end; and whether there was a throttled one.
    fn walk_up<F: Fn(CgroupId) -> Option<CgroupId>>(
        &self,
        cgid: CgroupId,
        ancestor_lookup: &F,
    ) -> (r: (Vec<CgroupId>, bool))
        requires
            self.wf(),
            exists|up: spec_fn(CgroupId) -> Option<CgroupId>, rank: spec_fn(CgroupId) -> nat| #[trigger]
                looks_up(*ancestor_lookup, up, rank, throttled_in(self@), cgid),
        ensures
            forall|up: spec_fn(CgroupId) -> Option<CgroupId>, rank: spec_fn(CgroupId) -> nat| #[trigger]
                looks_up(*ancestor_lookup, up, rank, throttled_in(self@), cgid) ==> {
                    &&& any_throttled(self@, lineage(up, rank, cgid)) == r.1
                    &&& !r.1 ==> r.0@ == lineage(up, rank, cgid)
                },
    {
        let ghost halt = throttled_in(self@);
        let ghost (up0, rank0) = choose|
            up: spec_fn(CgroupId) -> Option<CgroupId>,
            rank: spec_fn(CgroupId) -> nat,
        | #[trigger]
            looks_up(*ancestor_lookup, up, rank, halt, cgid);
        let mut r: Vec<CgroupId> = Vec::new();
        let mut current: Option<CgroupId> = Some(cgid);
        proof {
            assert forall|up: spec_fn(CgroupId) -> Option<CgroupId>, rank: spec_fn(CgroupId) -> nat| #[trigger]
                has_seen(*ancestor_lookup, up, rank, halt, cgid, r@, current) by {
                assert(r@ + lineage(up, rank, cgid) =~= lineage(up, rank, cgid));
            }
        }
        while current.is_some()
            invariant
                self.wf(),
                halt == throttled_in(self@),
                looks_up(*ancestor_lookup, up0, rank0, halt, cgid),
                !any_throttled(self@, r@),
                forall|up: spec_fn(CgroupId) -> Option<CgroupId>, rank: spec_fn(CgroupId) -> nat| #[trigger]
                    has_seen(*ancestor_lookup, up, rank, halt, cgid, r@, current),
            decreases way_on(up0, rank0, current).len(),
        {
            let cg = current.unwrap();
            let ghost before = r@;
            if self.holds_back(cg) {
                proof {
                    assert forall|up: spec_fn(CgroupId) -> Option<CgroupId>, rank: spec_fn(CgroupId) -> nat| #[trigger]
                        looks_up(*ancestor_lookup, up, rank, halt, cgid) implies any_throttled(
                        self@,
                        lineage(up, rank, cgid),
                    ) by {
                        assert(has_seen(*ancestor_lookup, up, rank, halt, cgid, before, current));
                        assert(lineage(up, rank, cgid)[before.len() as int] == cg);
                    }
                }
                return (r, true);
            }
            proof {
                assert(has_seen(*ancestor_lookup, up0, rank0, halt, cgid, before, current));
                assert(asked(up0, rank0, halt, cg)[0] == cg);
            }
            r.push(cg);
            current = ancestor_lookup(cg);
            proof {
                assert forall|up: spec_fn(CgroupId) -> Option<CgroupId>, rank: spec_fn(CgroupId) -> nat| #[trigger]
                    has_seen(*ancestor_lookup, up, rank, halt, cgid, r@, current) by {
                    assert(has_seen(*ancestor_lookup, up, rank, halt, cgid, before, Some(cg)));
                    lemma_goes_up(*ancestor_lookup, up, rank, halt, cgid, before, cg, current);
                }
                lemma_goes_up(*ancestor_lookup, up0, rank0, halt, cgid, before, cg, current);
                assert(!any_throttled(self@, r@)) by {
                    if any_throttled(self@, r@) {
                        let k = choose|k: int|
                            0 <= k < r@.len() && self@.contains_key(#[trigger] r@[k])
                                && self@[r@[k]].throttled;
                        if k < before.len() {
                            assert(before[k] == r@[k]);
                        }
                    }
                }
            }
        }
        proof {
            assert forall|up: spec_fn(CgroupId) -> Option<CgroupId>, rank: spec_fn(CgroupId) -> nat| #[trigger]
                looks_up(*ancestor_lookup, up, rank, halt, cgid) implies r@ == lineage(
                up,
                rank,
                cgid,
            ) by {
                assert(has_seen(*ancestor_lookup, up, rank, halt, cgid, r@, current));
                assert(r@ + way_on(up, rank, current) =~= r@);
            }
        }
        (r, false)
    }

    /// Whether a group is throttled itself.
    fn holds_back(&self, cgid: CgroupId) -> (r: bool)
        requires
            self.wf(),
        ensures
            r == throttled_in(self@).contains(cgid),
    {
        match self.get(cgid) {
            Some(state) => state.throttled,
            None => false,
        }
    }

    /// Whether a group or any group above it is throttled. `ancestor_lookup`
    /// answers with the group directly above, if there is one; it is asked as far
    /// as the first group that is throttled.
    pub fn is_throttled<F: Fn(CgroupId) -> Option<CgroupId>>(
        &self,
        cgid: CgroupId,
        ancestor_lookup: F,
    ) -> (r: bool)
        requires
            self.wf(),
            exists|up: spec_fn(CgroupId) -> Option<CgroupId>, rank: spec_fn(CgroupId) -> nat| #[trigger]
                looks_up(ancestor_lookup, up, rank, throttled_in(self@), cgid),
        ensures
            forall|up: spec_fn(CgroupId) -> Option<CgroupId>, rank: spec_fn(CgroupId) -> nat| #[trigger]
                looks_up(ancestor_lookup, up, rank, throttled_in(self@), cgid) ==> r
                    == any_throttled(self@, lineage(up, rank, cgid)),
    {
        self.walk_up(cgid, &ancestor_lookup).1
    }

    /// Charges runtime to a group and to every group above it. Returns the
    /// first of them whose budget this used up, if it was not throttled yet.
    /// Charging nothing changes nothing.
    pub fn charge<F: Fn(CgroupId) -> Option<CgroupId>>(
        &mut self,
        cgid: CgroupId,
        delta_ns: u64,
        ancestor_lookup: F,
    ) -> (r: Option<CgroupId>)
        requires
            old(self).wf(),
            delta_ns > 0 ==> exists|up: spec_fn(CgroupId) -> Option<CgroupId>, rank: spec_fn(CgroupId) -> nat| #[trigger]
                looks_up(ancestor_lookup, up, rank, Set::empty(), cgid) && can_charge_all(
                    old(self)@,
                    lineage(up, rank, cgid),
                    delta_ns,
                ),
        ensures
            final(self).wf(),
            delta_ns == 0 ==> r is None && final(self)@ == old(self)@,
            forall|up: spec_fn(CgroupId) -> Option<CgroupId>, rank: spec_fn(CgroupId) -> nat| #[trigger]
                looks_up(ancestor_lookup, up, rank, Set::empty(), cgid) && delta_ns > 0 ==> {
                    &&& final(self)@ == charge_all(old(self)@, lineage(up, rank, cgid), delta_ns)
                    &&& r == first_exhausted(old(self)@, lineage(up, rank, cgid), delta_ns)
                },
    {
        if delta_ns == 0 {
            return None;
        }
        let way = collect_lineage(cgid, &ancestor_lookup);
        let mut newly_exhausted: Option<CgroupId> = None;
        let mut i: usize = 0;
        proof {
            assert(way@.take(0) =~= Seq::empty());
            let (up, rank) = choose|
                up: spec_fn(CgroupId) -> Option<CgroupId>,
                rank: spec_fn(CgroupId) -> nat,
            | #[trigger]
                looks_up(ancestor_lookup, up, rank, Set::empty(), cgid) && can_charge_all(
                    old(self)@,
                    lineage(up, rank, cgid),
                    delta_ns,
                );
            lemma_lineage_distinct(up, rank, cgid);
            assert(way@ == lineage(up, rank, cgid));
        }
        while i < way.len()
            invariant
                self.wf(),
                delta_ns > 0,
                i <= way@.len(),
                way@.no_duplicates(),
                can_charge_all(old(self)@, way@, delta_ns),
                self@ == charge_all(old(self)@, way@.take(i as int), delta_ns),
                newly_exhausted == first_exhausted(old(self)@, way@.take(i as int), delta_ns),
                forall|up: spec_fn(CgroupId) -> Option<CgroupId>, rank: spec_fn(CgroupId) -> nat| #[trigger]
                    looks_up(ancestor_lookup, up, rank, Set::empty(), cgid) ==> way@ == lineage(
                        up,
                        rank,
                        cgid,
                    ),
            decreases way@.len() - i,
        {
            proof {
                assert(way@.take(i + 1).drop_last() =~= way@.take(i as int));
                assert(!way@.take(i as int).contains(way@[i as int])) by {
                    if way@.take(i as int).contains(way@[i as int]) {
                        let j = choose|j: int|
                            0 <= j < i && way@.take(i as int)[j] == way@[i as int];
                        assert(way@[j] == way@[i as int]);
                    }
                }
                lemma_charge_all(old(self)@, way@.take(i as int), delta_ns, way@[i as int]);
            }
            let exhausted = self.charge_one(way[i], delta_ns);
            if exhausted && newly_exhausted.is_none() {
                newly_exhausted = Some(way[i]);
            }
            i = i + 1;
        }
        proof {
            assert(way@.take(way@.len() as int) =~= way@);
        }
        newly_exhausted
    }

    /// Begins a new period for a group and lets it run again. Returns the
    /// tasks that were held back.
    pub fn refill(&mut self, cgid: CgroupId, now_ns: TimeNs) -> (r: Vec<Pid>)
        requires
            old(self).wf(),
            old(self)@.contains_key(cgid) ==> old(self)@[cgid].quota_ns <= i64::MAX,
        ensures
            final(self).wf(),
            old(self)@.contains_key(cgid) ==> {
                &&& final(self)@ == old(self)@.insert(
                    cgid,
                    (BwView {
                        throttled_pids: Seq::empty(),
                        ..old(self)@[cgid].refilled(now_ns)
                    }),
                )
                &&& r@ == if old(self)@[cgid].throttled {
                    old(self)@[cgid].throttled_pids
                } else {
                    Seq::empty()
                }
            },
            !old(self)@.contains_key(cgid) ==> final(self)@ == old(self)@ && r@ == Seq::<
                Pid,
            >::empty(),
    {
        match self.get_mut(cgid) {
            Some(state) => {
                let pids = state.refill(now_ns);
                state.unthrottle();
                pids
            },
            None => Vec::new(),
        }
    }

    /// How long a task of a group may run before a limit stops it: nothing if
    /// the group or any group above it is throttled, otherwise the smallest
    /// budget among those that have one. None without any limit.
    pub fn max_run_ns<F: Fn(CgroupId) -> Option<CgroupId>>(
        &self,
        cgid: CgroupId,
        ancestor_lookup: F,
    ) -> (r: Option<u64>)
        requires
            self.wf(),
            exists|up: spec_fn(CgroupId) -> Option<CgroupId>, rank: spec_fn(CgroupId) -> nat| #[trigger]
                looks_up(ancestor_lookup, up, rank, throttled_in(self@), cgid),
        ensures
            forall|up: spec_fn(CgroupId) -> Option<CgroupId>, rank: spec_fn(CgroupId) -> nat| #[trigger]
                looks_up(ancestor_lookup, up, rank, throttled_in(self@), cgid) ==> r == run_limit(
                    self@,
                    lineage(up, rank, cgid),
                ),
    {
        let (way, throttled) = self.walk_up(cgid, &ancestor_lookup);
        if throttled {
            return Some(0);
        }
        let mut min_budget: Option<u64> = None;
        let mut i: usize = 0;
        proof {
            assert(way@.take(0) =~= Seq::empty());
        }
        while i < way.len()
            invariant
                self.wf(),
                i <= way@.len(),
                min_budget == least_budget(self@, way@.take(i as int)),
            decreases way@.len() - i,
        {
            proof {
                assert(way@.take(i + 1).drop_last() =~= way@.take(i as int));
            }
            if let Some(state) = self.get(way[i]) {
                let budget = state.budget_remaining_ns();
                min_budget = match min_budget {
                    Some(prev) => if prev <= budget {
                        Some(prev)
                    } else {
                        Some(budget)
                    },
                    None => Some(budget),
                };
            }
            i = i + 1;
        }
        proof {
            assert(way@.take(way@.len() as int) =~= way@);
        }
        min_budget
    }

    /// Every limited group with its state, in no particular order.
    pub fn iter(&self) -> (r: Vec<(CgroupId, &CgroupBandwidthState)>)
        requires
            self.wf(),
        ensures
            forall|a: int|
                0 <= a < r@.len() ==> self@.contains_key((#[trigger] r@[a]).0) && self@[r@[a].0]
                    == r@[a].1@,
            forall|a: int, b: int|
                0 <= a < b < r@.len() ==> (#[trigger] r@[a]).0 != (#[trigger] r@[b]).0,
            forall|c: CgroupId| #[trigger]
                self@.contains_key(c) ==> exists|a: int| 0 <= a < r@.len() && r@[a].0 == c,
    {
        let mut r: Vec<(CgroupId, &CgroupBandwidthState)> = Vec::new();
        let mut i: usize = 0;
        while i < self.states.len()
            invariant
                self.wf(),
                i <= self.states@.len(),
                r@.len() == i,
                forall|a: int|
                    0 <= a < i ==> (#[trigger] r@[a]).0 == self.states@[a].0 && r@[a].1@
                        == self.states@[a].1@,
            decreases self.states@.len() - i,
        {
            r.push((self.states[i].0, &self.states[i].1));
            i = i + 1;
        }
        proof {
            assert forall|a: int| 0 <= a < r@.len() implies self@.contains_key((#[trigger] r@[a]).0)
                && self@[r@[a].0] == r@[a].1@ by {
                self.lemma_at(a);
            }
            assert forall|c: CgroupId| #[trigger] self@.contains_key(c) implies exists|a: int|
                0 <= a < r@.len() && r@[a].0 == c by {
                let a = choose|a: int| 0 <= a < self.states@.len() && (#[trigger] self.states@[a]).0 == c;
                assert(r@[a].0 == c);
            }
        }
        r
    }

    /// How many groups have a limit.
    pub fn len(&self) -> (r: usize)
        requires
            self.wf(),
        ensures
            self@.dom().finite(),
            r == self@.len(),
    {
        proof {
            self.lemma_len(self.states@.len() as int);
            assert(self@.dom() =~= self.first_groups(self.states@.len() as int));
        }
        self.states.len()
    }

    /// The groups of the first `n` states.
    closed spec fn first_groups(&self, n: int) -> Set<CgroupId> {
        Set::new(|c: CgroupId| exists|i: int| 0 <= i < n && (#[trigger] self.states@[i]).0 == c)
    }

    proof fn lemma_len(&self, n: int)
        requires
            self.wf(),
            0 <= n <= self.states@.len(),
        ensures
            self.first_groups(n).finite(),
            self.first_groups(n).len() == n,
        decreases n,
    {
        if n == 0 {
            assert(self.first_groups(0) =~= Set::empty());
        } else {
            self.lemma_len(n - 1);
            let c = self.states@[n - 1].0;
            assert(!self.first_groups(n - 1).contains(c));
            assert(self.first_groups(n) =~= self.first_groups(n - 1).insert(c)) by {
                assert forall|d: CgroupId| #[trigger]
                    self.first_groups(n).contains(d) <==> self.first_groups(n - 1).insert(
                        c,
                    ).contains(d) by {
                    if d == c {
                        assert(self.states@[n - 1].0 == d);
                    }
                    if self.first_groups(n - 1).contains(d) {
                        let i = choose|i: int|
                            0 <= i < n - 1 && (#[trigger] self.states@[i]).0 == d;
                        assert(self.states@[i].0 == d);
                    }
                }
            }
        }
    }

    /// Whether no group has a limit.
    pub fn is_empty(&self) -> (r: bool)
        requires
            self.wf(),
        ensures
            r == (self@ == Limits::empty()),
    {
        proof {
            if self.states@.len() == 0 {
                assert(self@ =~= Limits::empty());
            } else {
                self.lemma_at(0);
            }
        }
        self.states.len() == 0
    }
}

impl Default for BandwidthManager {
    fn default() -> (r: BandwidthManager)
        ensures
            r.wf(),
            r@ == Limits::empty(),
    {
        BandwidthManager::new()
    }
}

/// Changing one state changes the limit of its group alone.
proof fn lemma_update(m: BandwidthManager, i: int)
    requires
        m.wf(),
        0 <= i < m.states@.len(),
    ensures
        forall|n: BandwidthManager, s: CgroupBandwidthState|
            #![trigger n.view(), s.view()]
            m.states@.update(i, (m.states@[i].0, s)) == n.states@ ==> n.wf() && n@ == m@.insert(
                m.states@[i].0,
                s@,
            ),
{
    assert forall|n: BandwidthManager, s: CgroupBandwidthState|
        #![trigger n.view(), s.view()]
        m.states@.update(i, (m.states@[i].0, s)) == n.states@ implies n.wf() && n@ == m@.insert(
        m.states@[i].0,
        s@,
    ) by {
        let c0 = m.states@[i].0;
        assert forall|a: int| 0 <= a < n.states@.len() implies (#[trigger] n.states@[a]).0
            == m.states@[a].0 by {}
        assert(n.wf());
        assert forall|c: CgroupId| #[trigger] n@.contains_key(c) <==> m@.contains_key(c) by {
            if n@.contains_key(c) {
                let a = choose|a: int| 0 <= a < n.states@.len() && (#[trigger] n.states@[a]).0 == c;
                assert(m.states@[a].0 == c);
            }
            if m@.contains_key(c) {
                let a = choose|a: int| 0 <= a < m.states@.len() && (#[trigger] m.states@[a]).0 == c;
                assert(n.states@[a].0 == c);
            }
        }
        m.lemma_at(i);
        assert forall|c: CgroupId| n@.contains_key(c) implies #[trigger] n@[c] == m@.insert(
            c0,
            s@,
        )[c] by {
            let a = choose|a: int| 0 <= a < n.states@.len() && (#[trigger] n.states@[a]).0 == c;
            n.lemma_at(a);
            m.lemma_at(a);
            if c == c0 {
                n.lemma_at(i);
            }
        }
        assert(n@ =~= m@.insert(c0, s@));
    }
}

/// A group and the groups above it, by asking for each one's parent in turn.
fn collect_lineage<F: Fn(CgroupId) -> Option<CgroupId>>(cgid: CgroupId, ancestor_lookup: &F) -> (r:
    Vec<CgroupId>)
    requires
        exists|up: spec_fn(CgroupId) -> Option<CgroupId>, rank: spec_fn(CgroupId) -> nat| #[trigger]
            looks_up(*ancestor_lookup, up, rank, Set::empty(), cgid),
    ensures
        forall|up: spec_fn(CgroupId) -> Option<CgroupId>, rank: spec_fn(CgroupId) -> nat| #[trigger]
            looks_up(*ancestor_lookup, up, rank, Set::empty(), cgid) ==> r@ == lineage(
                up,
                rank,
                cgid,
            ),
{
    let ghost none = Set::<CgroupId>::empty();
    let ghost (up0, rank0) = choose|
        up: spec_fn(CgroupId) -> Option<CgroupId>,
        rank: spec_fn(CgroupId) -> nat,
    | #[trigger]
        looks_up(*ancestor_lookup, up, rank, none, cgid);
    let mut r: Vec<CgroupId> = Vec::new();
    let mut current: Option<CgroupId> = Some(cgid);
    proof {
        assert forall|up: spec_fn(CgroupId) -> Option<CgroupId>, rank: spec_fn(CgroupId) -> nat| #[trigger]
            has_seen(*ancestor_lookup, up, rank, none, cgid, r@, current) by {
            assert(r@ + lineage(up, rank, cgid) =~= lineage(up, rank, cgid));
        }
    }
    while current.is_some()
        invariant
            none == Set::<CgroupId>::empty(),
            looks_up(*ancestor_lookup, up0, rank0, none, cgid),
            forall|up: spec_fn(CgroupId) -> Option<CgroupId>, rank: spec_fn(CgroupId) -> nat| #[trigger]
                has_seen(*ancestor_lookup, up, rank, none, cgid, r@, current),
        decreases way_on(up0, rank0, current).len(),
    {
        let cg = current.unwrap();
        let ghost before = r@;
        proof {
            assert(has_seen(*ancestor_lookup, up0, rank0, none, cgid, before, current));
            assert(asked(up0, rank0, none, cg)[0] == cg);
        }
        r.push(cg);
        current = ancestor_lookup(cg);
        proof {
            assert forall|up: spec_fn(CgroupId) -> Option<CgroupId>, rank: spec_fn(CgroupId) -> nat| #[trigger]
                has_seen(*ancestor_lookup, up, rank, none, cgid, r@, current) by {
                assert(has_seen(*ancestor_lookup, up, rank, none, cgid, before, Some(cg)));
                lemma_goes_up(*ancestor_lookup, up, rank, none, cgid, before, cg, current);
            }
            lemma_goes_up(*ancestor_lookup, up0, rank0, none, cgid, before, cg, current);
        }
    }
    proof {
        assert forall|up: spec_fn(CgroupId) -> Option<CgroupId>, rank: spec_fn(CgroupId) -> nat| #[trigger]
            looks_up(*ancestor_lookup, up, rank, none, cgid) implies r@ == lineage(
            up,
            rank,
            cgid,
        ) by {
            assert(has_seen(*ancestor_lookup, up, rank, none, cgid, r@, current));
            assert(r@ + way_on(up, rank, current) =~= r@);
        }
    }
    r
}

/// What is left of the way up from `current`.
spec fn way_on(
    up: spec_fn(CgroupId) -> Option<CgroupId>,
    rank: spec_fn(CgroupId) -> nat,
    current: Option<CgroupId>,
) -> Seq<CgroupId> {
    match current {
        Some(c) => lineage(up, rank, c),
        None => Seq::empty(),
    }
}

proof fn lemma_lineage_ranks(
    up: spec_fn(CgroupId) -> Option<CgroupId>,
    rank: spec_fn(CgroupId) -> nat,
    cgid: CgroupId,
)
    ensures
        lineage(up, rank, cgid).len() > 0,
        forall|i: int|
            0 <= i < lineage(up, rank, cgid).len() ==> rank(#[trigger] lineage(up, rank, cgid)[i])
                <= rank(cgid),
        forall|i: int, j: int|
            0 <= i < j < lineage(up, rank, cgid).len() ==> rank(
                #[trigger] lineage(up, rank, cgid)[j],
            ) < rank(#[trigger] lineage(up, rank, cgid)[i]),
    decreases rank(cgid),
{
    let all = lineage(up, rank, cgid);
    if up(cgid) is Some && rank(up(cgid)->0) < rank(cgid) {
        let parent = up(cgid)->0;
        let rest = lineage(up, rank, parent);
        lemma_lineage_ranks(up, rank, parent);
        assert(all =~= seq![cgid] + rest);
        assert forall|i: int| 0 <= i < all.len() implies rank(#[trigger] all[i]) <= rank(cgid) by {
            if i > 0 {
                assert(all[i] == rest[i - 1]);
            }
        }
        assert forall|i: int, j: int| 0 <= i < j < all.len() implies rank(#[trigger] all[j]) < rank(
            #[trigger] all[i],
        ) by {
            assert(all[j] == rest[j - 1]);
            if i > 0 {
                assert(all[i] == rest[i - 1]);
            }
        }
    } else {
        assert(all =~= seq![cgid]);
    }
}

proof fn lemma_lineage_distinct(
    up: spec_fn(CgroupId) -> Option<CgroupId>,
    rank: spec_fn(CgroupId) -> nat,
    cgid: CgroupId,
)
    ensures
        lineage(up, rank, cgid).no_duplicates(),
{
    lemma_lineage_ranks(up, rank, cgid);
    let all = lineage(up, rank, cgid);
    assert forall|i: int, j: int| 0 <= i < all.len() && 0 <= j < all.len() && i != j implies all[i]
        != all[j] by {
        if i < j {
            assert(rank(all[j]) < rank(all[i]));
        } else {
            assert(rank(all[i]) < rank(all[j]));
        }
    }
}

/// A charge leaves the groups off the way as they were and limits the same
/// groups.
proof fn lemma_charge_all(limits: Limits, way: Seq<CgroupId>, delta_ns: u64, c: CgroupId)
    ensures
        charge_all(limits, way, delta_ns).dom() == limits.dom(),
        !way.contains(c) ==> charge_all(limits, way, delta_ns)[c] == limits[c],
    decreases way.len(),
{
    if way.len() > 0 {
        lemma_charge_all(limits, way.drop_last(), delta_ns, c);
        assert(charge_all(limits, way, delta_ns).dom() =~= limits.dom());
        if !way.contains(c) {
            assert(way[way.len() - 1] != c);
            assert(!way.drop_last().contains(c)) by {
                if way.drop_last().contains(c) {
                    let i = choose|i: int| 0 <= i < way.len() - 1 && way.drop_last()[i] == c;
                    assert(way[i] == c);
                }
            }
        }
    }
}

/// Limits are hierarchical: a throttled group holds back every group below it.
pub proof fn law_throttle_is_inherited(
    limits: Limits,
    up: spec_fn(CgroupId) -> Option<CgroupId>,
    rank: spec_fn(CgroupId) -> nat,
    child: CgroupId,
)
    requires
        up(child) is Some,
        rank(up(child)->0) < rank(child),
        any_throttled(limits, lineage(up, rank, up(child)->0)),
    ensures
        any_throttled(limits, lineage(up, rank, child)),
{
    let above = lineage(up, rank, up(child)->0);
    let all = lineage(up, rank, child);
    let i = choose|i: int|
        0 <= i < above.len() && limits.contains_key(#[trigger] above[i])
            && limits[above[i]].throttled;
    assert(all[i + 1] == above[i]);
}

/// A refill gives a group its whole budget whatever it used before, and
/// running short in one period does not reduce the next one's budget.
pub proof fn law_refill_restores_the_quota(s: BwView, delta_ns: u64, now_ns: TimeNs)
    requires
        s.can_charge(delta_ns),
        s.quota_ns <= i64::MAX,
    ensures
        s.charged(delta_ns).refilled(now_ns).remaining_ns == s.quota_ns,
        s.charged(delta_ns).refilled(now_ns).budget_ns() == s.quota_ns,
        !s.charged(delta_ns).refilled(now_ns).throttled,
{
}

/// Runtime is charged to a group and to every limited group above it alike,
/// and to no other.
pub proof fn law_charge_reaches_every_ancestor(
    limits: Limits,
    up: spec_fn(CgroupId) -> Option<CgroupId>,
    rank: spec_fn(CgroupId) -> nat,
    cgid: CgroupId,
    delta_ns: u64,
    c: CgroupId,
)
    requires
        limits.contains_key(c),
    ensures
        charge_all(limits, lineage(up, rank, cgid), delta_ns)[c] == if lineage(
            up,
            rank,
            cgid,
        ).contains(c) {
            limits[c].charged(delta_ns)
        } else {
            limits[c]
        },
{
    lemma_lineage_distinct(up, rank, cgid);
    lemma_charged_once(limits, lineage(up, rank, cgid), delta_ns, c);
}

/// The smallest budget is that of a group on the way, and no other is smaller.
proof fn lemma_least_budget(limits: Limits, way: Seq<CgroupId>)
    ensures
        match least_budget(limits, way) {
            Some(m) => {
                &&& forall|i: int|
                    0 <= i < way.len() && limits.contains_key(#[trigger] way[i]) ==> m
                        <= limits[way[i]].budget_ns()
                &&& exists|i: int|
                    0 <= i < way.len() && limits.contains_key(#[trigger] way[i])
                        && limits[way[i]].budget_ns() == m
            },
            None => forall|i: int|
                0 <= i < way.len() ==> !limits.contains_key(#[trigger] way[i]),
        },
    decreases way.len(),
{
    if way.len() > 0 {
        let rest = way.drop_last();
        lemma_least_budget(limits, rest);
        assert(way[way.len() - 1] == way.last());
        assert forall|i: int| 0 <= i < rest.len() implies rest[i] == #[trigger] way[i] by {}
        if least_budget(limits, rest) is Some {
            let i = choose|i: int|
                0 <= i < rest.len() && limits.contains_key(#[trigger] rest[i])
                    && limits[rest[i]].budget_ns() == least_budget(limits, rest)->0;
            assert(way[i] == rest[i]);
        }
    }
}

/// The first group whose budget is used up is one, and without it there is none.
proof fn lemma_first_exhausted(limits: Limits, way: Seq<CgroupId>, delta_ns: u64)
    ensures
        match first_exhausted(limits, way, delta_ns) {
            Some(c) => way.contains(c) && limits.contains_key(c) && limits[c].exhausted_by(
                delta_ns,
            ),
            None => forall|i: int|
                0 <= i < way.len() && limits.contains_key(#[trigger] way[i])
                    ==> !limits[way[i]].exhausted_by(delta_ns),
        },
    decreases way.len(),
{
    if way.len() > 0 {
        let rest = way.drop_last();
        lemma_first_exhausted(limits, rest, delta_ns);
        assert(way[way.len() - 1] == way.last());
        assert forall|i: int| 0 <= i < rest.len() implies rest[i] == #[trigger] way[i] by {}
        if let Some(c) = first_exhausted(limits, rest, delta_ns) {
            let i = choose|i: int| 0 <= i < rest.len() && rest[i] == c;
            assert(way[i] == c);
        }
    }
}

/// The run time reported is exactly that after which a charge hits the first
/// limit: a shorter run uses up no budget, and that run uses up one on the way.
pub proof fn law_run_limit_is_exact(
    limits: Limits,
    up: spec_fn(CgroupId) -> Option<CgroupId>,
    rank: spec_fn(CgroupId) -> nat,
    cgid: CgroupId,
    m: u64,
    d: u64,
)
    requires
        run_limit(limits, lineage(up, rank, cgid)) == Some(m),
        m > 0,
    ensures
        0 < d < m ==> first_exhausted(limits, lineage(up, rank, cgid), d) is None,
        first_exhausted(limits, lineage(up, rank, cgid), m) is Some,
        lineage(up, rank, cgid).contains(
            first_exhausted(limits, lineage(up, rank, cgid), m)->0,
        ),
{
    let way = lineage(up, rank, cgid);
    lemma_least_budget(limits, way);
    lemma_first_exhausted(limits, way, d);
    lemma_first_exhausted(limits, way, m);
    let i = choose|i: int|
        0 <= i < way.len() && limits.contains_key(#[trigger] way[i])
            && limits[way[i]].budget_ns() == m;
    assert(!limits[way[i]].throttled);
    assert(limits[way[i]].exhausted_by(m));
    if 0 < d < m {
        if let Some(c) = first_exhausted(limits, way, d) {
            let k = choose|k: int| 0 <= k < way.len() && way[k] == c;
            assert(m <= limits[way[k]].budget_ns());
        }
    }
}

proof fn lemma_charged_once(limits: Limits, way: Seq<CgroupId>, delta_ns: u64, c: CgroupId)
    requires
        way.no_duplicates(),
        limits.contains_key(c),
    ensures
        charge_all(limits, way, delta_ns)[c] == if way.contains(c) {
            limits[c].charged(delta_ns)
        } else {
            limits[c]
        },
    decreases way.len(),
{
    lemma_charge_all(limits, way, delta_ns, c);
    if way.len() > 0 {
        let front = way.drop_last();
        lemma_charged_once(limits, front, delta_ns, c);
        lemma_charge_all(limits, front, delta_ns, c);
        if way.last() == c {
            assert(way[way.len() - 1] == c);
            assert(!front.contains(c)) by {
                if front.contains(c) {
                    let i = choose|i: int| 0 <= i < front.len() && front[i] == c;
                    assert(way[i] == way[way.len() - 1]);
                }
            }
        } else if way.contains(c) {
            let i = choose|i: int| 0 <= i < way.len() && way[i] == c;
            assert(front[i] == c);
        } else {
            assert(!front.contains(c)) by {
                if front.contains(c) {
                    let i = choose|i: int| 0 <= i < front.len() && front[i] == c;
                    assert(way[i] == c);
                }
            }
        }
    }
}

/// A limit starts with its whole quota, in nanoseconds, and holds nobody back.
pub proof fn law_a_limit_starts_whole(quota_us: u64, period_us: u64, now_ns: TimeNs)
    requires
        quota_us * 1000 <= i64::MAX,
        period_us * 1000 <= u64::MAX,
    ensures
        ({
            let s = BwView::fresh(quota_us, period_us, now_ns);
            &&& s.quota_ns == quota_us * 1000 && s.period_ns == period_us * 1000
            &&& s.remaining_ns == s.quota_ns
            &&& s.period_start_ns == now_ns
            &&& !s.throttled && s.throttled_pids.len() == 0
        }),
{
}

/// Runtime is taken off what remains, charges add up, and nothing else changes. What a
/// group may still use is what remains, down to nothing.
pub proof fn law_charges_add_up(s: BwView, a: u64, b: u64)
    requires
        s.can_charge(a),
        a + b <= i64::MAX,
        s.remaining_ns - a - b >= i64::MIN,
    ensures
        s.charged(a).remaining_ns + a == s.remaining_ns,
        s.charged(a).charged(b) == s.charged((a + b) as u64),
        s.charged(a) == (BwView { remaining_ns: s.charged(a).remaining_ns, ..s }),
        s.remaining_ns >= 0 ==> s.budget_ns() == s.remaining_ns,
        s.remaining_ns < 0 ==> s.budget_ns() == 0,
        s.can_charge(0) && s.charged(0) == s,
{
}

/// A run uses up the budget exactly if nothing remains of it afterwards; a group that is
/// held back already is not used up again.
pub proof fn law_a_budget_is_used_up_when_nothing_remains(s: BwView, d: u64)
    requires
        s.can_charge(d),
    ensures
        !s.throttled ==> (s.exhausted_by(d) <==> s.charged(d).budget_ns() == 0),
        s.throttled ==> !s.exhausted_by(d),
{
}

/// A refill starts a period and gives the whole quota; a group that was held back lets its
/// tasks go, and the limit itself stays.
pub proof fn law_a_refill_starts_a_period(s: BwView, now_ns: TimeNs)
    requires
        s.quota_ns <= i64::MAX,
    ensures
        ({
            let r = s.refilled(now_ns);
            &&& r.period_start_ns == now_ns
            &&& r.remaining_ns == s.quota_ns && r.quota_ns == s.quota_ns && r.period_ns
                == s.period_ns
            &&& !r.throttled
            &&& s.throttled ==> r.throttled_pids.len() == 0
            &&& !s.throttled ==> r.throttled_pids == s.throttled_pids
            &&& r.refilled(now_ns) == r
        }),
{
}

/// The way up from a group begins with it, goes from each group to the one above it, and
/// ends where none is above.
pub proof fn law_the_way_up_goes_from_parent_to_parent(
    up: spec_fn(CgroupId) -> Option<CgroupId>,
    rank: spec_fn(CgroupId) -> nat,
    cgid: CgroupId,
    i: int,
)
    requires
        forall|c: CgroupId| (#[trigger] up(c)) is Some ==> rank(up(c)->0) < rank(c),
        0 <= i < lineage(up, rank, cgid).len(),
    ensures
        ({
            let way = lineage(up, rank, cgid);
            &&& way[0] == cgid
            &&& i + 1 < way.len() ==> up(way[i]) == Some(way[i + 1])
            &&& i + 1 == way.len() ==> up(way[i]) is None
        }),
    decreases rank(cgid),
{
    if up(cgid) is Some && i > 0 {
        let above = lineage(up, rank, up(cgid)->0);
        law_the_way_up_goes_from_parent_to_parent(up, rank, up(cgid)->0, i - 1);
        assert(lineage(up, rank, cgid) == seq![cgid] + above);
    } else if up(cgid) is Some {
        let above = lineage(up, rank, up(cgid)->0);
        assert(above[0] == up(cgid)->0);
        assert(lineage(up, rank, cgid) == seq![cgid] + above);
    }
}

/// How long a task may run: not at all where a group on its way up is held back, otherwise
/// as long as the smallest budget lets it, and without a limit as long as it likes. The
/// group that stops it first is the lowest whose budget is used up.
pub proof fn law_the_tightest_limit_counts(
    limits: Limits,
    way: Seq<CgroupId>,
    delta_ns: u64,
    i: int,
)
    requires
        0 <= i < way.len(),
    ensures
        limits.contains_key(way[i]) && limits[way[i]].throttled ==> run_limit(limits, way) == Some(
            0u64,
        ),
        limits.contains_key(way[i]) ==> run_limit(limits, way) is Some && run_limit(limits, way)->0
            <= limits[way[i]].budget_ns(),
        (forall|k: int| 0 <= k < way.len() ==> !limits.contains_key(#[trigger] way[k]))
            ==> run_limit(limits, way) is None,
        limits.contains_key(way[i]) && limits[way[i]].exhausted_by(delta_ns) && (forall|k: int|
            0 <= k < i ==> !(limits.contains_key(#[trigger] way[k]) && limits[way[k]].exhausted_by(
                delta_ns,
            ))) ==> first_exhausted(limits, way, delta_ns) == Some(way[i]),
{
    lemma_least_budget(limits, way);
    if limits.contains_key(way[i]) && limits[way[i]].exhausted_by(delta_ns) && (forall|k: int|
        0 <= k < i ==> !(limits.contains_key(#[trigger] way[k]) && limits[way[k]].exhausted_by(
            delta_ns,
        ))) {
        lemma_lowest_exhausted(limits, way, delta_ns, i);
    }
}

proof fn lemma_lowest_exhausted(limits: Limits, way: Seq<CgroupId>, delta_ns: u64, i: int)
    requires
        0 <= i < way.len(),
        limits.contains_key(way[i]),
        limits[way[i]].exhausted_by(delta_ns),
        forall|k: int|
            0 <= k < i ==> !(limits.contains_key(#[trigger] way[k]) && limits[way[k]].exhausted_by(
                delta_ns,
            )),
    ensures
        first_exhausted(limits, way, delta_ns) == Some(way[i]),
    decreases way.len(),
{
    let rest = way.drop_last();
    if i < rest.len() {
        assert forall|k: int| 0 <= k < i implies !(limits.contains_key(#[trigger] rest[k])
            && limits[rest[k]].exhausted_by(delta_ns)) by {
            assert(rest[k] == way[k]);
        }
        lemma_lowest_exhausted(limits, rest, delta_ns, i);
    } else {
        lemma_first_exhausted(limits, rest, delta_ns);
        if let Some(c) = first_exhausted(limits, rest, delta_ns) {
            let k = choose|k: int| 0 <= k < rest.len() && rest[k] == c;
            assert(way[k] == c);
        }
    }
}

/// Contracts see a limit as it is.
pub proof fn law_limits_are_seen_as_they_are(s: CgroupBandwidthState)
    ensures
        s@.quota_ns == s.quota_ns && s@.period_ns == s.period_ns && s@.remaining_ns
            == s.runtime_remaining_ns,
        s@.throttled == s.throttled && s@.period_start_ns == s.period_start_ns
            && s@.throttled_pids == s.throttled_pids@,
{
}

} // verus!
