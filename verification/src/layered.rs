//! Layers of the `scx_layered` scheduler: which tasks belong to a layer and how
//! it is sized.

use vstd::prelude::*;

use crate::types::{CpuId, TimeNs};

verus! {

/// A double-precision number, by the bits of its standard representation.
#[derive(Clone, Copy, Debug, PartialEq, Eq, Structural)]
pub struct Double(pub u64);

/// The sign bit of a number.
pub const SIGN_BIT: u64 = 0x8000_0000_0000_0000;

/// The magnitude of the infinities; what lies above is not a number.
pub const INFINITE: u64 = 0x7FF0_0000_0000_0000;

impl Double {
    /// Zero.
    pub open spec fn spec_zero() -> Double {
        Double(0)
    }

    /// One.
    pub open spec fn spec_one() -> Double {
        Double(0x3FF0_0000_0000_0000)
    }

    pub open spec fn magnitude(self) -> int {
        if self.0 >= SIGN_BIT {
            self.0 - SIGN_BIT
        } else {
            self.0 as int
        }
    }

    /// Whether this stands for no number.
    pub open spec fn spec_is_nan(self) -> bool {
        self.magnitude() > INFINITE
    }

    /// Where a number stands among the others: representations order like the
    /// numbers they stand for, and both zeros stand at 0.
    pub open spec fn rank(self) -> int {
        if self.0 >= SIGN_BIT {
            -self.magnitude()
        } else {
            self.magnitude()
        }
    }

    /// Whether one number is less than another.
    pub open spec fn lt(self, other: Double) -> bool {
        !self.spec_is_nan() && !other.spec_is_nan() && self.rank() < other.rank()
    }

    /// Whether one number is at most another.
    pub open spec fn le(self, other: Double) -> bool {
        !self.spec_is_nan() && !other.spec_is_nan() && self.rank() <= other.rank()
    }

    fn order(self) -> (r: Option<i64>)
        ensures
            r is None <==> self.spec_is_nan(),
            r is Some ==> r->0 == self.rank(),
    {
        if self.0 >= SIGN_BIT {
            let m = self.0 - SIGN_BIT;
            if m > INFINITE {
                None
            } else {
                Some(-(m as i64))
            }
        } else if self.0 > INFINITE {
            None
        } else {
            Some(self.0 as i64)
        }
    }

    /// Whether one number is less than another.
    pub fn is_less(self, other: Double) -> (r: bool)
        ensures
            r == self.lt(other),
    {
        match (self.order(), other.order()) {
            (Some(a), Some(b)) => a < b,
            _ => false,
        }
    }

    /// Whether one number is at most another.
    pub fn is_at_most(self, other: Double) -> (r: bool)
        ensures
            r == self.le(other),
    {
        match (self.order(), other.order()) {
            (Some(a), Some(b)) => a <= b,
            _ => false,
        }
    }
}

/// How a layer's CPUs relate to those of other layers.
#[derive(Clone, Copy, Debug, PartialEq, Eq, Structural)]
pub enum LayerKind {
    /// May run on any CPU.
    Open,
    /// Owns its CPUs, but its tasks may use open ones too.
    Grouped,
    /// Confined to its own CPUs.
    Confined,
}

/// The scheduler's number of a kind.
pub open spec fn kind_number(k: LayerKind) -> i32 {
    match k {
        LayerKind::Open => 0,
        LayerKind::Grouped => 1,
        LayerKind::Confined => 2,
    }
}

impl LayerKind {
    /// The scheduler's number of the kind.
    pub fn number(self) -> (r: i32)
        ensures
            r == kind_number(self),
    {
        match self {
            LayerKind::Open => 0,
            LayerKind::Grouped => 1,
            LayerKind::Confined => 2,
        }
    }
}

/// How a layer's set of CPUs grows.
#[derive(Clone, Copy, Debug, PartialEq, Eq, Structural)]
pub enum LayerGrowthAlgo {
    /// Prefer CPUs the layer already had.
    Sticky,
    /// Grow from the lowest CPU upward.
    Linear,
    /// Grow from the highest CPU downward.
    Reverse,
    /// Random cores within each node.
    Random,
    /// Core by core, then cache by cache, then node by node.
    Topo,
    /// Round-robin across caches.
    RoundRobin,
    /// Prefer big cores.
    BigLittle,
    /// Prefer little cores.
    LittleBig,
    /// Equal per node, linear within each.
    NodeSpread,
    /// Equal per node, reverse within each.
    NodeSpreadReverse,
    /// Equal per node, random within each.
    NodeSpreadRandom,
    /// Interleave across cpuset domains.
    CpuSetSpread,
    /// Interleave across cpuset domains in reverse.
    CpuSetSpreadReverse,
    /// Interleave across cpuset domains at random.
    CpuSetSpreadRandom,
    /// Random node, cache and core order.
    RandomTopo,
    /// Trade whole caches between layers.
    StickyDynamic,
}

/// The scheduler's number of a growth algorithm.
pub open spec fn algo_number(a: LayerGrowthAlgo) -> i32 {
    match a {
        LayerGrowthAlgo::Sticky => 0,
        LayerGrowthAlgo::Linear => 1,
        LayerGrowthAlgo::Reverse => 2,
        LayerGrowthAlgo::Random => 3,
        LayerGrowthAlgo::Topo => 4,
        LayerGrowthAlgo::RoundRobin => 5,
        LayerGrowthAlgo::BigLittle => 6,
        LayerGrowthAlgo::LittleBig => 7,
        LayerGrowthAlgo::NodeSpread => 8,
        LayerGrowthAlgo::NodeSpreadReverse => 9,
        LayerGrowthAlgo::NodeSpreadRandom => 10,
        LayerGrowthAlgo::CpuSetSpread => 11,
        LayerGrowthAlgo::CpuSetSpreadReverse => 12,
        LayerGrowthAlgo::CpuSetSpreadRandom => 13,
        LayerGrowthAlgo::RandomTopo => 14,
        LayerGrowthAlgo::StickyDynamic => 15,
    }
}

impl LayerGrowthAlgo {
    /// The scheduler's number of the algorithm.
    pub fn number(self) -> (r: i32)
        ensures
            r == algo_number(self),
    {
        match self {
            LayerGrowthAlgo::Sticky => 0,
            LayerGrowthAlgo::Linear => 1,
            LayerGrowthAlgo::Reverse => 2,
            LayerGrowthAlgo::Random => 3,
            LayerGrowthAlgo::Topo => 4,
            LayerGrowthAlgo::RoundRobin => 5,
            LayerGrowthAlgo::BigLittle => 6,
            LayerGrowthAlgo::LittleBig => 7,
            LayerGrowthAlgo::NodeSpread => 8,
            LayerGrowthAlgo::NodeSpreadReverse => 9,
            LayerGrowthAlgo::NodeSpreadRandom => 10,
            LayerGrowthAlgo::CpuSetSpread => 11,
            LayerGrowthAlgo::CpuSetSpreadReverse => 12,
            LayerGrowthAlgo::CpuSetSpreadRandom => 13,
            LayerGrowthAlgo::RandomTopo => 14,
            LayerGrowthAlgo::StickyDynamic => 15,
        }
    }

    /// Whether the algorithm spreads over cpuset domains, which are not
    /// modelled.
    pub open spec fn spec_needs_cpusets(self) -> bool {
        self is CpuSetSpread || self is CpuSetSpreadReverse || self is CpuSetSpreadRandom
    }

    /// Whether the algorithm spreads over cpuset domains.
    pub fn needs_cpusets(self) -> (r: bool)
        ensures
            r == self.spec_needs_cpusets(),
    {
        match self {
            LayerGrowthAlgo::CpuSetSpread => true,
            LayerGrowthAlgo::CpuSetSpreadReverse => true,
            LayerGrowthAlgo::CpuSetSpreadRandom => true,
            _ => false,
        }
    }

    /// Whether the algorithm gives every node an equal share.
    pub open spec fn spec_spreads(self) -> bool {
        self is NodeSpread || self is NodeSpreadReverse || self is NodeSpreadRandom
    }

    /// Whether the algorithm gives every node an equal share.
    pub fn spreads(self) -> (r: bool)
        ensures
            r == self.spec_spreads(),
    {
        match self {
            LayerGrowthAlgo::NodeSpread => true,
            LayerGrowthAlgo::NodeSpreadReverse => true,
            LayerGrowthAlgo::NodeSpreadRandom => true,
            _ => false,
        }
    }
}

/// Different algorithms have different numbers.
pub proof fn law_algo_numbers_are_distinct(a: LayerGrowthAlgo, b: LayerGrowthAlgo)
    ensures
        algo_number(a) == algo_number(b) ==> a == b,
{
}

/// Where a layer's tasks are placed when woken.
#[derive(Clone, Copy, Debug, PartialEq, Eq, Structural)]
pub enum LayerPlacement {
    Standard,
    Sticky,
    Floating,
}

/// A rule that selects tasks into a layer.
#[derive(Debug, PartialEq, Eq)]
pub enum LayerMatch {
    /// The task's cgroup path starts with this.
    CgroupPrefix(String),
    /// The task's cgroup path ends with this.
    CgroupSuffix(String),
    /// The task's cgroup path contains this.
    CgroupContains(String),
    /// The task's name starts with this.
    CommPrefix(String),
    /// The name of the thread group's leader starts with this.
    PcommPrefix(String),
    /// The nice value is greater than this.
    NiceAbove(i32),
    /// The nice value is less than this.
    NiceBelow(i32),
    /// The nice value is this.
    NiceEquals(i32),
    /// The user is this one.
    UserIdEquals(u32),
    /// The group is this one.
    GroupIdEquals(u32),
    /// The task is this one.
    PidEquals(u32),
    /// The parent is this one.
    PpidEquals(u32),
    /// The thread group is this one.
    TgidEquals(u32),
    /// The task leads its thread group, or does not.
    IsGroupLeader(bool),
    /// The task is a kernel thread, or is not.
    IsKthread(bool),
    /// The task may run on this node's CPUs only.
    NumaNode(u32),
    /// The average runtime in microseconds lies in this range. The scheduler is
    /// told the lower bound.
    AvgRuntime(u64, u64),
    /// The rule does not hold.
    Not(Box<LayerMatch>),
}

/// A rule as contracts see it.
pub enum MatchView {
    CgroupPrefix(Seq<char>),
    CgroupSuffix(Seq<char>),
    CgroupContains(Seq<char>),
    CommPrefix(Seq<char>),
    PcommPrefix(Seq<char>),
    NiceAbove(i32),
    NiceBelow(i32),
    NiceEquals(i32),
    UserIdEquals(u32),
    GroupIdEquals(u32),
    PidEquals(u32),
    PpidEquals(u32),
    TgidEquals(u32),
    IsGroupLeader(bool),
    IsKthread(bool),
    NumaNode(u32),
    AvgRuntime(u64, u64),
    Not(Box<MatchView>),
}

/// What contracts see of a rule.
pub open spec fn match_view(m: LayerMatch) -> MatchView
    decreases m,
{
    match m {
        LayerMatch::CgroupPrefix(v) => MatchView::CgroupPrefix(v@),
        LayerMatch::CgroupSuffix(v) => MatchView::CgroupSuffix(v@),
        LayerMatch::CgroupContains(v) => MatchView::CgroupContains(v@),
        LayerMatch::CommPrefix(v) => MatchView::CommPrefix(v@),
        LayerMatch::PcommPrefix(v) => MatchView::PcommPrefix(v@),
        LayerMatch::NiceAbove(v) => MatchView::NiceAbove(v),
        LayerMatch::NiceBelow(v) => MatchView::NiceBelow(v),
        LayerMatch::NiceEquals(v) => MatchView::NiceEquals(v),
        LayerMatch::UserIdEquals(v) => MatchView::UserIdEquals(v),
        LayerMatch::GroupIdEquals(v) => MatchView::GroupIdEquals(v),
        LayerMatch::PidEquals(v) => MatchView::PidEquals(v),
        LayerMatch::PpidEquals(v) => MatchView::PpidEquals(v),
        LayerMatch::TgidEquals(v) => MatchView::TgidEquals(v),
        LayerMatch::IsGroupLeader(v) => MatchView::IsGroupLeader(v),
        LayerMatch::IsKthread(v) => MatchView::IsKthread(v),
        LayerMatch::NumaNode(v) => MatchView::NumaNode(v),
        LayerMatch::AvgRuntime(a, b) => MatchView::AvgRuntime(a, b),
        LayerMatch::Not(m) => MatchView::Not(Box::new(match_view(*m))),
    }
}

impl View for LayerMatch {
    type V = MatchView;

    open spec fn view(&self) -> MatchView {
        match_view(*self)
    }
}

/// The scheduler's number of this kind of rule.
pub const MATCH_CGROUP_PREFIX: i32 = 0;

/// The scheduler's number of this kind of rule.
pub const MATCH_CGROUP_SUFFIX: i32 = 19;

/// The scheduler's number of this kind of rule.
pub const MATCH_CGROUP_CONTAINS: i32 = 20;

/// The scheduler's number of this kind of rule.
pub const MATCH_COMM_PREFIX: i32 = 1;

/// The scheduler's number of this kind of rule.
pub const MATCH_PCOMM_PREFIX: i32 = 2;

/// The scheduler's number of this kind of rule.
pub const MATCH_NICE_ABOVE: i32 = 3;

/// The scheduler's number of this kind of rule.
pub const MATCH_NICE_BELOW: i32 = 4;

/// The scheduler's number of this kind of rule.
pub const MATCH_NICE_EQUALS: i32 = 5;

/// The scheduler's number of this kind of rule.
pub const MATCH_USER_ID_EQUALS: i32 = 6;

/// The scheduler's number of this kind of rule.
pub const MATCH_GROUP_ID_EQUALS: i32 = 7;

/// The scheduler's number of this kind of rule.
pub const MATCH_PID_EQUALS: i32 = 8;

/// The scheduler's number of this kind of rule.
pub const MATCH_PPID_EQUALS: i32 = 9;

/// The scheduler's number of this kind of rule.
pub const MATCH_TGID_EQUALS: i32 = 10;

/// The scheduler's number of this kind of rule.
pub const MATCH_IS_GROUP_LEADER: i32 = 14;

/// The scheduler's number of this kind of rule.
pub const MATCH_IS_KTHREAD: i32 = 15;

/// The scheduler's number of this kind of rule.
pub const MATCH_NUMA_NODE: i32 = 25;

/// The scheduler's number of this kind of rule.
pub const MATCH_AVG_RUNTIME: i32 = 18;

/// What the scheduler is told of a rule: its kind, a text and a number. A
/// negated rule is told as the rule that it negates.
pub open spec fn told(m: MatchView) -> (i32, Option<Seq<char>>, i64)
    decreases m,
{
    match m {
        MatchView::CgroupPrefix(v) => (MATCH_CGROUP_PREFIX, Some(v), 0),
        MatchView::CgroupSuffix(v) => (MATCH_CGROUP_SUFFIX, Some(v), 0),
        MatchView::CgroupContains(v) => (MATCH_CGROUP_CONTAINS, Some(v), 0),
        MatchView::CommPrefix(v) => (MATCH_COMM_PREFIX, Some(v), 0),
        MatchView::PcommPrefix(v) => (MATCH_PCOMM_PREFIX, Some(v), 0),
        MatchView::NiceAbove(v) => (MATCH_NICE_ABOVE, None, v as i64),
        MatchView::NiceBelow(v) => (MATCH_NICE_BELOW, None, v as i64),
        MatchView::NiceEquals(v) => (MATCH_NICE_EQUALS, None, v as i64),
        MatchView::UserIdEquals(v) => (MATCH_USER_ID_EQUALS, None, v as i64),
        MatchView::GroupIdEquals(v) => (MATCH_GROUP_ID_EQUALS, None, v as i64),
        MatchView::PidEquals(v) => (MATCH_PID_EQUALS, None, v as i64),
        MatchView::PpidEquals(v) => (MATCH_PPID_EQUALS, None, v as i64),
        MatchView::TgidEquals(v) => (MATCH_TGID_EQUALS, None, v as i64),
        MatchView::IsGroupLeader(v) => (MATCH_IS_GROUP_LEADER, None, flag_number(v)),
        MatchView::IsKthread(v) => (MATCH_IS_KTHREAD, None, flag_number(v)),
        MatchView::NumaNode(v) => (MATCH_NUMA_NODE, None, v as i64),
        MatchView::AvgRuntime(a, b) => (MATCH_AVG_RUNTIME, None, a as i64),
        MatchView::Not(inner) => told(*inner),
    }
}

/// Whether a rule is negated: each `Not` inverts the rule it wraps.
pub open spec fn negated(m: MatchView) -> bool
    decreases m,
{
    match m {
        MatchView::Not(inner) => !negated(*inner),
        _ => false,
    }
}

/// A yes or no as a number.
pub open spec fn flag_number(v: bool) -> i64 {
    if v {
        1
    } else {
        0
    }
}

fn flag_of(v: bool) -> (r: i64)
    ensures
        r == flag_number(v),
{
    if v {
        1
    } else {
        0
    }
}

impl LayerMatch {
    /// Whether the rule is negated.
    pub fn exclude(&self) -> (r: bool)
        ensures
            r == negated(self@),
        decreases self,
    {
        match self {
            LayerMatch::Not(inner) => !inner.exclude(),
            _ => false,
        }
    }

    /// The scheduler's number of the rule's kind.
    pub fn match_kind(&self) -> (r: i32)
        ensures
            r == told(self@).0,
    {
        self.to_ffi().0
    }

    /// What the scheduler is told of the rule.
    pub fn to_ffi(&self) -> (r: (i32, Option<&str>, i64))
        ensures
            r.0 == told(self@).0,
            match r.1 {
                Some(s) => told(self@).1 == Some(s@),
                None => told(self@).1 is None,
            },
            r.2 == told(self@).2,
        decreases self,
    {
        match self {
            LayerMatch::CgroupPrefix(v) => (MATCH_CGROUP_PREFIX, Some(v.as_str()), 0),
            LayerMatch::CgroupSuffix(v) => (MATCH_CGROUP_SUFFIX, Some(v.as_str()), 0),
            LayerMatch::CgroupContains(v) => (MATCH_CGROUP_CONTAINS, Some(v.as_str()), 0),
            LayerMatch::CommPrefix(v) => (MATCH_COMM_PREFIX, Some(v.as_str()), 0),
            LayerMatch::PcommPrefix(v) => (MATCH_PCOMM_PREFIX, Some(v.as_str()), 0),
            LayerMatch::NiceAbove(v) => (MATCH_NICE_ABOVE, None, *v as i64),
            LayerMatch::NiceBelow(v) => (MATCH_NICE_BELOW, None, *v as i64),
            LayerMatch::NiceEquals(v) => (MATCH_NICE_EQUALS, None, *v as i64),
            LayerMatch::UserIdEquals(v) => (MATCH_USER_ID_EQUALS, None, *v as i64),
            LayerMatch::GroupIdEquals(v) => (MATCH_GROUP_ID_EQUALS, None, *v as i64),
            LayerMatch::PidEquals(v) => (MATCH_PID_EQUALS, None, *v as i64),
            LayerMatch::PpidEquals(v) => (MATCH_PPID_EQUALS, None, *v as i64),
            LayerMatch::TgidEquals(v) => (MATCH_TGID_EQUALS, None, *v as i64),
            LayerMatch::IsGroupLeader(v) => (MATCH_IS_GROUP_LEADER, None, flag_of(*v)),
            LayerMatch::IsKthread(v) => (MATCH_IS_KTHREAD, None, flag_of(*v)),
            LayerMatch::NumaNode(v) => (MATCH_NUMA_NODE, None, *v as i64),
            LayerMatch::AvgRuntime(a, _) => (MATCH_AVG_RUNTIME, None, *a as i64),
            LayerMatch::Not(inner) => inner.to_ffi(),
        }
    }
}

/// Negating a rule inverts it and changes neither its kind nor what it is about;
/// negating it twice leaves it as it was.
pub proof fn law_negation_keeps_the_kind(m: MatchView)
    ensures
        told(MatchView::Not(Box::new(m))) == told(m),
        negated(MatchView::Not(Box::new(m))) == !negated(m),
        negated(MatchView::Not(Box::new(MatchView::Not(Box::new(m))))) == negated(m),
{
    assert(negated(MatchView::Not(Box::new(m))) == !negated(m));
}

/// What rules look at in a task.
pub struct TaskTraits {
    pub cgroup_path: Seq<char>,
    /// The task's name.
    pub comm: Seq<char>,
    /// The name of the thread group's leader.
    pub pcomm: Seq<char>,
    pub nice: int,
    pub uid: int,
    pub gid: int,
    pub pid: int,
    pub ppid: int,
    pub tgid: int,
    pub leads_group: bool,
    pub is_kthread: bool,
    /// The node that the task may only run on, if there is one.
    pub node: Option<int>,
    pub avg_runtime_us: int,
}

/// Whether a text starts with another.
pub open spec fn begins_with(s: Seq<char>, needle: Seq<char>) -> bool {
    exists|rest: Seq<char>| s == #[trigger] (needle + rest)
}

/// Whether a text ends with another.
pub open spec fn finishes_with(s: Seq<char>, needle: Seq<char>) -> bool {
    exists|rest: Seq<char>| s == #[trigger] (rest + needle)
}

/// Whether a text has another in it.
pub open spec fn has_within(s: Seq<char>, needle: Seq<char>) -> bool {
    exists|a: Seq<char>, b: Seq<char>| s == #[trigger] (a + needle + b)
}

/// Whether a rule holds of a task.
pub open spec fn rule_holds(m: LayerMatch, t: TaskTraits) -> bool
    decreases m,
{
    match m {
        LayerMatch::CgroupPrefix(v) => begins_with(t.cgroup_path, v@),
        LayerMatch::CgroupSuffix(v) => finishes_with(t.cgroup_path, v@),
        LayerMatch::CgroupContains(v) => has_within(t.cgroup_path, v@),
        LayerMatch::CommPrefix(v) => begins_with(t.comm, v@),
        LayerMatch::PcommPrefix(v) => begins_with(t.pcomm, v@),
        LayerMatch::NiceAbove(v) => t.nice > v,
        LayerMatch::NiceBelow(v) => t.nice < v,
        LayerMatch::NiceEquals(v) => t.nice == v,
        LayerMatch::UserIdEquals(v) => t.uid == v,
        LayerMatch::GroupIdEquals(v) => t.gid == v,
        LayerMatch::PidEquals(v) => t.pid == v,
        LayerMatch::PpidEquals(v) => t.ppid == v,
        LayerMatch::TgidEquals(v) => t.tgid == v,
        LayerMatch::IsGroupLeader(v) => t.leads_group == v,
        LayerMatch::IsKthread(v) => t.is_kthread == v,
        LayerMatch::NumaNode(v) => t.node == Some(v as int),
        LayerMatch::AvgRuntime(a, b) => a <= t.avg_runtime_us < b,
        LayerMatch::Not(inner) => !rule_holds(*inner, t),
    }
}

/// Whether a layer takes a task: every rule of one of its groups holds.
pub open spec fn takes_task(groups: Seq<Vec<LayerMatch>>, t: TaskTraits) -> bool {
    exists|i: int| 0 <= i < groups.len() && #[trigger] group_holds(groups[i], t)
}

/// Whether every rule of a group holds.
pub open spec fn group_holds(ands: Vec<LayerMatch>, t: TaskTraits) -> bool {
    forall|j: int| 0 <= j < ands@.len() ==> rule_holds(#[trigger] ands@[j], t)
}

/// How the scheduler reads the number of a rule's kind, the text and the number that
/// come with it.
pub open spec fn scheduler_reads(
    kind: i32,
    needle: Option<Seq<char>>,
    n: i64,
    t: TaskTraits,
) -> bool {
    if kind == 0 {
        needle is Some && begins_with(t.cgroup_path, needle->0)
    } else if kind == 1 {
        needle is Some && begins_with(t.comm, needle->0)
    } else if kind == 2 {
        needle is Some && begins_with(t.pcomm, needle->0)
    } else if kind == 3 {
        t.nice > n
    } else if kind == 4 {
        t.nice < n
    } else if kind == 5 {
        t.nice == n
    } else if kind == 6 {
        t.uid == n
    } else if kind == 7 {
        t.gid == n
    } else if kind == 8 {
        t.pid == n
    } else if kind == 9 {
        t.ppid == n
    } else if kind == 10 {
        t.tgid == n
    } else if kind == 14 {
        t.leads_group == (n != 0)
    } else if kind == 15 {
        t.is_kthread == (n != 0)
    } else if kind == 18 {
        t.avg_runtime_us >= n
    } else if kind == 19 {
        needle is Some && finishes_with(t.cgroup_path, needle->0)
    } else if kind == 20 {
        needle is Some && has_within(t.cgroup_path, needle->0)
    } else {
        kind == 25 && t.node == Some(n as int)
    }
}

/// Whether a rule is about the average runtime.
pub open spec fn is_about_runtime(m: LayerMatch) -> bool
    decreases m,
{
    match m {
        LayerMatch::AvgRuntime(_, _) => true,
        LayerMatch::Not(inner) => is_about_runtime(*inner),
        _ => false,
    }
}

/// The scheduler takes a rule as it is meant: what it is told, inverted where the
/// rule is negated, holds of exactly the tasks that the rule holds of. Of a range of
/// runtimes it is told the lower bound, which every task of the range keeps.
pub proof fn law_the_scheduler_reads_what_the_rule_means(m: LayerMatch, t: TaskTraits)
    ensures
        !is_about_runtime(m) ==> {
            let (kind, needle, n) = told(m@);
            rule_holds(m, t) == (scheduler_reads(kind, needle, n, t) != negated(m@))
        },
        m is AvgRuntime && m->AvgRuntime_0 <= i64::MAX && rule_holds(m, t) ==> {
            let (kind, needle, n) = told(m@);
            scheduler_reads(kind, needle, n, t) && !negated(m@)
        },
    decreases m,
{
    match m {
        LayerMatch::Not(inner) => {
            law_the_scheduler_reads_what_the_rule_means(*inner, t);
            assert(m@ == MatchView::Not(Box::new(match_view(*inner))));
        },
        _ => {},
    }
}

/// Different kinds of layers have different numbers: an open layer's is the lowest and a
/// confined one's the highest, so that more of a layer's own is a higher number.
pub proof fn law_kind_numbers_rise_with_ownership(k: LayerKind)
    ensures
        kind_number(LayerKind::Open) < kind_number(LayerKind::Grouped) < kind_number(
            LayerKind::Confined,
        ),
        0 <= kind_number(k) <= 2,
{
}

/// The weight of a layer that sets none.
pub const DEFAULT_LAYER_WEIGHT: u32 = 100;

/// What stands for never where a layer disallows something after a time.
pub const DISALLOW_AFTER_NEVER: TimeNs = 0xFFFF_FFFF_FFFF_FFFF;

/// The load ratios, 0.6 and 0.7, at which migration between nodes closes and
/// opens.
pub const XNUMA_CLOSE: u64 = 0x3FE3_3333_3333_3333;

/// See `XNUMA_CLOSE`.
pub const XNUMA_OPEN: u64 = 0x3FE6_6666_6666_6666;

/// The surplus ratios, 0.2 and 0.3, at which migration between nodes closes
/// and opens.
pub const XNUMA_DELTA_CLOSE: u64 = 0x3FC9_9999_9999_999A;

/// See `XNUMA_DELTA_CLOSE`.
pub const XNUMA_DELTA_OPEN: u64 = 0x3FD3_3333_3333_3333;

/// One layer.
#[derive(Debug, PartialEq, Eq)]
pub struct LayerSpec {
    pub name: String,
    pub kind: LayerKind,
    /// Tasks of this layer preempt those of other layers.
    pub preempt: bool,
    /// Preemption is tried before idle CPUs.
    pub preempt_first: bool,
    /// No task of another layer runs on a sibling.
    pub exclusive: bool,
    /// Tasks of other layers do not preempt this one.
    pub protected: bool,
    pub fifo: bool,
    pub skip_remote_node: bool,
    pub prev_over_idle_core: bool,
    pub idle_confined: bool,
    pub weight: u32,
    pub perf: u32,
    /// The desired utilization of each CPU, from and to.
    pub util_range: Option<(Double, Double)>,
    /// The least and the greatest number of CPUs.
    pub cpus_range: Option<(usize, usize)>,
    /// Time on open CPUs counts towards the layer's size.
    pub util_includes_open_cputime: bool,
    /// The layer's slice; 0 for the scheduler's.
    pub slice_ns: TimeNs,
    pub yield_ignore: Double,
    pub min_exec_ns: TimeNs,
    pub max_exec_ns: TimeNs,
    pub disallow_open_after_ns: TimeNs,
    pub disallow_preempt_after_ns: TimeNs,
    pub xllc_mig_min_ns: TimeNs,
    pub member_expire_ms: u64,
    pub growth_algo: LayerGrowthAlgo,
    pub placement: LayerPlacement,
    /// The nodes that the layer prefers.
    pub nodes: Vec<usize>,
    /// The caches that the layer prefers.
    pub llcs: Vec<usize>,
    /// A task belongs to the layer if every rule of one of these groups holds.
    pub matches: Vec<Vec<LayerMatch>>,
    /// The CPUs that the layer is pinned to.
    pub cpus: Option<Vec<CpuId>>,
    /// The load ratios at which migration between nodes closes and opens.
    pub xnuma_threshold: (Double, Double),
    /// The surplus ratios at which migration between nodes closes and opens.
    pub xnuma_threshold_delta: (Double, Double),
}

/// A layer as contracts see it.
#[verifier::ext_equal]
pub struct SpecView {
    pub name: Seq<char>,
    pub kind: LayerKind,
    pub preempt: bool,
    pub preempt_first: bool,
    pub exclusive: bool,
    pub protected: bool,
    pub fifo: bool,
    pub skip_remote_node: bool,
    pub prev_over_idle_core: bool,
    pub idle_confined: bool,
    pub weight: u32,
    pub perf: u32,
    pub util_range: Option<(Double, Double)>,
    pub cpus_range: Option<(usize, usize)>,
    pub util_includes_open_cputime: bool,
    pub slice_ns: TimeNs,
    pub yield_ignore: Double,
    pub min_exec_ns: TimeNs,
    pub max_exec_ns: TimeNs,
    pub disallow_open_after_ns: TimeNs,
    pub disallow_preempt_after_ns: TimeNs,
    pub xllc_mig_min_ns: TimeNs,
    pub member_expire_ms: u64,
    pub growth_algo: LayerGrowthAlgo,
    pub placement: LayerPlacement,
    pub nodes: Seq<usize>,
    pub llcs: Seq<usize>,
    pub matches: Seq<Seq<MatchView>>,
    pub cpus: Option<Seq<CpuId>>,
    pub xnuma_threshold: (Double, Double),
    pub xnuma_threshold_delta: (Double, Double),
}

/// A group of rules as contracts see it.
pub open spec fn group_view(ands: Vec<LayerMatch>) -> Seq<MatchView> {
    ands@.map_values(|m: LayerMatch| m@)
}

/// The groups of rules as contracts see them.
pub open spec fn groups_view(ors: Seq<Vec<LayerMatch>>) -> Seq<Seq<MatchView>> {
    ors.map_values(|ands: Vec<LayerMatch>| group_view(ands))
}

impl View for LayerSpec {
    type V = SpecView;

    open spec fn view(&self) -> SpecView {
        SpecView {
            name: self.name@,
            kind: self.kind,
            preempt: self.preempt,
            preempt_first: self.preempt_first,
            exclusive: self.exclusive,
            protected: self.protected,
            fifo: self.fifo,
            skip_remote_node: self.skip_remote_node,
            prev_over_idle_core: self.prev_over_idle_core,
            idle_confined: self.idle_confined,
            weight: self.weight,
            perf: self.perf,
            util_range: self.util_range,
            cpus_range: self.cpus_range,
            util_includes_open_cputime: self.util_includes_open_cputime,
            slice_ns: self.slice_ns,
            yield_ignore: self.yield_ignore,
            min_exec_ns: self.min_exec_ns,
            max_exec_ns: self.max_exec_ns,
            disallow_open_after_ns: self.disallow_open_after_ns,
            disallow_preempt_after_ns: self.disallow_preempt_after_ns,
            xllc_mig_min_ns: self.xllc_mig_min_ns,
            member_expire_ms: self.member_expire_ms,
            growth_algo: self.growth_algo,
            placement: self.placement,
            nodes: self.nodes@,
            llcs: self.llcs@,
            matches: groups_view(self.matches@),
            cpus: match self.cpus {
                Some(c) => Some(c@),
                None => None,
            },
            xnuma_threshold: self.xnuma_threshold,
            xnuma_threshold_delta: self.xnuma_threshold_delta,
        }
    }
}

/// A layer with nothing set.
pub open spec fn default_spec(name: Seq<char>, kind: LayerKind) -> SpecView {
    SpecView {
        name,
        kind,
        preempt: false,
        preempt_first: false,
        exclusive: false,
        protected: false,
        fifo: false,
        skip_remote_node: false,
        prev_over_idle_core: false,
        idle_confined: false,
        weight: DEFAULT_LAYER_WEIGHT,
        perf: 0,
        util_range: None,
        cpus_range: None,
        util_includes_open_cputime: false,
        slice_ns: 0,
        yield_ignore: Double(0),
        min_exec_ns: 0,
        max_exec_ns: 0,
        disallow_open_after_ns: DISALLOW_AFTER_NEVER,
        disallow_preempt_after_ns: DISALLOW_AFTER_NEVER,
        xllc_mig_min_ns: 0,
        member_expire_ms: 0,
        growth_algo: LayerGrowthAlgo::Linear,
        placement: LayerPlacement::Standard,
        nodes: Seq::empty(),
        llcs: Seq::empty(),
        matches: Seq::empty(),
        cpus: None,
        xnuma_threshold: (Double(XNUMA_CLOSE), Double(XNUMA_OPEN)),
        xnuma_threshold_delta: (Double(XNUMA_DELTA_CLOSE), Double(XNUMA_DELTA_OPEN)),
    }
}

impl LayerSpec {
    /// A layer with nothing set.
    pub fn new(name: String, kind: LayerKind) -> (r: LayerSpec)
        ensures
            r@ == default_spec(name@, kind),
    {
        let r = LayerSpec {
            name,
            kind,
            preempt: false,
            preempt_first: false,
            exclusive: false,
            protected: false,
            fifo: false,
            skip_remote_node: false,
            prev_over_idle_core: false,
            idle_confined: false,
            weight: DEFAULT_LAYER_WEIGHT,
            perf: 0,
            util_range: None,
            cpus_range: None,
            util_includes_open_cputime: false,
            slice_ns: 0,
            yield_ignore: Double(0),
            min_exec_ns: 0,
            max_exec_ns: 0,
            disallow_open_after_ns: DISALLOW_AFTER_NEVER,
            disallow_preempt_after_ns: DISALLOW_AFTER_NEVER,
            xllc_mig_min_ns: 0,
            member_expire_ms: 0,
            growth_algo: LayerGrowthAlgo::Linear,
            placement: LayerPlacement::Standard,
            nodes: Vec::new(),
            llcs: Vec::new(),
            matches: Vec::new(),
            cpus: None,
            xnuma_threshold: (Double(XNUMA_CLOSE), Double(XNUMA_OPEN)),
            xnuma_threshold_delta: (Double(XNUMA_DELTA_CLOSE), Double(XNUMA_DELTA_OPEN)),
        };
        proof {
            assert(r@ =~= default_spec(name@, kind));
        }
        r
    }

    /// An open layer that takes every task.
    pub fn catch_all(name: String) -> (r: LayerSpec)
        ensures
            r@ == (SpecView {
                matches: seq![Seq::<MatchView>::empty()],
                ..default_spec(name@, LayerKind::Open)
            }),
    {
        let ands: Vec<LayerMatch> = Vec::new();
        proof {
            assert(group_view(ands) =~= Seq::<MatchView>::empty());
        }
        let r = LayerSpec::new(name, LayerKind::Open).with_or(ands);
        proof {
            assert(r@.matches =~= seq![Seq::<MatchView>::empty()]);
        }
        r
    }

    /// With one more group of rules, all of which must hold.
    pub fn with_or(self, ands: Vec<LayerMatch>) -> (r: LayerSpec)
        ensures
            r@ == (SpecView { matches: self@.matches.push(group_view(ands)), ..self@ }),
    {
        let mut r = self;
        r.matches.push(ands);
        proof {
            assert(r@.matches =~= self@.matches.push(group_view(ands)));
        }
        r
    }

    /// With one more rule that suffices alone.
    pub fn with_match(self, m: LayerMatch) -> (r: LayerSpec)
        ensures
            r@ == (SpecView { matches: self@.matches.push(seq![m@]), ..self@ }),
    {
        let mut ands: Vec<LayerMatch> = Vec::new();
        ands.push(m);
        proof {
            assert(group_view(ands) =~= seq![m@]);
        }
        self.with_or(ands)
    }

    /// With another weight.
    pub fn with_weight(self, weight: u32) -> (r: LayerSpec)
        ensures
            r@ == (SpecView { weight, ..self@ }),
    {
        let mut r = self;
        r.weight = weight;
        r
    }

    /// With a desired utilization of each CPU.
    pub fn with_util_range(self, low: Double, high: Double) -> (r: LayerSpec)
        requires
            Double::spec_zero().le(low),
            low.lt(high),
        ensures
            r@ == (SpecView { util_range: Some((low, high)), ..self@ }),
    {
        let mut r = self;
        r.util_range = Some((low, high));
        r
    }

    /// With a least and a greatest number of CPUs.
    pub fn with_cpus_range(self, min: usize, max: usize) -> (r: LayerSpec)
        requires
            min <= max,
        ensures
            r@ == (SpecView { cpus_range: Some((min, max)), ..self@ }),
    {
        let mut r = self;
        r.cpus_range = Some((min, max));
        r
    }

    /// With time on open CPUs counted or not.
    pub fn with_open_cputime(self, include_open: bool) -> (r: LayerSpec)
        ensures
            r@ == (SpecView { util_includes_open_cputime: include_open, ..self@ }),
    {
        let mut r = self;
        r.util_includes_open_cputime = include_open;
        r
    }

    /// With another growth algorithm.
    pub fn with_growth_algo(self, growth_algo: LayerGrowthAlgo) -> (r: LayerSpec)
        ensures
            r@ == (SpecView { growth_algo, ..self@ }),
    {
        let mut r = self;
        r.growth_algo = growth_algo;
        r
    }

    /// With preferred nodes.
    pub fn with_nodes(self, nodes: Vec<usize>) -> (r: LayerSpec)
        ensures
            r@ == (SpecView { nodes: nodes@, ..self@ }),
    {
        let mut r = self;
        r.nodes = nodes;
        r
    }

    /// With preferred caches.
    pub fn with_llcs(self, llcs: Vec<usize>) -> (r: LayerSpec)
        ensures
            r@ == (SpecView { llcs: llcs@, ..self@ }),
    {
        let mut r = self;
        r.llcs = llcs;
        r
    }

    /// Preempting or not.
    pub fn with_preempt(self, preempt: bool) -> (r: LayerSpec)
        ensures
            r@ == (SpecView { preempt, ..self@ }),
    {
        let mut r = self;
        r.preempt = preempt;
        r
    }

    /// Exclusive or not.
    pub fn with_exclusive(self, exclusive: bool) -> (r: LayerSpec)
        ensures
            r@ == (SpecView { exclusive, ..self@ }),
    {
        let mut r = self;
        r.exclusive = exclusive;
        r
    }

    /// With another slice.
    pub fn with_slice_ns(self, slice_ns: TimeNs) -> (r: LayerSpec)
        ensures
            r@ == (SpecView { slice_ns, ..self@ }),
    {
        let mut r = self;
        r.slice_ns = slice_ns;
        r
    }

    /// Pinned to CPUs.
    pub fn with_cpus(self, cpus: Vec<CpuId>) -> (r: LayerSpec)
        ensures
            r@ == (SpecView { cpus: Some(cpus@), ..self@ }),
    {
        let mut r = self;
        r.cpus = Some(cpus);
        r
    }

    /// With other ratios for migration between nodes.
    pub fn with_xnuma_threshold(self, threshold: (Double, Double), threshold_delta: (Double, Double)) -> (r: LayerSpec)
        ensures
            r@ == (SpecView { xnuma_threshold: threshold, xnuma_threshold_delta: threshold_delta, ..self@ }),
    {
        let mut r = self;
        r.xnuma_threshold = threshold;
        r.xnuma_threshold_delta = threshold_delta;
        r
    }

}

/// Numbers are ordered: none is less than itself, less carries over, of two numbers one is
/// less unless they stand for the same, at most is less or the same, and what is no number
/// is in no order with anything.
pub proof fn law_doubles_are_ordered(a: Double, b: Double, c: Double)
    ensures
        !a.lt(a),
        a.lt(b) && b.lt(c) ==> a.lt(c),
        a.lt(b) ==> !b.lt(a) && a.le(b),
        a.le(b) && b.lt(c) ==> a.lt(c),
        !a.spec_is_nan() && !b.spec_is_nan() ==> a.lt(b) || b.lt(a) || (a.le(b) && b.le(a)),
        !a.spec_is_nan() && !b.spec_is_nan() ==> (a.le(b) <==> !b.lt(a)),
        a.spec_is_nan() ==> !a.lt(b) && !b.lt(a) && !a.le(b) && !b.le(a),
        Double(0).lt(Double(0x3FF0_0000_0000_0000)),
        Double::spec_zero() == Double(0) && Double::spec_one() == Double(0x3FF0_0000_0000_0000),
{
}

/// A number with its sign turned is on the other side of zero, as far away; both zeros are
/// the same; a positive number is greater the greater its bits, a negative one less.
pub proof fn law_signs_turn_the_order(m: u64, n: u64)
    requires
        m <= 0x7FF0_0000_0000_0000,
        n <= 0x7FF0_0000_0000_0000,
    ensures
        ({
            let (p, q) = (Double(m), Double(n));
            let (minus_p, minus_q) = (
                Double((m + 0x8000_0000_0000_0000) as u64),
                Double((n + 0x8000_0000_0000_0000) as u64),
            );
            &&& p.lt(q) <==> m < n
            &&& minus_p.lt(minus_q) <==> q.lt(p)
            &&& m > 0 ==> minus_p.lt(Double(0)) && Double(0).lt(p)
            &&& m == 0 ==> p.le(minus_p) && minus_p.le(p)
            &&& !p.spec_is_nan() && !minus_p.spec_is_nan()
        }),
        m > 0 ==> Double((0x7FF0_0000_0000_0000 + m) as u64).spec_is_nan() || 0x7FF0_0000_0000_0000
            + m >= 0x8000_0000_0000_0000,
{
}

/// The numbers by which the scheduler knows the growth algorithms.
pub proof fn law_algorithms_have_their_numbers(a: LayerGrowthAlgo)
    ensures
        algo_number(a) == 0 <==> a is Sticky,
        algo_number(a) == 1 <==> a is Linear,
        algo_number(a) == 2 <==> a is Reverse,
        algo_number(a) == 3 <==> a is Random,
        algo_number(a) == 4 <==> a is Topo,
        algo_number(a) == 5 <==> a is RoundRobin,
        algo_number(a) == 6 <==> a is BigLittle,
        algo_number(a) == 7 <==> a is LittleBig,
        algo_number(a) == 8 <==> a is NodeSpread,
        algo_number(a) == 9 <==> a is NodeSpreadReverse,
        algo_number(a) == 10 <==> a is NodeSpreadRandom,
        algo_number(a) == 11 <==> a is CpuSetSpread,
        algo_number(a) == 12 <==> a is CpuSetSpreadReverse,
        algo_number(a) == 13 <==> a is CpuSetSpreadRandom,
        algo_number(a) == 14 <==> a is RandomTopo,
        algo_number(a) == 15 <==> a is StickyDynamic,
        a.spec_spreads() <==> 8 <= algo_number(a) <= 10,
        a.spec_needs_cpusets() <==> 11 <= algo_number(a) <= 13,
{
}

/// A layer with nothing set is a plain one: no rules, no CPUs and no nodes of its own, no
/// preemption and no limits, of the usual weight, growing from the lowest CPU upward.
pub proof fn law_a_layer_starts_with_nothing_set(name: Seq<char>, kind: LayerKind)
    ensures
        ({
            let s = default_spec(name, kind);
            &&& s.name == name && s.kind == kind
            &&& !s.preempt && !s.preempt_first && !s.exclusive && !s.protected && !s.fifo
            &&& !s.skip_remote_node && !s.prev_over_idle_core && !s.idle_confined
                && !s.util_includes_open_cputime
            &&& s.weight == 100 && s.perf == 0 && s.slice_ns == 0 && s.min_exec_ns == 0
                && s.max_exec_ns == 0 && s.xllc_mig_min_ns == 0 && s.member_expire_ms == 0
            &&& s.util_range is None && s.cpus_range is None && s.cpus is None
            &&& s.yield_ignore == Double(0)
            &&& s.disallow_open_after_ns == u64::MAX && s.disallow_preempt_after_ns == u64::MAX
            &&& s.growth_algo is Linear && s.placement is Standard
            &&& s.nodes.len() == 0 && s.llcs.len() == 0 && s.matches.len() == 0
            &&& s.xnuma_threshold == (
                Double(0x3FE3_3333_3333_3333),
                Double(0x3FE6_6666_6666_6666),
            )
            &&& s.xnuma_threshold_delta == (
                Double(0x3FC9_9999_9999_999A),
                Double(0x3FD3_3333_3333_3333),
            )
        }),
{
}

/// Contracts see a layer as it is.
pub proof fn law_layers_are_seen_as_they_are(s: LayerSpec, i: int, j: int)
    ensures
        s@.name == s.name@ && s@.kind == s.kind && s@.weight == s.weight && s@.perf == s.perf,
        s@.preempt == s.preempt && s@.preempt_first == s.preempt_first && s@.exclusive
            == s.exclusive && s@.protected == s.protected && s@.fifo == s.fifo,
        s@.skip_remote_node == s.skip_remote_node && s@.prev_over_idle_core
            == s.prev_over_idle_core && s@.idle_confined == s.idle_confined,
        s@.util_range == s.util_range && s@.cpus_range == s.cpus_range
            && s@.util_includes_open_cputime == s.util_includes_open_cputime,
        s@.slice_ns == s.slice_ns && s@.yield_ignore == s.yield_ignore && s@.min_exec_ns
            == s.min_exec_ns && s@.max_exec_ns == s.max_exec_ns,
        s@.disallow_open_after_ns == s.disallow_open_after_ns && s@.disallow_preempt_after_ns
            == s.disallow_preempt_after_ns && s@.xllc_mig_min_ns == s.xllc_mig_min_ns
            && s@.member_expire_ms == s.member_expire_ms,
        s@.growth_algo == s.growth_algo && s@.placement == s.placement && s@.nodes == s.nodes@
            && s@.llcs == s.llcs@,
        s@.xnuma_threshold == s.xnuma_threshold && s@.xnuma_threshold_delta
            == s.xnuma_threshold_delta,
        s.cpus is None <==> s@.cpus is None,
        s.cpus is Some ==> s@.cpus == Some((s.cpus->0)@),
        s@.matches.len() == s.matches@.len(),
        0 <= i < s.matches@.len() ==> s@.matches[i].len() == s.matches@[i]@.len(),
        0 <= i < s.matches@.len() && 0 <= j < s.matches@[i]@.len() ==> s@.matches[i][j]
            == s.matches@[i]@[j]@,
{
}

} // verus!
