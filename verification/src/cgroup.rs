//! The control group hierarchy.
//!
//! A registry always holds the root group. Other groups are created below an
//! existing one and can be found by number or by name. The registry also
//! counts the entries that a scheduler's bounded map of groups has in use.

use vstd::prelude::*;

use crate::text::{dec, decimal, same_text};
use crate::types::{CgroupId, CpuId, ROOT_CGID};

verus! {

/// The limit on control groups that ordinary scenarios use.
pub const DEFAULT_MAX_CGROUPS: u32 = 10000;

/// What an exhausted map answers.
pub const ENOMEM: i32 = 12;

/// One control group.
#[derive(Debug)]
pub struct CgroupInfo {
    pub cgid: CgroupId,
    /// Depth below the root.
    pub level: u32,
    /// The group this one was created under; 0 for the root.
    pub parent_cgid: CgroupId,
    /// CPUs the group may use; every CPU when absent.
    pub cpuset: Option<Vec<CpuId>>,
    /// The root has no name.
    pub name: String,
}

/// A control group as contracts see it.
pub struct GroupView {
    pub id: u64,
    pub level: u32,
    pub parent: u64,
    pub cpuset: Option<Seq<CpuId>>,
    pub name: Seq<char>,
}

/// A set of CPUs as contracts see it.
pub open spec fn cpuset_view(cpuset: Option<Vec<CpuId>>) -> Option<Seq<CpuId>> {
    match cpuset {
        Some(cpus) => Some(cpus@),
        None => None,
    }
}

impl View for CgroupInfo {
    type V = GroupView;

    open spec fn view(&self) -> GroupView {
        GroupView {
            id: self.cgid.0,
            level: self.level,
            parent: self.parent_cgid.0,
            cpuset: cpuset_view(self.cpuset),
            name: self.name@,
        }
    }
}

/// The position of the group numbered `id`.
pub open spec fn position(groups: Seq<GroupView>, id: u64) -> Option<int>
    decreases groups.len(),
{
    if groups.len() == 0 {
        None
    } else if groups.last().id == id {
        Some(groups.len() - 1)
    } else {
        position(groups.drop_last(), id)
    }
}

/// The number that a name stands for.
pub open spec fn named(names: Seq<(Seq<char>, u64)>, name: Seq<char>) -> Option<u64>
    decreases names.len(),
{
    if names.len() == 0 {
        None
    } else if names.last().0 == name {
        Some(names.last().1)
    } else {
        named(names.drop_last(), name)
    }
}

/// The names other than `name`.
pub open spec fn without_name(names: Seq<(Seq<char>, u64)>, name: Seq<char>) -> Seq<
    (Seq<char>, u64),
>
    decreases names.len(),
{
    if names.len() == 0 {
        names
    } else if names.last().0 == name {
        without_name(names.drop_last(), name)
    } else {
        without_name(names.drop_last(), name).push(names.last())
    }
}

/// The group at position `i` and all groups below it, each before the groups
/// under it, siblings in order of their numbers.
pub open spec fn subtree(groups: Seq<GroupView>, i: int) -> Seq<u64>
    decreases groups.len() - i, 0int,
    when 0 <= i < groups.len()
{
    seq![groups[i].id] + below(groups, i, i + 1)
}

/// The subtrees of those children of the group at position `i` that stand at
/// position `k` or later.
pub open spec fn below(groups: Seq<GroupView>, i: int, k: int) -> Seq<u64>
    decreases groups.len() - k, 1int,
    when 0 <= k
{
    if k >= groups.len() {
        Seq::empty()
    } else if groups[k].parent == groups[i].id {
        subtree(groups, k) + below(groups, i, k + 1)
    } else {
        below(groups, i, k + 1)
    }
}

/// The groups below and including the one numbered `id`, in pre-order.
pub open spec fn preorder(groups: Seq<GroupView>, id: u64) -> Seq<u64> {
    match position(groups, id) {
        Some(i) => subtree(groups, i),
        None => Seq::empty(),
    }
}

/// The position of the nearest group at `level` or above on the way from
/// position `i` to the root; none if the way is broken.
pub open spec fn climb(groups: Seq<GroupView>, i: int, level: u32) -> Option<int>
    decreases i,
{
    if groups[i].level <= level {
        Some(i)
    } else {
        match position(groups, groups[i].parent) {
            Some(j) => if 0 <= j < i {
                climb(groups, j, level)
            } else {
                None
            },
            None => None,
        }
    }
}

/// A registry as contracts see it.
#[verifier::ext_equal]
pub struct RegistryView {
    /// The groups in order of their numbers.
    pub groups: Seq<GroupView>,
    /// What each name in use stands for.
    pub names: Seq<(Seq<char>, u64)>,
    /// The number of the next group.
    pub next: u64,
    pub nr_cpus: u32,
    pub max_cgroups: u32,
    pub allocated: u32,
}

impl RegistryView {
    /// The group numbered `id`.
    pub open spec fn get(self, id: u64) -> Option<GroupView> {
        match position(self.groups, id) {
            Some(i) => Some(self.groups[i]),
            None => None,
        }
    }

    /// The group called `name`.
    pub open spec fn get_by_name(self, name: Seq<char>) -> Option<GroupView> {
        match named(self.names, name) {
            Some(id) => self.get(id),
            None => None,
        }
    }

    /// The registry that holds the root alone.
    pub open spec fn initial(nr_cpus: u32, max_cgroups: u32) -> RegistryView {
        RegistryView {
            groups: seq![
                GroupView {
                    id: ROOT_CGID,
                    level: 0,
                    parent: 0,
                    cpuset: None,
                    name: Seq::empty(),
                },
            ],
            names: Seq::empty(),
            next: 2,
            nr_cpus,
            max_cgroups,
            allocated: 0,
        }
    }

    /// The registry after a group was created. An empty name is not recorded;
    /// a name already in use passes to the new group.
    pub open spec fn create(self, name: Seq<char>, parent: u64, cpuset: Option<Seq<CpuId>>) -> RegistryView {
        RegistryView {
            groups: self.groups.push(
                GroupView {
                    id: self.next,
                    level: (self.get(parent)->0.level + 1) as u32,
                    parent,
                    cpuset,
                    name,
                },
            ),
            names: if name.len() == 0 {
                self.names
            } else {
                without_name(self.names, name).push((name, self.next))
            },
            next: (self.next + 1) as u64,
            ..self
        }
    }

    /// The registry without the group called `name`. Groups below it stay.
    pub open spec fn destroy(self, name: Seq<char>) -> RegistryView {
        match named(self.names, name) {
            None => self,
            Some(id) => RegistryView {
                groups: match position(self.groups, id) {
                    Some(i) => self.groups.remove(i),
                    None => self.groups,
                },
                names: without_name(self.names, name),
                ..self
            },
        }
    }

    /// The registry after the group called `name` got another CPU set.
    pub open spec fn with_cpuset(self, name: Seq<char>, cpus: Seq<CpuId>) -> RegistryView {
        match named(self.names, name) {
            None => self,
            Some(id) => match position(self.groups, id) {
                Some(i) => RegistryView {
                    groups: self.groups.update(
                        i,
                        GroupView { cpuset: Some(cpus), ..self.groups[i] },
                    ),
                    ..self
                },
                None => self,
            },
        }
    }

    /// What holds of every registry: the root is there and first; numbers grow
    /// and are all below the next one; a group is numbered above its parent
    /// and stands one level below it; each name in use is recorded once, is
    /// not empty, and stands for a group other than the root, whose name it
    /// is.
    pub open spec fn wf(self) -> bool {
        &&& self.groups.len() > 0
        &&& self.groups[0].id == ROOT_CGID
        &&& self.groups[0].level == 0
        &&& self.groups[0].parent == 0
        &&& self.groups[0].name == Seq::<char>::empty()
        &&& self.next >= 2
        &&& forall|i: int| 0 <= i < self.groups.len() ==> (#[trigger] self.groups[i]).id < self.next
        &&& forall|i: int, j: int|
            0 <= i < j < self.groups.len() ==> (#[trigger] self.groups[i]).id < (
            #[trigger] self.groups[j]).id
        &&& forall|i: int|
            0 <= i < self.groups.len() ==> (#[trigger] self.groups[i]).parent < self.groups[i].id
        &&& forall|i: int, j: int|
            0 <= i < self.groups.len() && 0 <= j < self.groups.len() && (
            #[trigger] self.groups[i]).parent == (#[trigger] self.groups[j]).id
                ==> self.groups[i].level == self.groups[j].level + 1
        &&& forall|a: int, b: int|
            0 <= a < b < self.names.len() ==> (#[trigger] self.names[a]).0 != (
            #[trigger] self.names[b]).0 && self.names[a].1 != self.names[b].1
        &&& forall|a: int|
            0 <= a < self.names.len() ==> {
                &&& (#[trigger] self.names[a]).0.len() > 0
                &&& self.names[a].1 != ROOT_CGID
                &&& self.get(self.names[a].1) is Some
                &&& self.get(self.names[a].1)->0.name == self.names[a].0
            }
    }
}

/// A found position holds the number looked for; when none is found nothing
/// does.
pub proof fn lemma_position(groups: Seq<GroupView>, id: u64)
    ensures
        match position(groups, id) {
            Some(i) => 0 <= i < groups.len() && groups[i].id == id,
            None => forall|i: int| 0 <= i < groups.len() ==> (#[trigger] groups[i]).id != id,
        },
    decreases groups.len(),
{
    if groups.len() > 0 {
        lemma_position(groups.drop_last(), id);
        assert forall|i: int| 0 <= i < groups.len() && position(groups, id) is None implies (
        #[trigger] groups[i]).id != id by {
            if i < groups.len() - 1 {
                assert(groups.drop_last()[i] == groups[i]);
            }
        }
    }
}

/// Where numbers grow, the position of a number is where it stands.
pub proof fn lemma_position_of(groups: Seq<GroupView>, i: int)
    requires
        0 <= i < groups.len(),
        forall|a: int, b: int|
            0 <= a < b < groups.len() ==> (#[trigger] groups[a]).id < (#[trigger] groups[b]).id,
    ensures
        position(groups, groups[i].id) == Some(i),
{
    lemma_position(groups, groups[i].id);
    let j = position(groups, groups[i].id)->0;
    if j < i {
        assert(groups[j].id < groups[i].id);
    } else if i < j {
        assert(groups[i].id < groups[j].id);
    }
}

pub proof fn lemma_named(names: Seq<(Seq<char>, u64)>, name: Seq<char>)
    ensures
        match named(names, name) {
            Some(id) => exists|a: int| 0 <= a < names.len() && #[trigger] names[a] == (name, id),
            None => forall|a: int| 0 <= a < names.len() ==> (#[trigger] names[a]).0 != name,
        },
    decreases names.len(),
{
    if names.len() > 0 {
        lemma_named(names.drop_last(), name);
        if names.last().0 == name {
            assert(names[names.len() - 1] == (name, names.last().1));
        } else {
            match named(names.drop_last(), name) {
                Some(id) => {
                    let a = choose|a: int|
                        0 <= a < names.len() - 1 && #[trigger] names.drop_last()[a] == (name, id);
                    assert(names[a] == (name, id));
                },
                None => {
                    assert forall|a: int| 0 <= a < names.len() implies (#[trigger] names[a]).0
                        != name by {
                        if a < names.len() - 1 {
                            assert(names.drop_last()[a] == names[a]);
                        }
                    }
                },
            }
        }
    }
}

/// What is left keeps its order, and is all but `name`.
proof fn lemma_without_name(names: Seq<(Seq<char>, u64)>, name: Seq<char>)
    ensures
        without_name(names, name).len() <= names.len(),
        forall|a: int|
            0 <= a < without_name(names, name).len() ==> {
                &&& (#[trigger] without_name(names, name)[a]).0 != name
                &&& names.contains(without_name(names, name)[a])
            },
        (forall|a: int, b: int|
            0 <= a < b < names.len() ==> (#[trigger] names[a]).0 != (#[trigger] names[b]).0
                && names[a].1 != names[b].1) ==> (forall|a: int, b: int|
            0 <= a < b < without_name(names, name).len() ==> (
            #[trigger] without_name(names, name)[a]).0 != (
            #[trigger] without_name(names, name)[b]).0 && without_name(names, name)[a].1
                != without_name(names, name)[b].1),
    decreases names.len(),
{
    if names.len() > 0 {
        let rest = names.drop_last();
        lemma_without_name(rest, name);
        let kept = without_name(names, name);
        let kept_rest = without_name(rest, name);
        assert forall|a: int| 0 <= a < kept.len() implies (#[trigger] kept[a]).0 != name
            && names.contains(kept[a]) by {
            if a < kept_rest.len() {
                assert(kept[a] == kept_rest[a]);
                let b = choose|b: int| 0 <= b < rest.len() && rest[b] == kept_rest[a];
                assert(names[b] == kept[a]);
            } else {
                assert(names[names.len() - 1] == kept[a]);
            }
        }
        if forall|a: int, b: int|
            0 <= a < b < names.len() ==> (#[trigger] names[a]).0 != (#[trigger] names[b]).0
                && names[a].1 != names[b].1 {
            assert forall|a: int, b: int| 0 <= a < b < rest.len() implies (#[trigger] rest[a]).0
                != (#[trigger] rest[b]).0 && rest[a].1 != rest[b].1 by {
                assert(names[a] == rest[a] && names[b] == rest[b]);
            }
            assert forall|a: int, b: int| 0 <= a < b < kept.len() implies (#[trigger] kept[a]).0
                != (#[trigger] kept[b]).0 && kept[a].1 != kept[b].1 by {
                assert(kept[a] == kept_rest[a]);
                if b < kept_rest.len() {
                    assert(kept[b] == kept_rest[b]);
                } else {
                    let c = choose|c: int| 0 <= c < rest.len() && rest[c] == kept_rest[a];
                    assert(names[c] == kept[a] && names[names.len() - 1] == kept[b]);
                }
            }
        }
    }
}

/// Looking a number up finds the group that bears it.
proof fn lemma_get(r: RegistryView, i: int)
    requires
        r.wf(),
        0 <= i < r.groups.len(),
    ensures
        r.get(r.groups[i].id) == Some(r.groups[i]),
{
    lemma_position_of(r.groups, i);
}

proof fn lemma_create_wf(r: RegistryView, name: Seq<char>, parent: u64, cpuset: Option<Seq<CpuId>>)
    requires
        r.wf(),
        r.get(parent) is Some,
        r.get(parent)->0.level < u32::MAX,
        r.next < u64::MAX,
    ensures
        r.create(name, parent, cpuset).wf(),
        r.create(name, parent, cpuset).get(r.next) == Some(
            r.create(name, parent, cpuset).groups.last(),
        ),
        forall|id: u64|
            id != r.next ==> #[trigger] r.create(name, parent, cpuset).get(id) == r.get(id),
{
    let n = r.create(name, parent, cpuset);
    lemma_position(r.groups, parent);
    lemma_without_name(r.names, name);
    assert(n.groups.drop_last() =~= r.groups);
    assert forall|id: u64| id != r.next implies #[trigger] n.get(id) == r.get(id) by {
        lemma_position(r.groups, id);
    }
    let p = position(r.groups, parent)->0;
    assert forall|i: int, j: int|
        0 <= i < n.groups.len() && 0 <= j < n.groups.len() && (#[trigger] n.groups[i]).parent == (
        #[trigger] n.groups[j]).id implies n.groups[i].level == n.groups[j].level + 1 by {
        if i == r.groups.len() {
            if j < r.groups.len() {
                if j < p {
                    assert(r.groups[j].id < r.groups[p].id);
                } else if p < j {
                    assert(r.groups[p].id < r.groups[j].id);
                }
            }
        } else if j == r.groups.len() {
            assert(r.groups[i].parent < r.groups[i].id);
        }
    }
    assert forall|a: int| 0 <= a < n.names.len() implies {
        &&& (#[trigger] n.names[a]).0.len() > 0
        &&& n.names[a].1 != ROOT_CGID
        &&& n.get(n.names[a].1) is Some
        &&& n.get(n.names[a].1)->0.name == n.names[a].0
    } by {
        if n.names[a] != (name, r.next) {
            assert(r.names.contains(n.names[a]));
            let b = choose|b: int| 0 <= b < r.names.len() && r.names[b] == n.names[a];
            assert(r.get(r.names[b].1) is Some);
            lemma_position(r.groups, r.names[b].1);
        }
    }
    assert forall|a: int, b: int| 0 <= a < b < n.names.len() implies (#[trigger] n.names[a]).0 != (
    #[trigger] n.names[b]).0 && n.names[a].1 != n.names[b].1 by {
        if name.len() > 0 && b == n.names.len() - 1 {
            let kept = without_name(r.names, name);
            assert(n.names[a] == kept[a]);
            let c = choose|c: int| 0 <= c < r.names.len() && r.names[c] == kept[a];
            assert(r.get(r.names[c].1) is Some);
            lemma_position(r.groups, r.names[c].1);
        }
    }
}

/// Removing one group leaves every other where a lookup finds it.
proof fn lemma_remove_get(r: RegistryView, i: int, id: u64)
    requires
        r.wf(),
        0 <= i < r.groups.len(),
        id != r.groups[i].id,
    ensures
        ({
            let left = r.groups.remove(i);
            match position(left, id) {
                Some(j) => r.get(id) == Some(left[j]),
                None => r.get(id) is None,
            }
        }),
{
    let left = r.groups.remove(i);
    lemma_position(r.groups, id);
    lemma_position(left, id);
    match position(left, id) {
        Some(j) => {
            let k = if j < i {
                j
            } else {
                j + 1
            };
            assert(r.groups[k] == left[j]);
            lemma_position_of(r.groups, k);
        },
        None => {
            if r.get(id) is Some {
                let k = position(r.groups, id)->0;
                assert(left[if k < i {
                    k
                } else {
                    k - 1
                }] == r.groups[k]);
            }
        },
    }
}

proof fn lemma_destroy_wf(r: RegistryView, name: Seq<char>)
    requires
        r.wf(),
    ensures
        r.destroy(name).wf(),
        forall|id: u64|
            named(r.names, name) != Some(id) ==> #[trigger] r.destroy(name).get(id) == r.get(id),
        named(r.names, name) is Some ==> r.destroy(name).get(named(r.names, name)->0) is None,
{
    let n = r.destroy(name);
    lemma_named(r.names, name);
    lemma_without_name(r.names, name);
    if let Some(id) = named(r.names, name) {
        let a = choose|a: int| 0 <= a < r.names.len() && #[trigger] r.names[a] == (name, id);
        assert(r.get(r.names[a].1) is Some);
        lemma_position(r.groups, id);
        let i = position(r.groups, id)->0;
        assert(i != 0);
        assert forall|other: u64| other != id implies #[trigger] n.get(other) == r.get(other) by {
            lemma_remove_get(r, i, other);
        }
        lemma_position(n.groups, id);
        assert(n.get(id) is None) by {
            if n.get(id) is Some {
                let j = position(n.groups, id)->0;
                if j < i {
                    assert(r.groups[j].id < r.groups[i].id);
                } else {
                    assert(r.groups[i].id < r.groups[j + 1].id);
                }
            }
        }
        assert forall|x: int| 0 <= x < n.groups.len() implies #[trigger] n.groups[x] == r.groups[if x
            < i {
            x
        } else {
            x + 1
        }] by {}
        assert forall|b: int| 0 <= b < n.names.len() implies {
            &&& (#[trigger] n.names[b]).0.len() > 0
            &&& n.names[b].1 != ROOT_CGID
            &&& n.get(n.names[b].1) is Some
            &&& n.get(n.names[b].1)->0.name == n.names[b].0
        } by {
            let c = choose|c: int| 0 <= c < r.names.len() && r.names[c] == n.names[b];
            assert(c != a);
            if c < a {
                assert(r.names[c].1 != r.names[a].1);
            } else {
                assert(r.names[a].1 != r.names[c].1);
            }
            assert(r.get(r.names[c].1) is Some);
        }
    }
}

proof fn lemma_cpuset_wf(r: RegistryView, name: Seq<char>, cpus: Seq<CpuId>)
    requires
        r.wf(),
    ensures
        r.with_cpuset(name, cpus).wf(),
{
    let n = r.with_cpuset(name, cpus);
    if let Some(id) = named(r.names, name) {
        lemma_position(r.groups, id);
        if let Some(i) = position(r.groups, id) {
            assert forall|other: u64| position(n.groups, other) == position(r.groups, other) by {
                lemma_position(n.groups, other);
                lemma_position(r.groups, other);
                match position(n.groups, other) {
                    Some(j) => {
                        assert(r.groups[j].id == other);
                        lemma_position_of(r.groups, j);
                    },
                    None => {
                        if position(r.groups, other) is Some {
                            assert(n.groups[position(r.groups, other)->0].id == other);
                        }
                    },
                }
            }
            assert forall|a: int| 0 <= a < n.names.len() implies {
                &&& (#[trigger] n.names[a]).0.len() > 0
                &&& n.names[a].1 != ROOT_CGID
                &&& n.get(n.names[a].1) is Some
                &&& n.get(n.names[a].1)->0.name == n.names[a].0
            } by {
                assert(r.get(r.names[a].1) is Some);
                assert(position(n.groups, r.names[a].1) == position(r.groups, r.names[a].1));
                lemma_position(r.groups, r.names[a].1);
            }
        }
    }
}

/// Whether the way up from position `x` passes position `i`.
pub open spec fn descends(groups: Seq<GroupView>, x: int, i: int) -> bool
    decreases x,
{
    x == i || match position(groups, groups[x].parent) {
        Some(p) => 0 <= p < x && descends(groups, p, i),
        None => false,
    }
}

/// Numbers grow, and a group is numbered above its parent.
pub open spec fn ordered(groups: Seq<GroupView>) -> bool {
    &&& forall|i: int, j: int|
        0 <= i < j < groups.len() ==> (#[trigger] groups[i]).id < (#[trigger] groups[j]).id
    &&& forall|i: int| 0 <= i < groups.len() ==> (#[trigger] groups[i]).parent < groups[i].id
}

proof fn lemma_descends_order(groups: Seq<GroupView>, x: int, i: int)
    requires
        descends(groups, x, i),
        0 <= x,
    ensures
        i <= x,
    decreases x,
{
    if x != i {
        lemma_descends_order(groups, position(groups, groups[x].parent)->0, i);
    }
}

/// Two groups on one way up lie one above the other.
proof fn lemma_way_is_linear(groups: Seq<GroupView>, x: int, low: int, high: int)
    requires
        0 <= low < high,
        0 <= x,
        descends(groups, x, low),
        descends(groups, x, high),
    ensures
        descends(groups, high, low),
    decreases x,
{
    if x != high {
        lemma_descends_order(groups, x, high);
        lemma_way_is_linear(groups, position(groups, groups[x].parent)->0, low, high);
    }
}

/// Siblings have nothing below them in common.
proof fn lemma_siblings_apart(groups: Seq<GroupView>, x: int, i: int, a: int, b: int)
    requires
        ordered(groups),
        0 <= i < a < b < groups.len(),
        0 <= x,
        groups[a].parent == groups[i].id,
        groups[b].parent == groups[i].id,
        descends(groups, x, a),
    ensures
        !descends(groups, x, b),
{
    if descends(groups, x, b) {
        lemma_way_is_linear(groups, x, a, b);
        lemma_position_of(groups, i);
        lemma_descends_order(groups, i, a);
    }
}

/// A way up that passes a child passes its parent.
proof fn lemma_descends_parent(groups: Seq<GroupView>, x: int, k: int, i: int)
    requires
        ordered(groups),
        0 <= i < k < groups.len(),
        0 <= x < groups.len(),
        groups[k].parent == groups[i].id,
        descends(groups, x, k),
    ensures
        descends(groups, x, i),
    decreases x,
{
    lemma_position_of(groups, i);
    if x == k {
        assert(descends(groups, i, i));
    } else {
        let p = position(groups, groups[x].parent)->0;
        lemma_descends_parent(groups, p, k, i);
    }
}

/// What a subtree lists.
proof fn lemma_subtree(groups: Seq<GroupView>, i: int)
    requires
        ordered(groups),
        0 <= i < groups.len(),
    ensures
        subtree(groups, i).no_duplicates(),
        forall|id: u64| #[trigger]
            subtree(groups, i).contains(id) <==> exists|x: int|
                0 <= x < groups.len() && #[trigger] groups[x].id == id && descends(groups, x, i),
    decreases groups.len() - i, 0int,
{
    lemma_below(groups, i, i + 1);
    let rest = below(groups, i, i + 1);
    let all = subtree(groups, i);
    assert(all =~= seq![groups[i].id] + rest);
    assert forall|id: u64| #[trigger] all.contains(id) implies exists|x: int|
        0 <= x < groups.len() && #[trigger] groups[x].id == id && descends(groups, x, i) by {
        let a = choose|a: int| 0 <= a < all.len() && all[a] == id;
        if a == 0 {
            assert(groups[i].id == id && descends(groups, i, i));
        } else {
            assert(rest[a - 1] == id);
            assert(rest.contains(id));
            let (x, k) = choose|x: int, k: int|
                0 <= x < groups.len() && #[trigger] groups[x].id == id && i + 1 <= k < groups.len()
                    && groups[k].parent == groups[i].id && #[trigger] descends(groups, x, k);
            lemma_descends_parent(groups, x, k, i);
        }
    }
    assert forall|id: u64|
        (exists|x: int|
            0 <= x < groups.len() && #[trigger] groups[x].id == id && descends(
                groups,
                x,
                i,
            )) implies #[trigger] all.contains(id) by {
        let x = choose|x: int|
            0 <= x < groups.len() && #[trigger] groups[x].id == id && descends(groups, x, i);
        if x == i {
            assert(all[0] == id);
        } else {
            let k = lemma_child_on_way(groups, x, i);
            assert(descends(groups, x, k));
            assert(rest.contains(id));
            let a = choose|a: int| 0 <= a < rest.len() && rest[a] == id;
            assert(all[a + 1] == id);
        }
    }
    assert(!rest.contains(groups[i].id)) by {
        if rest.contains(groups[i].id) {
            let (x, k) = choose|x: int, k: int|
                0 <= x < groups.len() && #[trigger] groups[x].id == groups[i].id && i + 1 <= k
                    < groups.len() && groups[k].parent == groups[i].id && #[trigger] descends(
                    groups,
                    x,
                    k,
                );
            lemma_descends_order(groups, x, k);
            assert(groups[i].id < groups[x].id);
        }
    }
    assert forall|a: int, b: int| 0 <= a < b < all.len() implies all[a] != all[b] by {
        if a == 0 {
            assert(all[b] == rest[b - 1]);
            assert(rest.contains(rest[b - 1]));
        } else {
            assert(all[a] == rest[a - 1] && all[b] == rest[b - 1]);
        }
    }
}

/// The child of position `i` that the way up from `x` passes.
proof fn lemma_child_on_way(groups: Seq<GroupView>, x: int, i: int) -> (k: int)
    requires
        ordered(groups),
        0 <= i < groups.len(),
        0 <= x < groups.len(),
        x != i,
        descends(groups, x, i),
    ensures
        i < k < groups.len(),
        groups[k].parent == groups[i].id,
        descends(groups, x, k),
    decreases x,
{
    let p = position(groups, groups[x].parent)->0;
    lemma_position(groups, groups[x].parent);
    if p == i {
        x
    } else {
        lemma_child_on_way(groups, p, i)
    }
}

proof fn lemma_below(groups: Seq<GroupView>, i: int, k: int)
    requires
        ordered(groups),
        0 <= i < k,
        i < groups.len(),
    ensures
        below(groups, i, k).no_duplicates(),
        forall|id: u64| #[trigger]
            below(groups, i, k).contains(id) <==> exists|x: int, c: int|
                0 <= x < groups.len() && #[trigger] groups[x].id == id && k <= c < groups.len()
                    && groups[c].parent == groups[i].id && #[trigger] descends(groups, x, c),
    decreases groups.len() - k, 1int,
{
    let all = below(groups, i, k);
    if k < groups.len() {
        lemma_below(groups, i, k + 1);
        let later = below(groups, i, k + 1);
        if groups[k].parent == groups[i].id {
            lemma_subtree(groups, k);
            let here = subtree(groups, k);
            assert(all =~= here + later);
            assert forall|id: u64| #[trigger] all.contains(id) implies exists|x: int, c: int|
                0 <= x < groups.len() && #[trigger] groups[x].id == id && k <= c < groups.len()
                    && groups[c].parent == groups[i].id && #[trigger] descends(groups, x, c) by {
                let a = choose|a: int| 0 <= a < all.len() && all[a] == id;
                if a < here.len() {
                    assert(here[a] == id);
                    assert(here.contains(id));
                    let x = choose|x: int|
                        0 <= x < groups.len() && #[trigger] groups[x].id == id && descends(
                            groups,
                            x,
                            k,
                        );
                    assert(groups[x].id == id && descends(groups, x, k));
                } else {
                    assert(later[a - here.len()] == id);
                    assert(later.contains(id));
                }
            }
            assert forall|id: u64|
                (exists|x: int, c: int|
                    0 <= x < groups.len() && #[trigger] groups[x].id == id && k <= c < groups.len()
                        && groups[c].parent == groups[i].id && #[trigger] descends(
                        groups,
                        x,
                        c,
                    )) implies #[trigger] all.contains(id) by {
                let (x, c) = choose|x: int, c: int|
                    0 <= x < groups.len() && #[trigger] groups[x].id == id && k <= c < groups.len()
                        && groups[c].parent == groups[i].id && #[trigger] descends(groups, x, c);
                if c == k {
                    assert(here.contains(id));
                    let a = choose|a: int| 0 <= a < here.len() && here[a] == id;
                    assert(all[a] == id);
                } else {
                    assert(later.contains(id));
                    let a = choose|a: int| 0 <= a < later.len() && later[a] == id;
                    assert(all[here.len() + a] == id);
                }
            }
            assert forall|a: int, b: int| 0 <= a < b < all.len() implies all[a] != all[b] by {
                if a < here.len() && b >= here.len() {
                    assert(all[a] == here[a] && all[b] == later[b - here.len()]);
                    assert(here.contains(here[a]) && later.contains(later[b - here.len()]));
                    let x = choose|x: int|
                        0 <= x < groups.len() && #[trigger] groups[x].id == here[a] && descends(
                            groups,
                            x,
                            k,
                        );
                    let (y, c) = choose|y: int, c: int|
                        0 <= y < groups.len() && #[trigger] groups[y].id == later[b - here.len()]
                            && k + 1 <= c < groups.len() && groups[c].parent == groups[i].id
                            && #[trigger] descends(groups, y, c);
                    lemma_siblings_apart(groups, x, i, k, c);
                    assert(x != y);
                    if x < y {
                        assert(groups[x].id < groups[y].id);
                    } else {
                        assert(groups[y].id < groups[x].id);
                    }
                } else if b < here.len() {
                    assert(all[a] == here[a] && all[b] == here[b]);
                } else {
                    assert(all[a] == later[a - here.len()] && all[b] == later[b - here.len()]);
                }
            }
        }
    }
}

/// A walk of the hierarchy visits no group twice, and visits exactly the
/// groups whose way up reaches the group it starts from.
pub proof fn law_preorder_visits_each_descendant_once(r: RegistryView, root: u64)
    requires
        r.wf(),
    ensures
        preorder(r.groups, root).no_duplicates(),
        forall|id: u64| #[trigger]
            preorder(r.groups, root).contains(id) <==> position(r.groups, root) is Some && exists|
                x: int,
            |
                0 <= x < r.groups.len() && #[trigger] r.groups[x].id == id && descends(
                    r.groups,
                    x,
                    position(r.groups, root)->0,
                ),
{
    lemma_position(r.groups, root);
    if let Some(i) = position(r.groups, root) {
        lemma_subtree(r.groups, i);
    }
}

/// A walk of the hierarchy begins with the group it starts from, and that
/// group comes before everything under it.
pub proof fn law_preorder_starts_with_its_root(r: RegistryView, root: u64)
    requires
        r.wf(),
        r.get(root) is Some,
    ensures
        preorder(r.groups, root).len() > 0,
        preorder(r.groups, root)[0] == root,
{
    lemma_position(r.groups, root);
}

/// A created group is found under its number and, if it has a name, under its
/// name; no other number is affected.
pub proof fn law_created_group_is_found(
    r: RegistryView,
    name: Seq<char>,
    parent: u64,
    cpuset: Option<Seq<CpuId>>,
)
    requires
        r.wf(),
        r.get(parent) is Some,
        r.get(parent)->0.level < u32::MAX,
        r.next < u64::MAX,
    ensures
        r.get(r.next) is None,
        r.create(name, parent, cpuset).get(r.next) == Some(
            GroupView {
                id: r.next,
                level: (r.get(parent)->0.level + 1) as u32,
                parent,
                cpuset,
                name,
            },
        ),
        name.len() > 0 ==> r.create(name, parent, cpuset).get_by_name(name) == r.create(
            name,
            parent,
            cpuset,
        ).get(r.next),
        forall|id: u64|
            id != r.next ==> #[trigger] r.create(name, parent, cpuset).get(id) == r.get(id),
{
    lemma_create_wf(r, name, parent, cpuset);
    lemma_position(r.groups, r.next);
}

/// A destroyed group is found neither by name nor by number; every other
/// group, those under it included, is found as before.
pub proof fn law_destroyed_group_is_gone(r: RegistryView, name: Seq<char>)
    requires
        r.wf(),
    ensures
        r.destroy(name).get_by_name(name) is None,
        forall|id: u64|
            named(r.names, name) != Some(id) ==> #[trigger] r.destroy(name).get(id) == r.get(id),
        named(r.names, name) is Some ==> r.destroy(name).get(named(r.names, name)->0) is None,
        r.get_by_name(name) is Some ==> r.destroy(name).groups.len() == r.groups.len() - 1,
{
    lemma_destroy_wf(r, name);
    lemma_without_name(r.names, name);
    lemma_named(r.names, name);
    lemma_named(r.destroy(name).names, name);
    if let Some(id) = named(r.names, name) {
        lemma_position(r.groups, id);
    }
}

/// Names other than that of a destroyed group, or of one that is created, stand for the
/// groups they stood for.
pub proof fn law_other_names_stand_for_the_same(
    r: RegistryView,
    name: Seq<char>,
    other: Seq<char>,
    parent: u64,
    cpuset: Option<Seq<CpuId>>,
)
    requires
        r.wf(),
        other != name,
    ensures
        r.destroy(name).get_by_name(other) == r.get_by_name(other),
        r.get(parent) is Some && r.get(parent)->0.level < u32::MAX && r.next < u64::MAX
            ==> r.create(name, parent, cpuset).get_by_name(other) == r.get_by_name(other),
{
    lemma_other_name(r.names, name, other);
    lemma_named(r.names, name);
    lemma_named(r.names, other);
    law_destroyed_group_is_gone(r, name);
    if r.get(parent) is Some && r.get(parent)->0.level < u32::MAX && r.next < u64::MAX {
        law_created_group_is_found(r, name, parent, cpuset);
        let after = r.create(name, parent, cpuset);
        if name.len() > 0 {
            assert(after.names.drop_last() =~= without_name(r.names, name));
        }
        assert(named(after.names, other) == named(r.names, other));
    }
}

proof fn lemma_other_name(names: Seq<(Seq<char>, u64)>, name: Seq<char>, other: Seq<char>)
    requires
        other != name,
    ensures
        named(without_name(names, name), other) == named(names, other),
    decreases names.len(),
{
    if names.len() > 0 {
        lemma_other_name(names.drop_last(), name, other);
        if names.last().0 != name {
            let rest = without_name(names.drop_last(), name);
            assert(rest.push(names.last()).drop_last() =~= rest);
        }
    }
}

/// The control groups of a simulation.
pub struct CgroupRegistry {
    /// In order of their numbers.
    cgroups: Vec<CgroupInfo>,
    /// What each name in use stands for.
    name_to_id: Vec<(String, CgroupId)>,
    next_cgid: u64,
    nr_cpus: u32,
    /// How many groups may have an entry in the scheduler's map.
    max_cgroups: u32,
    /// How many groups have an entry there.
    allocated_bpf_entries: u32,
}

impl View for CgroupRegistry {
    type V = RegistryView;

    closed spec fn view(&self) -> RegistryView {
        RegistryView {
            groups: self.cgroups@.map_values(|g: CgroupInfo| g@),
            names: self.name_to_id@.map_values(|e: (String, CgroupId)| (e.0@, e.1.0)),
            next: self.next_cgid,
            nr_cpus: self.nr_cpus,
            max_cgroups: self.max_cgroups,
            allocated: self.allocated_bpf_entries,
        }
    }
}

impl CgroupRegistry {
    /// A registry that holds the root group only.
    pub fn new(nr_cpus: u32, max_cgroups: u32) -> (r: CgroupRegistry)
        ensures
            r@ == RegistryView::initial(nr_cpus, max_cgroups),
            r@.wf(),
    {
        let root = CgroupInfo {
            cgid: CgroupId::root(),
            level: 0,
            parent_cgid: CgroupId(0),
            cpuset: None,
            name: String::new(),
        };
        let mut cgroups: Vec<CgroupInfo> = Vec::new();
        cgroups.push(root);
        let r = CgroupRegistry {
            cgroups,
            name_to_id: Vec::new(),
            next_cgid: 2,
            nr_cpus,
            max_cgroups,
            allocated_bpf_entries: 0,
        };
        proof {
            reveal_strlit("");
            assert(root.name@ =~= Seq::empty());
            assert(r@.groups =~= RegistryView::initial(nr_cpus, max_cgroups).groups);
            assert(r@.names =~= Seq::empty());
        }
        r
    }

    /// Takes an entry of the scheduler's map; fails with `ENOMEM` when the
    /// map is full.
    pub fn try_allocate_bpf_entry(&mut self) -> (r: Result<(), i32>)
        ensures
            old(self)@.allocated >= old(self)@.max_cgroups ==> r == Err::<(), i32>((-ENOMEM) as i32)
                && final(self)@ == old(self)@,
            old(self)@.allocated < old(self)@.max_cgroups ==> r is Ok && final(self)@ == (
            RegistryView { allocated: (old(self)@.allocated + 1) as u32, ..old(self)@ }),
    {
        if self.allocated_bpf_entries >= self.max_cgroups {
            return Err(-ENOMEM);
        }
        self.allocated_bpf_entries = self.allocated_bpf_entries + 1;
        Ok(())
    }

    /// Gives an entry back; does nothing when none is in use.
    pub fn free_bpf_entry(&mut self)
        ensures
            final(self)@ == (RegistryView {
                allocated: if old(self)@.allocated == 0 {
                    0
                } else {
                    (old(self)@.allocated - 1) as u32
                },
                ..old(self)@
            }),
    {
        self.allocated_bpf_entries = self.allocated_bpf_entries.saturating_sub(1);
    }

    /// How many entries are in use.
    pub fn allocated_bpf_entries(&self) -> (r: u32)
        ensures
            r == self@.allocated,
    {
        self.allocated_bpf_entries
    }

    /// The limit on entries.
    pub fn max_cgroups(&self) -> (r: u32)
        ensures
            r == self@.max_cgroups,
    {
        self.max_cgroups
    }

    /// Changes the limit on entries.
    pub fn set_max_cgroups(&mut self, max: u32)
        ensures
            final(self)@ == (RegistryView { max_cgroups: max, ..old(self)@ }),
    {
        self.max_cgroups = max;
    }

    /// Where a group stands in the list.
    fn find(&self, id: u64) -> (r: Option<usize>)
        ensures
            match r {
                Some(i) => position(self@.groups, id) == Some(i as int),
                None => position(self@.groups, id) is None,
            },
            r is Some ==> r->0 < self.cgroups@.len(),
    {
        let mut i: usize = self.cgroups.len();
        proof {
            assert(self@.groups.take(i as int) =~= self@.groups);
        }
        while i > 0
            invariant
                i <= self.cgroups@.len(),
                self@.groups.len() == self.cgroups@.len(),
                position(self@.groups, id) == position(self@.groups.take(i as int), id),
            decreases i,
        {
            proof {
                assert(self@.groups.take(i as int).drop_last() =~= self@.groups.take(i - 1));
                assert(self@.groups[i - 1] == self.cgroups@[i - 1]@);
            }
            if self.cgroups[i - 1].cgid.0 == id {
                return Some(i - 1);
            }
            i = i - 1;
        }
        None
    }

    /// What a name stands for.
    fn find_name(&self, name: &str) -> (r: Option<u64>)
        ensures
            r == named(self@.names, name@),
    {
        let mut i: usize = self.name_to_id.len();
        proof {
            assert(self@.names.take(i as int) =~= self@.names);
        }
        while i > 0
            invariant
                i <= self.name_to_id@.len(),
                self@.names.len() == self.name_to_id@.len(),
                named(self@.names, name@) == named(self@.names.take(i as int), name@),
            decreases i,
        {
            proof {
                assert(self@.names.take(i as int).drop_last() =~= self@.names.take(i - 1));
                assert(self@.names[i - 1] == (
                    self.name_to_id@[i - 1].0@,
                    self.name_to_id@[i - 1].1.0,
                ));
            }
            if same_text(self.name_to_id[i - 1].0.as_str(), name) {
                return Some(self.name_to_id[i - 1].1.0);
            }
            i = i - 1;
        }
        None
    }

    /// Forgets a name.
    fn drop_name(&mut self, name: &str)
        ensures
            final(self)@ == (RegistryView { names: without_name(old(self)@.names, name@), ..old(self)@ }),
            final(self).cgroups == old(self).cgroups,
            final(self).next_cgid == old(self).next_cgid,
    {
        let mut kept: Vec<(String, CgroupId)> = Vec::new();
        let mut i: usize = 0;
        let ghost names = self@.names;
        let ghost view = |e: (String, CgroupId)| (e.0@, e.1.0);
        proof {
            assert(names.take(0) =~= Seq::empty());
            assert(kept@.map_values(view) =~= Seq::empty());
        }
        while i < self.name_to_id.len()
            invariant
                *self == *old(self),
                names == self@.names,
                names.len() == self.name_to_id@.len(),
                view == |e: (String, CgroupId)| (e.0@, e.1.0),
                i <= self.name_to_id@.len(),
                kept@.map_values(view) == without_name(names.take(i as int), name@),
            decreases self.name_to_id@.len() - i,
        {
            proof {
                assert(names.take(i + 1).drop_last() =~= names.take(i as int));
                assert(names[i as int] == (self.name_to_id@[i as int].0@, self.name_to_id@[i as int].1.0));
            }
            if !same_text(self.name_to_id[i].0.as_str(), name) {
                let ghost before = kept@;
                let entry = (self.name_to_id[i].0.clone(), self.name_to_id[i].1);
                kept.push(entry);
                proof {
                    assert(kept@.map_values(view) =~= before.map_values(view).push(
                        (self.name_to_id@[i as int].0@, self.name_to_id@[i as int].1.0),
                    ));
                }
            }
            i = i + 1;
        }
        proof {
            assert(names.take(names.len() as int) =~= names);
        }
        self.name_to_id = kept;
        proof {
            assert(self@.names =~= without_name(names, name@));
        }
    }

    /// The group numbered `cgid`.
    pub fn get(&self, cgid: CgroupId) -> (r: Option<&CgroupInfo>)
        ensures
            match r {
                Some(info) => self@.get(cgid.0) == Some(info@),
                None => self@.get(cgid.0) is None,
            },
    {
        match self.find(cgid.0) {
            Some(i) => {
                proof {
                    assert(self@.groups[i as int] == self.cgroups@[i as int]@);
                }
                Some(&self.cgroups[i])
            },
            None => None,
        }
    }

    /// The group called `name`.
    pub fn get_by_name(&self, name: &str) -> (r: Option<&CgroupInfo>)
        ensures
            match r {
                Some(info) => self@.get_by_name(name@) == Some(info@),
                None => self@.get_by_name(name@) is None,
            },
    {
        match self.find_name(name) {
            Some(id) => self.get(CgroupId(id)),
            None => None,
        }
    }

    /// Creates a group under an existing one and returns its number.
    pub fn create(&mut self, name: &str, parent_cgid: CgroupId, cpuset: Option<Vec<CpuId>>) -> (r:
        CgroupId)
        requires
            old(self)@.wf(),
            old(self)@.get(parent_cgid.0) is Some,
            old(self)@.get(parent_cgid.0)->0.level < u32::MAX,
            old(self)@.next < u64::MAX,
        ensures
            r.0 == old(self)@.next,
            final(self)@ == old(self)@.create(name@, parent_cgid.0, cpuset_view(cpuset)),
            final(self)@.wf(),
    {
        proof {
            lemma_create_wf(self@, name@, parent_cgid.0, cpuset_view(cpuset));
            lemma_position(self@.groups, parent_cgid.0);
        }
        let level: u32 = match self.get(parent_cgid) {
            Some(parent) => parent.level + 1,
            None => 0,
        };
        let cgid = CgroupId(self.next_cgid);
        self.next_cgid = self.next_cgid + 1;
        let ghost groups = self@.groups;
        let ghost info_view = GroupView {
            id: cgid.0,
            level,
            parent: parent_cgid.0,
            cpuset: cpuset_view(cpuset),
            name: name@,
        };
        let info = CgroupInfo { cgid, level, parent_cgid, cpuset, name: name.to_owned() };
        self.cgroups.push(info);
        proof {
            assert(self@.groups =~= groups.push(info_view));
        }
        if name.unicode_len() > 0 {
            self.drop_name(name);
            let ghost names = self@.names;
            self.name_to_id.push((name.to_owned(), cgid));
            proof {
                assert(self@.names =~= names.push((name@, cgid.0)));
            }
        }
        proof {
            assert(self@ =~= old(self)@.create(name@, parent_cgid.0, cpuset_view(cpuset)));
        }
        cgid
    }

    /// Creates a group under the root whose name is made of its number.
    pub fn create_under_root(&mut self, cpuset: Option<Vec<CpuId>>) -> (r: CgroupId)
        requires
            old(self)@.wf(),
            old(self)@.next < u64::MAX,
        ensures
            r.0 == old(self)@.next,
            final(self)@ == old(self)@.create(
                "cgroup_"@ + decimal(old(self)@.next as nat),
                ROOT_CGID,
                cpuset_view(cpuset),
            ),
            final(self)@.wf(),
    {
        proof {
            lemma_get(self@, 0);
        }
        let mut name = "cgroup_".to_owned();
        let number = dec(self.next_cgid);
        name.append(number.as_str());
        self.create(name.as_str(), CgroupId::root(), cpuset)
    }

    /// The ancestor of a group at a given level, or the group itself at its
    /// own level. None if the group does not exist, stands above that level,
    /// or the way up is broken by a destroyed group.
    pub fn ancestor(&self, cgid: CgroupId, level: u32) -> (r: Option<&CgroupInfo>)
        requires
            self@.wf(),
        ensures
            match position(self@.groups, cgid.0) {
                Some(i) => if level > self@.groups[i].level {
                    r is None
                } else {
                    match climb(self@.groups, i, level) {
                        Some(j) => r is Some && r->0@ == self@.groups[j] && r->0.level == level,
                        None => r is None,
                    }
                },
                None => r is None,
            },
    {
        let mut current: usize = match self.find(cgid.0) {
            Some(i) => i,
            None => {
                return None;
            },
        };
        proof {
            lemma_position(self@.groups, cgid.0);
            assert(self@.groups[current as int] == self.cgroups@[current as int]@);
        }
        if level > self.cgroups[current].level {
            return None;
        }
        let ghost start = current as int;
        while self.cgroups[current].level > level
            invariant
                current < self.cgroups@.len(),
                self@.groups.len() == self.cgroups@.len(),
                self@.wf(),
                self@.groups[current as int] == self.cgroups@[current as int]@,
                self.cgroups@[current as int].level >= level,
                climb(self@.groups, start, level) == climb(self@.groups, current as int, level),
                start == position(self@.groups, cgid.0)->0,
                position(self@.groups, cgid.0) is Some,
                level <= self@.groups[start].level,
            decreases current,
        {
            let parent = self.cgroups[current].parent_cgid.0;
            match self.find(parent) {
                Some(j) => {
                    proof {
                        lemma_position(self@.groups, parent);
                        assert(self@.groups[j as int] == self.cgroups@[j as int]@);
                        if current <= j {
                            assert(current < j ==> self@.groups[current as int].id
                                < self@.groups[j as int].id);
                        }
                    }
                    current = j;
                },
                None => {
                    return None;
                },
            }
        }
        Some(&self.cgroups[current])
    }

    /// Appends the subtree of the group at position `i` to `out`.
    fn walk(&self, i: usize, out: &mut Vec<usize>)
        requires
            i < self.cgroups@.len(),
            forall|a: int| 0 <= a < old(out)@.len() ==> (#[trigger] old(out)@[a]) < self.cgroups@.len(),
        ensures
            forall|a: int| 0 <= a < final(out)@.len() ==> (#[trigger] final(out)@[a])
                < self.cgroups@.len(),
            self.ids(final(out)@) == self.ids(old(out)@) + subtree(self@.groups, i as int),
        decreases self.cgroups@.len() - i,
    {
        let ghost groups = self@.groups;
        let ghost before = out@;
        out.push(i);
        proof {
            assert(self.ids(out@) =~= self.ids(before).push(groups[i as int].id)) by {
                assert(groups[i as int] == self.cgroups@[i as int]@);
            }
        }
        let n = self.cgroups.len();
        let mut k: usize = i + 1;
        while k < n
            invariant
                i < k <= n,
                n == self.cgroups@.len(),
                groups == self@.groups,
                groups.len() == self.cgroups@.len(),
                forall|a: int| 0 <= a < out@.len() ==> (#[trigger] out@[a]) < self.cgroups@.len(),
                self.ids(out@) + below(groups, i as int, k as int) == self.ids(before)
                    + subtree(groups, i as int),
            decreases self.cgroups@.len() - k,
        {
            proof {
                assert(groups[k as int] == self.cgroups@[k as int]@);
                assert(groups[i as int] == self.cgroups@[i as int]@);
            }
            if self.cgroups[k].parent_cgid.0 == self.cgroups[i].cgid.0 {
                let ghost so_far = self.ids(out@);
                self.walk(k, out);
                proof {
                    assert(so_far + (subtree(groups, k as int) + below(groups, i as int, k + 1))
                        =~= self.ids(out@) + below(groups, i as int, k + 1));
                }
            }
            k = k + 1;
        }
        proof {
            assert(self.ids(out@) + below(groups, i as int, k as int) =~= self.ids(out@));
        }
    }

    /// The numbers of the groups at some positions.
    closed spec fn ids(&self, at: Seq<usize>) -> Seq<u64> {
        at.map_values(|i: usize| self@.groups[i as int].id)
    }

    /// The groups below and including `root_cgid`, each before the groups
    /// under it, siblings in order of their numbers.
    pub fn iter_descendants(&self, root_cgid: CgroupId) -> (r: Vec<&CgroupInfo>)
        ensures
            r@.map_values(|g: &CgroupInfo| g.cgid.0) == preorder(self@.groups, root_cgid.0),
            forall|a: int| 0 <= a < r@.len() ==> self@.groups.contains((#[trigger] r@[a])@),
    {
        let mut at: Vec<usize> = Vec::new();
        match self.find(root_cgid.0) {
            Some(i) => {
                self.walk(i, &mut at);
                proof {
                    assert(self.ids(Seq::<usize>::empty()) + subtree(self@.groups, i as int)
                        =~= subtree(self@.groups, i as int));
                }
            },
            None => {
                proof {
                    assert(self.ids(at@) =~= Seq::empty());
                }
            },
        }
        let ghost wanted = preorder(self@.groups, root_cgid.0);
        let mut r: Vec<&CgroupInfo> = Vec::new();
        let mut k: usize = 0;
        while k < at.len()
            invariant
                k <= at@.len(),
                r@.len() == k,
                self@.groups.len() == self.cgroups@.len(),
                forall|a: int| 0 <= a < at@.len() ==> (#[trigger] at@[a]) < self.cgroups@.len(),
                self.ids(at@) == wanted,
                forall|a: int|
                    0 <= a < k ==> (#[trigger] r@[a])@ == self@.groups[at@[a] as int],
            decreases at@.len() - k,
        {
            proof {
                assert(self@.groups[at@[k as int] as int] == self.cgroups@[at@[k as int] as int]@);
            }
            r.push(&self.cgroups[at[k]]);
            k = k + 1;
        }
        proof {
            let shown = r@.map_values(|g: &CgroupInfo| g.cgid.0);
            assert forall|a: int| 0 <= a < shown.len() implies #[trigger] shown[a] == wanted[a] by {
                assert(r@[a]@ == self@.groups[at@[a] as int]);
                assert(self.ids(at@)[a] == self@.groups[at@[a] as int].id);
            }
            assert(shown =~= wanted);
        }
        r
    }

    /// The numbers of all groups that the root reaches, in pre-order.
    pub fn all_cgids_preorder(&self) -> (r: Vec<CgroupId>)
        ensures
            r@.map_values(|c: CgroupId| c.0) == preorder(self@.groups, ROOT_CGID),
    {
        match self.prepare_css_iter(CgroupId::root()) {
            Some(ids) => ids,
            None => {
                let r: Vec<CgroupId> = Vec::new();
                proof {
                    assert(r@.map_values(|c: CgroupId| c.0) =~= Seq::empty());
                }
                r
            },
        }
    }

    /// How many groups there are.
    pub fn len(&self) -> (r: usize)
        ensures
            r == self@.groups.len(),
    {
        self.cgroups.len()
    }

    /// Whether another group can be numbered.
    pub fn has_numbers(&self) -> (r: bool)
        ensures
            r == (self@.next < u64::MAX),
    {
        self.next_cgid < u64::MAX
    }

    /// Whether there is no group at all, not even the root.
    pub fn is_empty(&self) -> (r: bool)
        ensures
            r == (self@.groups.len() == 0),
            self@.wf() ==> !r,
    {
        self.cgroups.len() == 0
    }

    /// Gives the group called `name` another CPU set. False if there is no
    /// such group.
    pub fn update_cpuset(&mut self, name: &str, new_cpuset: Vec<CpuId>) -> (r: bool)
        requires
            old(self)@.wf(),
        ensures
            r == (old(self)@.get_by_name(name@) is Some),
            final(self)@ == old(self)@.with_cpuset(name@, new_cpuset@),
            final(self)@.wf(),
    {
        proof {
            lemma_cpuset_wf(self@, name@, new_cpuset@);
        }
        let id = match self.find_name(name) {
            Some(id) => id,
            None => {
                return false;
            },
        };
        match self.find(id) {
            Some(i) => {
                let ghost groups = self@.groups;
                let ghost before = self.cgroups@[i as int];
                self.cgroups[i].cpuset = Some(new_cpuset);
                proof {
                    assert(groups[i as int] == before@);
                    assert(self@.groups =~= groups.update(
                        i as int,
                        GroupView { cpuset: Some(new_cpuset@), ..groups[i as int] },
                    ));
                    assert(self@ =~= old(self)@.with_cpuset(name@, new_cpuset@));
                }
                true
            },
            None => false,
        }
    }

    /// Removes the group called `name` and returns its number; none if there
    /// is no such group. The groups below it stay, without a way to the root.
    pub fn destroy_by_name(&mut self, name: &str) -> (r: Option<CgroupId>)
        requires
            old(self)@.wf(),
        ensures
            match r {
                Some(cgid) => named(old(self)@.names, name@) == Some(cgid.0) && cgid.0 != ROOT_CGID,
                None => named(old(self)@.names, name@) is None,
            },
            final(self)@ == old(self)@.destroy(name@),
            final(self)@.wf(),
    {
        proof {
            lemma_destroy_wf(self@, name@);
            lemma_named(self@.names, name@);
        }
        let id = match self.find_name(name) {
            Some(id) => id,
            None => {
                return None;
            },
        };
        self.drop_name(name);
        if let Some(i) = self.find(id) {
            let ghost groups = self@.groups;
            let removed = self.cgroups.remove(i);
            proof {
                assert(self@.groups =~= groups.remove(i as int));
            }
        }
        proof {
            assert(self@ =~= old(self)@.destroy(name@));
        }
        Some(CgroupId(id))
    }

    /// The groups that an iteration from `root_cgid` visits, in order; none if
    /// that group does not exist.
    pub fn prepare_css_iter(&self, root_cgid: CgroupId) -> (r: Option<Vec<CgroupId>>)
        ensures
            match r {
                Some(ids) => self@.get(root_cgid.0) is Some && ids@.map_values(|c: CgroupId| c.0)
                    == preorder(self@.groups, root_cgid.0),
                None => self@.get(root_cgid.0) is None,
            },
    {
        if self.find(root_cgid.0).is_none() {
            return None;
        }
        let groups = self.iter_descendants(root_cgid);
        let ghost shown = groups@.map_values(|g: &CgroupInfo| g.cgid.0);
        let mut r: Vec<CgroupId> = Vec::new();
        let mut k: usize = 0;
        while k < groups.len()
            invariant
                k <= groups@.len(),
                r@.len() == k,
                forall|a: int| 0 <= a < k ==> (#[trigger] r@[a]) == groups@[a].cgid,
            decreases groups@.len() - k,
        {
            r.push(groups[k].cgid);
            k = k + 1;
        }
        proof {
            let ids = r@.map_values(|c: CgroupId| c.0);
            assert forall|a: int| 0 <= a < ids.len() implies #[trigger] ids[a] == shown[a] by {
                assert(r@[a] == groups@[a].cgid);
            }
            assert(ids =~= shown);
        }
        Some(r)
    }

    /// The groups that an iteration from the root visits, in order.
    pub fn prepare_css_iter_from_root(&self) -> (r: Option<Vec<CgroupId>>)
        ensures
            match r {
                Some(ids) => self@.get(ROOT_CGID) is Some && ids@.map_values(|c: CgroupId| c.0)
                    == preorder(self@.groups, ROOT_CGID),
                None => self@.get(ROOT_CGID) is None,
            },
    {
        self.prepare_css_iter(CgroupId::root())
    }
}

/// The ancestor of a group at a level stands at that level, on the group's way up, unless
/// the way is broken; at its own level it is the group itself.
pub proof fn law_ancestors_stand_at_their_level(r: RegistryView, i: int, level: u32)
    requires
        r.wf(),
        0 <= i < r.groups.len(),
        level <= r.groups[i].level,
    ensures
        climb(r.groups, i, level) is Some ==> {
            let j = climb(r.groups, i, level)->0;
            &&& 0 <= j <= i
            &&& r.groups[j].level == level
            &&& descends(r.groups, i, j)
        },
        level == r.groups[i].level ==> climb(r.groups, i, level) == Some(i),
        level < r.groups[i].level && r.get(r.groups[i].parent) is None ==> climb(
            r.groups,
            i,
            level,
        ) is None,
    decreases i,
{
    if r.groups[i].level > level {
        lemma_position(r.groups, r.groups[i].parent);
        match position(r.groups, r.groups[i].parent) {
            Some(p) => {
                if p < i {
                    law_ancestors_stand_at_their_level(r, p, level);
                }
            },
            None => {},
        }
    }
}

/// A new registry holds the root alone, at the top, on all CPUs and without a name; numbers
/// go on from there.
pub proof fn law_the_root_is_there_first(nr_cpus: u32, max_cgroups: u32)
    ensures
        ({
            let r = RegistryView::initial(nr_cpus, max_cgroups);
            &&& r.groups.len() == 1 && r.groups[0].id == 1 && r.groups[0].level == 0
            &&& r.groups[0].parent == 0 && r.groups[0].cpuset is None && r.groups[0].name.len() == 0
            &&& r.get(1) == Some(r.groups[0])
            &&& r.names.len() == 0 && r.next == 2 && r.allocated == 0
            &&& r.nr_cpus == nr_cpus && r.max_cgroups == max_cgroups
        }),
{
}

/// A group that gets another CPU set is found as before, with that set; every other group
/// is found as it was.
pub proof fn law_a_cpuset_is_changed_for_one_group(
    r: RegistryView,
    name: Seq<char>,
    cpus: Seq<CpuId>,
    id: u64,
)
    requires
        r.wf(),
    ensures
        ({
            let after = r.with_cpuset(name, cpus);
            &&& named(r.names, name) is None ==> after == r
            &&& named(r.names, name) == Some(id) && r.get(id) is Some ==> after.get(id) == Some(
                GroupView { cpuset: Some(cpus), ..r.get(id)->0 },
            )
            &&& named(r.names, name) != Some(id) ==> after.get(id) == r.get(id)
            &&& after.names == r.names && after.next == r.next
        }),
{
    if let Some(own) = named(r.names, name) {
        lemma_position(r.groups, own);
        if let Some(i) = position(r.groups, own) {
            let after = r.with_cpuset(name, cpus);
            lemma_same_positions(r.groups, after.groups, id);
            lemma_position(r.groups, id);
        }
    }
}

proof fn lemma_same_positions(a: Seq<GroupView>, b: Seq<GroupView>, id: u64)
    requires
        a.len() == b.len(),
        forall|i: int| 0 <= i < a.len() ==> (#[trigger] a[i]).id == b[i].id,
    ensures
        position(a, id) == position(b, id),
    decreases a.len(),
{
    if a.len() > 0 {
        let (x, y) = (a.drop_last(), b.drop_last());
        assert forall|i: int| 0 <= i < x.len() implies (#[trigger] x[i]).id == y[i].id by {
            assert(a[i].id == b[i].id);
        }
        lemma_same_positions(x, y, id);
        assert(a[a.len() - 1].id == b[b.len() - 1].id);
    }
}

/// What a lack of room is reported as, how many groups there may be where nothing is said,
/// and what of a group contracts see.
pub proof fn law_groups_are_seen_as_they_are(g: CgroupInfo)
    ensures
        ENOMEM == 12,
        DEFAULT_MAX_CGROUPS == 10_000,
        ROOT_CGID == 1,
        g@.id == g.cgid.0 && g@.level == g.level && g@.parent == g.parent_cgid.0 && g@.name
            == g.name@,
        g.cpuset is None <==> g@.cpuset is None,
        g.cpuset is Some ==> g@.cpuset == Some((g.cpuset->0)@),
{
}

/// The group above another, by their numbers.
pub open spec fn above(groups: Seq<GroupView>, id: u64) -> u64 {
    groups[position(groups, id)->0].parent
}

/// Whether every group of a walk comes after the one above it, which is in the walk or is
/// the one given.
pub open spec fn led_by(groups: Seq<GroupView>, s: Seq<u64>, top: u64) -> bool {
    forall|a: int|
        0 <= a < s.len() ==> above(groups, #[trigger] s[a]) == top || exists|b: int|
            0 <= b < a && #[trigger] s[b] == above(groups, s[a])
}

/// In a walk of the hierarchy every group comes after the one above it.
pub proof fn law_groups_come_after_the_one_above(r: RegistryView, root: u64, a: int)
    requires
        r.wf(),
        0 < a < preorder(r.groups, root).len(),
    ensures
        exists|b: int|
            0 <= b < a && #[trigger] preorder(r.groups, root)[b] == above(
                r.groups,
                preorder(r.groups, root)[a],
            ),
{
    lemma_position(r.groups, root);
    let i = position(r.groups, root)->0;
    lemma_subtree_led(r.groups, i);
    let s = subtree(r.groups, i);
    let rest = below(r.groups, i, i + 1);
    assert(s[a] == rest[a - 1]);
    assert(s[0] == r.groups[i].id);
    if above(r.groups, rest[a - 1]) == r.groups[i].id {
        assert(s[0] == above(r.groups, s[a]));
    } else {
        let b = choose|b: int| 0 <= b < a - 1 && #[trigger] rest[b] == above(r.groups, rest[a - 1]);
        assert(s[b + 1] == above(r.groups, s[a]));
    }
}

proof fn lemma_subtree_led(groups: Seq<GroupView>, i: int)
    requires
        ordered(groups),
        0 <= i < groups.len(),
    ensures
        led_by(groups, below(groups, i, i + 1), groups[i].id),
    decreases groups.len() - i, 0int,
{
    lemma_below_led(groups, i, i + 1);
}

proof fn lemma_below_led(groups: Seq<GroupView>, i: int, k: int)
    requires
        ordered(groups),
        0 <= i < k <= groups.len(),
    ensures
        led_by(groups, below(groups, i, k), groups[i].id),
    decreases groups.len() - k, 1int,
{
    if k < groups.len() {
        lemma_below_led(groups, i, k + 1);
        if groups[k].parent == groups[i].id {
            lemma_subtree_led(groups, k);
            lemma_position_of(groups, k);
            let first = subtree(groups, k);
            let inner = below(groups, k, k + 1);
            let rest = below(groups, i, k + 1);
            let all = below(groups, i, k);
            let n = first.len() as int;
            assert(all == first + rest);
            assert forall|a: int| 0 <= a < all.len() implies above(groups, #[trigger] all[a])
                == groups[i].id || exists|b: int|
                0 <= b < a && #[trigger] all[b] == above(groups, all[a]) by {
                if a == 0 {
                    assert(all[0] == groups[k].id);
                } else if a < n {
                    assert(all[a] == inner[a - 1]);
                    if above(groups, inner[a - 1]) == groups[k].id {
                        assert(all[0] == above(groups, all[a]));
                    } else {
                        let b = choose|b: int|
                            0 <= b < a - 1 && #[trigger] inner[b] == above(groups, inner[a - 1]);
                        assert(all[b + 1] == above(groups, all[a]));
                    }
                } else {
                    assert(all[a] == rest[a - n]);
                    if above(groups, rest[a - n]) != groups[i].id {
                        let b = choose|b: int|
                            0 <= b < a - n && #[trigger] rest[b] == above(groups, rest[a - n]);
                        assert(all[b + n] == above(groups, all[a]));
                    }
                }
            }
        }
    }
}

} // verus!
