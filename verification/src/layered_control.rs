//! The periodic control loop that sizes layers.
//!
//! One round reads cumulative counters, derives how many CPUs each layer
//! wants, lets an allocator spread them over the nodes, moves whole cores
//! between layers and notes where growth was refused. What the allocator and
//! the smoothing of the counters compute comes in as plain numbers.

use vstd::prelude::*;

use crate::layered::{Double, LayerGrowthAlgo, LayerKind, LayerSpec};
use crate::layered_xnuma::{sources_of, xnuma_check_active, NodeLoad, XnumaRates};
use crate::text::{plus, quoted, shown_quoted};

verus! {

/// The machine as the control loop sees it.
pub struct ControlTopology {
    pub nr_nodes: usize,
    /// The core of each CPU.
    pub core_of: Vec<usize>,
    /// The node of each core.
    pub core_nodes: Vec<usize>,
    /// The cache of each core.
    pub core_llcs: Vec<usize>,
    /// The node of each cache.
    pub llc_nodes: Vec<usize>,
    /// For each layer and node, the cores in the order the layer takes them.
    pub core_orders: Vec<Vec<Vec<usize>>>,
    /// For each layer, the nodes in the order it grows over them.
    pub node_orders: Vec<Vec<usize>>,
}

/// Whether all numbers are below a bound.
pub open spec fn all_below(s: Seq<usize>, bound: int) -> bool {
    forall|i: int| 0 <= i < s.len() ==> (#[trigger] s[i]) < bound
}

/// Whether one layer's orders name existing cores, for every node.
pub open spec fn orders_ok(orders: Seq<Vec<usize>>, nr_nodes: int, nr_cores: int) -> bool {
    &&& orders.len() == nr_nodes
    &&& forall|n: int| 0 <= n < nr_nodes ==> all_below((#[trigger] orders[n])@, nr_cores)
}

impl ControlTopology {
    /// Whether the parts fit together.
    pub open spec fn ok(self, nr_cpus: int, nr_layers: int) -> bool {
        &&& self.core_of@.len() == nr_cpus
        &&& self.core_llcs@.len() == self.core_nodes@.len()
        &&& all_below(self.core_of@, self.core_nodes@.len() as int)
        &&& all_below(self.core_nodes@, self.nr_nodes as int)
        &&& all_below(self.core_llcs@, self.llc_nodes@.len() as int)
        &&& all_below(self.llc_nodes@, self.nr_nodes as int)
        &&& self.core_orders@.len() == nr_layers
        &&& self.node_orders@.len() == nr_layers
        &&& forall|l: int|
            0 <= l < nr_layers ==> orders_ok(
                (#[trigger] self.core_orders@[l])@,
                self.nr_nodes as int,
                self.core_nodes@.len() as int,
            )
        &&& forall|l: int|
            0 <= l < nr_layers ==> all_below(
                (#[trigger] self.node_orders@[l])@,
                self.nr_nodes as int,
            )
    }

    /// Whether a layer may use a core: it names no node and no cache, or the
    /// core's node, or the core's cache.
    pub open spec fn may_use(self, spec: LayerSpec, core: int) -> bool {
        ||| unrestricted(spec)
        ||| spec.nodes@.contains(self.core_nodes@[core])
        ||| spec.llcs@.contains(self.core_llcs@[core])
    }

    /// Whether a layer may use a node: it names no node and no cache, or the
    /// node, or a cache of the node.
    pub open spec fn may_use_node(self, spec: LayerSpec, node: usize) -> bool {
        ||| unrestricted(spec)
        ||| spec.nodes@.contains(node)
        ||| exists|i: int|
            0 <= i < spec.llcs@.len() && self.llc_nodes@[#[trigger] spec.llcs@[i] as int] == node
    }

    /// How many of the first `n` cores stand on a node.
    pub open spec fn cores_on(self, node: usize, n: nat) -> nat
        decreases n,
    {
        if n == 0 {
            0
        } else {
            self.cores_on(node, (n - 1) as nat) + (if self.core_nodes@[n - 1] == node {
                1nat
            } else {
                0nat
            })
        }
    }
}

/// Whether a layer names neither nodes nor caches.
pub open spec fn unrestricted(spec: LayerSpec) -> bool {
    spec.nodes@.len() == 0 && spec.llcs@.len() == 0
}

fn has(v: &Vec<usize>, x: usize) -> (r: bool)
    ensures
        r == v@.contains(x),
{
    let mut i: usize = 0;
    while i < v.len()
        invariant
            i <= v.len(),
            forall|j: int| 0 <= j < i ==> v@[j] != x,
        decreases v.len() - i,
    {
        if v[i] == x {
            proof {
                assert(v@[i as int] == x);
            }
            return true;
        }
        i = i + 1;
    }
    false
}

fn is_all_below(v: &Vec<usize>, bound: usize) -> (r: bool)
    ensures
        r == all_below(v@, bound as int),
{
    let mut i: usize = 0;
    while i < v.len()
        invariant
            i <= v.len(),
            forall|j: int| 0 <= j < i ==> (#[trigger] v@[j]) < bound,
        decreases v.len() - i,
    {
        if v[i] >= bound {
            proof {
                assert(!(v@[i as int] < bound));
            }
            return false;
        }
        i = i + 1;
    }
    true
}

fn is_unrestricted(spec: &LayerSpec) -> (r: bool)
    ensures
        r == unrestricted(*spec),
{
    spec.nodes.len() == 0 && spec.llcs.len() == 0
}

fn is_open(spec: &LayerSpec) -> (r: bool)
    ensures
        r == (spec.kind is Open),
{
    match spec.kind {
        LayerKind::Open => true,
        _ => false,
    }
}

impl ControlTopology {
    fn are_orders_ok(&self, layer: usize) -> (r: bool)
        requires
            layer < self.core_orders@.len(),
        ensures
            r == orders_ok(
                self.core_orders@[layer as int]@,
                self.nr_nodes as int,
                self.core_nodes@.len() as int,
            ),
    {
        let orders = &self.core_orders[layer];
        if orders.len() != self.nr_nodes {
            return false;
        }
        let mut n: usize = 0;
        while n < orders.len()
            invariant
                n <= orders.len(),
                orders@.len() == self.nr_nodes,
                layer < self.core_orders@.len(),
                *orders == self.core_orders@[layer as int],
                forall|j: int|
                    0 <= j < n ==> all_below(
                        (#[trigger] orders@[j])@,
                        self.core_nodes@.len() as int,
                    ),
            decreases orders.len() - n,
        {
            if !is_all_below(&orders[n], self.core_nodes.len()) {
                proof {
                    assert(!all_below(orders@[n as int]@, self.core_nodes@.len() as int));
                }
                return false;
            }
            n = n + 1;
        }
        true
    }

    /// Whether the parts fit together.
    pub fn is_ok(&self, nr_cpus: usize, nr_layers: usize) -> (r: bool)
        ensures
            r == self.ok(nr_cpus as int, nr_layers as int),
    {
        let nr_cores = self.core_nodes.len();
        if self.core_of.len() != nr_cpus || self.core_llcs.len() != nr_cores
            || self.core_orders.len() != nr_layers || self.node_orders.len() != nr_layers {
            return false;
        }
        if !is_all_below(&self.core_of, nr_cores) || !is_all_below(&self.core_nodes, self.nr_nodes)
            || !is_all_below(&self.core_llcs, self.llc_nodes.len())
            || !is_all_below(&self.llc_nodes, self.nr_nodes) {
            return false;
        }
        let mut l: usize = 0;
        while l < nr_layers
            invariant
                l <= nr_layers,
                nr_layers == self.core_orders@.len(),
                nr_layers == self.node_orders@.len(),
                forall|j: int|
                    0 <= j < l ==> orders_ok(
                        (#[trigger] self.core_orders@[j])@,
                        self.nr_nodes as int,
                        self.core_nodes@.len() as int,
                    ),
                forall|j: int|
                    0 <= j < l ==> all_below(
                        (#[trigger] self.node_orders@[j])@,
                        self.nr_nodes as int,
                    ),
            decreases nr_layers - l,
        {
            if !self.are_orders_ok(l) {
                proof {
                    assert(!orders_ok(
                        self.core_orders@[l as int]@,
                        self.nr_nodes as int,
                        self.core_nodes@.len() as int,
                    ));
                }
                return false;
            }
            if !is_all_below(&self.node_orders[l], self.nr_nodes) {
                proof {
                    assert(!all_below(self.node_orders@[l as int]@, self.nr_nodes as int));
                }
                return false;
            }
            l = l + 1;
        }
        true
    }

    /// Whether a layer may use a core.
    pub fn core_allowed(&self, spec: &LayerSpec, core: usize) -> (r: bool)
        requires
            core < self.core_nodes@.len(),
            self.core_llcs@.len() == self.core_nodes@.len(),
        ensures
            r == self.may_use(*spec, core as int),
    {
        is_unrestricted(spec) || has(&spec.nodes, self.core_nodes[core]) || has(
            &spec.llcs,
            self.core_llcs[core],
        )
    }

    /// Whether a layer may use a node.
    pub fn node_allowed(&self, spec: &LayerSpec, node: usize) -> (r: bool)
        requires
            all_below(spec.llcs@, self.llc_nodes@.len() as int),
        ensures
            r == self.may_use_node(*spec, node),
    {
        if is_unrestricted(spec) || has(&spec.nodes, node) {
            return true;
        }
        let mut i: usize = 0;
        while i < spec.llcs.len()
            invariant
                i <= spec.llcs@.len(),
                all_below(spec.llcs@, self.llc_nodes@.len() as int),
                forall|j: int|
                    0 <= j < i ==> self.llc_nodes@[#[trigger] spec.llcs@[j] as int] != node,
            decreases spec.llcs@.len() - i,
        {
            let llc = spec.llcs[i];
            proof {
                assert(spec.llcs@[i as int] < self.llc_nodes@.len());
            }
            if self.llc_nodes[llc] == node {
                return true;
            }
            i = i + 1;
        }
        false
    }

    /// How many cores each node has.
    pub fn node_caps(&self) -> (r: Vec<usize>)
        ensures
            r@.len() == self.nr_nodes,
            forall|n: int|
                0 <= n < self.nr_nodes ==> #[trigger] r@[n] == self.cores_on(
                    n as usize,
                    self.core_nodes@.len(),
                ),
    {
        let mut caps: Vec<usize> = Vec::new();
        let mut n: usize = 0;
        while n < self.nr_nodes
            invariant
                n <= self.nr_nodes,
                caps@.len() == n,
                forall|k: int|
                    0 <= k < n ==> #[trigger] caps@[k] == self.cores_on(
                        k as usize,
                        self.core_nodes@.len(),
                    ),
            decreases self.nr_nodes - n,
        {
            let mut count: usize = 0;
            let mut c: usize = 0;
            while c < self.core_nodes.len()
                invariant
                    c <= self.core_nodes@.len(),
                    count <= c,
                    count == self.cores_on(n, c as nat),
                decreases self.core_nodes@.len() - c,
            {
                if self.core_nodes[c] == n {
                    count = count + 1;
                }
                c = c + 1;
            }
            caps.push(count);
            n = n + 1;
        }
        caps
    }
}

/// What a layer was given: CPUs for pinned tasks and for others, in cores for
/// each node.
pub struct LayerAlloc {
    pub pinned: Vec<usize>,
    pub unpinned: Vec<usize>,
}

/// The sum of the first `n` numbers.
pub open spec fn sum_of(s: Seq<usize>, n: nat) -> nat
    decreases n,
{
    if n == 0 {
        0
    } else {
        sum_of(s, (n - 1) as nat) + s[n - 1] as nat
    }
}

impl LayerAlloc {
    /// Whether both parts say something of every node that can be added up.
    pub open spec fn ok(self, nr_nodes: int) -> bool {
        &&& self.pinned@.len() == nr_nodes
        &&& self.unpinned@.len() == nr_nodes
        &&& forall|n: int|
            0 <= n < nr_nodes ==> #[trigger] self.pinned@[n] + self.unpinned@[n] <= usize::MAX
    }

    /// Whether both parts say something of every node that can be added up.
    pub fn is_ok(&self, nr_nodes: usize) -> (r: bool)
        ensures
            r == self.ok(nr_nodes as int),
    {
        if self.pinned.len() != nr_nodes || self.unpinned.len() != nr_nodes {
            return false;
        }
        let mut n: usize = 0;
        while n < nr_nodes
            invariant
                n <= nr_nodes,
                self.pinned@.len() == nr_nodes,
                self.unpinned@.len() == nr_nodes,
                forall|k: int|
                    0 <= k < n ==> #[trigger] self.pinned@[k] + self.unpinned@[k] <= usize::MAX,
            decreases nr_nodes - n,
        {
            if self.pinned[n].checked_add(self.unpinned[n]).is_none() {
                proof {
                    assert(self.pinned@[n as int] + self.unpinned@[n as int] > usize::MAX);
                }
                return false;
            }
            n = n + 1;
        }
        true
    }

    /// The cores given on a node.
    pub open spec fn target_on(self, node: int) -> int {
        self.pinned@[node] + self.unpinned@[node]
    }

    /// The cores given in all.
    pub open spec fn spec_total(self) -> nat {
        sum_of(self.pinned@, self.pinned@.len()) + sum_of(self.unpinned@, self.unpinned@.len())
    }

    /// The cores given in all; `None` beyond what can be counted.
    pub fn total(&self) -> (r: Option<usize>)
        ensures
            r is Some <==> self.spec_total() <= usize::MAX,
            r is Some ==> r->0 == self.spec_total(),
    {
        let p = checked_sum(&self.pinned);
        let u = checked_sum(&self.unpinned);
        match (p, u) {
            (Some(a), Some(b)) => a.checked_add(b),
            _ => None,
        }
    }
}

proof fn lemma_sum_grows(s: Seq<usize>, a: nat, b: nat)
    requires
        a <= b,
    ensures
        sum_of(s, a) <= sum_of(s, b),
    decreases b,
{
    if a < b {
        lemma_sum_grows(s, a, (b - 1) as nat);
    }
}

fn checked_sum(v: &Vec<usize>) -> (r: Option<usize>)
    ensures
        r is Some <==> sum_of(v@, v@.len()) <= usize::MAX,
        r is Some ==> r->0 == sum_of(v@, v@.len()),
{
    let mut sum: usize = 0;
    let mut i: usize = 0;
    while i < v.len()
        invariant
            i <= v@.len(),
            sum == sum_of(v@, i as nat),
        decreases v@.len() - i,
    {
        match sum.checked_add(v[i]) {
            Some(next) => {
                sum = next;
            },
            None => {
                proof {
                    lemma_sum_grows(v@, (i + 1) as nat, v@.len());
                }
                return None;
            },
        }
        i = i + 1;
    }
    Some(sum)
}

/// A layer put behind those before it whose target is not greater.
pub open spec fn placed_by_target(s: Seq<usize>, targets: Seq<usize>, layer: usize) -> Seq<usize>
    decreases s.len(),
{
    if s.len() == 0 || targets[s.last() as int] <= targets[layer as int] {
        s.push(layer)
    } else {
        placed_by_target(s.drop_last(), targets, layer).push(s.last())
    }
}

/// The first `n` layers by ascending target; equal ones stay in order.
pub open spec fn by_target(targets: Seq<usize>, n: nat) -> Seq<usize>
    decreases n,
{
    if n == 0 {
        Seq::empty()
    } else {
        placed_by_target(by_target(targets, (n - 1) as nat), targets, (n - 1) as usize)
    }
}

/// Whether one layer comes before another: a smaller target, or the same and a
/// smaller index.
pub open spec fn comes_before(targets: Seq<usize>, a: usize, b: usize) -> bool {
    targets[a as int] < targets[b as int] || (targets[a as int] == targets[b as int] && a < b)
}

proof fn lemma_placed(s: Seq<usize>, targets: Seq<usize>, layer: usize)
    requires
        all_below(s, layer as int),
        forall|i: int, j: int|
            0 <= i < j < s.len() ==> comes_before(targets, #[trigger] s[i], #[trigger] s[j]),
    ensures
        placed_by_target(s, targets, layer).len() == s.len() + 1,
        forall|i: int, j: int|
            0 <= i < j < s.len() + 1 ==> comes_before(
                targets,
                #[trigger] placed_by_target(s, targets, layer)[i],
                #[trigger] placed_by_target(s, targets, layer)[j],
            ),
        forall|x: usize| #[trigger]
            placed_by_target(s, targets, layer).contains(x) <==> s.contains(x) || x == layer,
    decreases s.len(),
{
    let r = placed_by_target(s, targets, layer);
    if s.len() == 0 || targets[s.last() as int] <= targets[layer as int] {
        assert forall|i: int, j: int| 0 <= i < j < r.len() implies comes_before(
            targets,
            #[trigger] r[i],
            #[trigger] r[j],
        ) by {
            if j == s.len() {
                assert(s[i] < layer);
                if i < s.len() - 1 {
                    assert(comes_before(targets, s[i], s.last()));
                }
            }
        }
        assert forall|x: usize| #[trigger] r.contains(x) <==> s.contains(x) || x == layer by {
            if s.contains(x) {
                let i = choose|i: int| 0 <= i < s.len() && s[i] == x;
                assert(r[i] == x);
            }
            if x == layer {
                assert(r[s.len() as int] == x);
            }
        }
    } else {
        let rest = s.drop_last();
        lemma_placed(rest, targets, layer);
        let p = placed_by_target(rest, targets, layer);
        assert(r == p.push(s.last()));
        assert forall|i: int, j: int| 0 <= i < j < r.len() implies comes_before(
            targets,
            #[trigger] r[i],
            #[trigger] r[j],
        ) by {
            if j == p.len() {
                assert(p.contains(p[i]));
                if p[i] != layer {
                    let k = choose|k: int| 0 <= k < rest.len() && rest[k] == p[i];
                    assert(comes_before(targets, s[k], s.last()));
                }
            } else {
                assert(comes_before(targets, p[i], p[j]));
            }
        }
        assert forall|x: usize| #[trigger] r.contains(x) <==> s.contains(x) || x == layer by {
            if s.contains(x) && x != s.last() {
                let i = choose|i: int| 0 <= i < s.len() && s[i] == x;
                assert(rest[i] == x);
                assert(rest.contains(x));
            }
            if r.contains(x) {
                let i = choose|i: int| 0 <= i < r.len() && r[i] == x;
                if i < p.len() {
                    assert(p[i] == x);
                    assert(p.contains(x));
                    if x != layer {
                        let k = choose|k: int| 0 <= k < rest.len() && rest[k] == x;
                        assert(s[k] == x);
                    }
                } else {
                    assert(s[s.len() - 1] == x);
                }
            }
            if p.contains(x) {
                let i = choose|i: int| 0 <= i < p.len() && p[i] == x;
                assert(r[i] == x);
            }
            if x == s.last() {
                assert(r[p.len() as int] == x);
            }
        }
    }
}

/// The order by target names every layer once, and of two layers the one with
/// the smaller target first, or the one with the smaller index.
pub proof fn law_layers_are_ordered_by_target(targets: Seq<usize>, n: nat)
    requires
        n <= targets.len(),
        n <= usize::MAX,
    ensures
        by_target(targets, n).len() == n,
        forall|x: usize| #[trigger] by_target(targets, n).contains(x) <==> x < n,
        forall|i: int, j: int|
            0 <= i < j < n ==> comes_before(
                targets,
                #[trigger] by_target(targets, n)[i],
                #[trigger] by_target(targets, n)[j],
            ),
    decreases n,
{
    if n > 0 {
        let m = (n - 1) as nat;
        law_layers_are_ordered_by_target(targets, m);
        let s = by_target(targets, m);
        assert(all_below(s, m as int)) by {
            assert forall|i: int| 0 <= i < s.len() implies (#[trigger] s[i]) < m by {
                assert(s.contains(s[i]));
            }
        }
        lemma_placed(s, targets, m as usize);
    }
}

fn place_by_target(order: &mut Vec<usize>, targets: &Vec<usize>, layer: usize)
    requires
        layer < targets@.len(),
        all_below(old(order)@, targets@.len() as int),
    ensures
        final(order)@ == placed_by_target(old(order)@, targets@, layer),
{
    let ghost before = order@;
    let mut at = order.len();
    proof {
        assert(before.take(at as int) =~= before);
        assert(placed_by_target(before, targets@, layer) + before.skip(at as int)
            =~= placed_by_target(before, targets@, layer));
    }
    while at > 0 && targets[order[at - 1]] > targets[layer]
        invariant
            order@ == before,
            at <= order@.len(),
            layer < targets@.len(),
            all_below(order@, targets@.len() as int),
            placed_by_target(before, targets@, layer) == placed_by_target(
                before.take(at as int),
                targets@,
                layer,
            ) + before.skip(at as int),
        decreases at,
    {
        proof {
            let t = before.take(at as int);
            assert(t.last() == before[at - 1]);
            assert(t.drop_last() =~= before.take(at - 1));
            assert(placed_by_target(before.take(at - 1), targets@, layer).push(before[at - 1])
                + before.skip(at as int) =~= placed_by_target(
                before.take(at - 1),
                targets@,
                layer,
            ) + before.skip(at - 1));
        }
        at = at - 1;
    }
    order.insert(at, layer);
    proof {
        let t = before.take(at as int);
        if at > 0 {
            assert(t.last() == before[at - 1]);
        }
        assert(order@ =~= t.push(layer) + before.skip(at as int));
    }
}

fn ascending(targets: &Vec<usize>) -> (r: Vec<usize>)
    ensures
        r@ == by_target(targets@, targets@.len()),
{
    let mut order: Vec<usize> = Vec::new();
    let mut i: usize = 0;
    while i < targets.len()
        invariant
            i <= targets@.len(),
            order@ == by_target(targets@, i as nat),
        decreases targets@.len() - i,
    {
        proof {
            law_layers_are_ordered_by_target(targets@, i as nat);
            assert forall|k: int| 0 <= k < order@.len() implies (#[trigger] order@[k])
                < targets@.len() by {
                assert(order@.contains(order@[k]));
            }
        }
        place_by_target(&mut order, targets, i);
        i = i + 1;
    }
    order
}

/// Which layer that is not open holds each core.
pub type Owners = Seq<Option<usize>>;

/// Whether a mask has every CPU of a core.
pub open spec fn has_whole(t: ControlTopology, mask: Seq<bool>, core: int) -> bool {
    forall|cpu: int| 0 <= cpu < mask.len() && #[trigger] t.core_of@[cpu] == core ==> mask[cpu]
}

/// Whether a mask has some CPU of a core.
pub open spec fn has_part(t: ControlTopology, mask: Seq<bool>, core: int) -> bool {
    exists|cpu: int| 0 <= cpu < mask.len() && #[trigger] t.core_of@[cpu] == core && mask[cpu]
}

/// Whether a mask splits no core.
pub open spec fn is_whole(t: ControlTopology, mask: Seq<bool>) -> bool {
    forall|core: int|
        0 <= core < t.core_nodes@.len() && #[trigger] has_part(t, mask, core) ==> has_whole(
            t,
            mask,
            core,
        )
}

/// Whether two masks share no core.
pub open spec fn apart(t: ControlTopology, a: Seq<bool>, b: Seq<bool>) -> bool {
    forall|core: int|
        0 <= core < t.core_nodes@.len() ==> !(#[trigger] has_part(t, a, core) && has_part(
            t,
            b,
            core,
        ))
}

/// The last of the first `n` layers that is not open and has part of a core.
pub open spec fn owner_among(
    t: ControlTopology,
    specs: Seq<LayerSpec>,
    masks: Seq<Seq<bool>>,
    core: int,
    n: nat,
) -> Option<usize>
    decreases n,
{
    if n == 0 {
        None
    } else if !(specs[n - 1].kind is Open) && has_part(t, masks[n - 1], core) {
        Some((n - 1) as usize)
    } else {
        owner_among(t, specs, masks, core, (n - 1) as nat)
    }
}

/// Which layer that is not open holds each core under the masks.
pub open spec fn owners_under(
    t: ControlTopology,
    specs: Seq<LayerSpec>,
    masks: Seq<Seq<bool>>,
) -> Owners {
    Seq::new(
        t.core_nodes@.len(),
        |core: int| owner_among(t, specs, masks, core, specs.len()),
    )
}

/// The CPUs of a layer: those of the cores it holds or, for an open layer,
/// those of the cores that nobody holds and that it may use.
pub open spec fn mask_of(
    t: ControlTopology,
    specs: Seq<LayerSpec>,
    owners: Owners,
    layer: int,
) -> Seq<bool> {
    Seq::new(
        t.core_of@.len(),
        |cpu: int|
            {
                let core = t.core_of@[cpu] as int;
                if specs[layer].kind is Open {
                    owners[core] is None && t.may_use(specs[layer], core)
                } else {
                    owners[core] == Some(layer as usize)
                }
            },
    )
}

/// How many of the cores listed a layer holds.
pub open spec fn held(owners: Owners, order: Seq<usize>, layer: usize) -> nat
    decreases order.len(),
{
    if order.len() == 0 {
        0
    } else {
        held(owners, order.drop_last(), layer) + (if owners[order.last() as int] == Some(layer) {
            1nat
        } else {
            0nat
        })
    }
}

/// The owners once a layer has given up `n` of the cores listed, from the end.
pub open spec fn freed(owners: Owners, order: Seq<usize>, layer: usize, n: nat) -> Owners
    decreases order.len(),
{
    if order.len() == 0 || n == 0 {
        owners
    } else if owners[order.last() as int] == Some(layer) {
        freed(
            owners.update(order.last() as int, None),
            order.drop_last(),
            layer,
            (n - 1) as nat,
        )
    } else {
        freed(owners, order.drop_last(), layer, n)
    }
}

/// The owners once a layer has taken up to `n` free cores that it may use, in
/// the order listed, and how many it still lacks.
pub open spec fn taken(
    t: ControlTopology,
    spec: LayerSpec,
    owners: Owners,
    order: Seq<usize>,
    layer: usize,
    n: nat,
) -> (Owners, nat)
    decreases order.len(),
{
    if order.len() == 0 || n == 0 {
        (owners, n)
    } else {
        let core = order[0] as int;
        if t.may_use(spec, core) && owners[core] is None {
            taken(
                t,
                spec,
                owners.update(core, Some(layer)),
                order.drop_first(),
                layer,
                (n - 1) as nat,
            )
        } else {
            taken(t, spec, owners, order.drop_first(), layer, n)
        }
    }
}

/// How far one number lies above another.
pub open spec fn excess(a: int, b: int) -> nat {
    if a > b {
        (a - b) as nat
    } else {
        0
    }
}

/// The owners once a layer has given up what it holds beyond its target, on
/// the first `n` nodes.
pub open spec fn shrunk(
    t: ControlTopology,
    allocs: Seq<LayerAlloc>,
    owners: Owners,
    layer: usize,
    n: nat,
) -> Owners
    decreases n,
{
    if n == 0 {
        owners
    } else {
        let before = shrunk(t, allocs, owners, layer, (n - 1) as nat);
        let order = t.core_orders@[layer as int]@[n - 1]@;
        freed(
            before,
            order,
            layer,
            excess(held(before, order, layer) as int, allocs[layer as int].target_on(n - 1)),
        )
    }
}

/// The owners once the last `n` layers in order have shrunk, the last first.
/// Open layers hold nothing.
pub open spec fn all_shrunk(
    t: ControlTopology,
    specs: Seq<LayerSpec>,
    allocs: Seq<LayerAlloc>,
    owners: Owners,
    order: Seq<usize>,
    n: nat,
) -> Owners
    decreases n,
{
    if n == 0 {
        owners
    } else {
        let before = all_shrunk(t, specs, allocs, owners, order, (n - 1) as nat);
        let layer = order[order.len() - n];
        if specs[layer as int].kind is Open {
            before
        } else {
            shrunk(t, allocs, before, layer, t.nr_nodes as nat)
        }
    }
}

/// The layer and the node on which a layer free to use any core found too few.
pub type Shortage = (usize, usize);

/// The owners once a layer has grown to its target on a node.
pub open spec fn grown_on(
    t: ControlTopology,
    specs: Seq<LayerSpec>,
    allocs: Seq<LayerAlloc>,
    owners: Owners,
    layer: usize,
    node: usize,
) -> Result<Owners, Shortage> {
    let order = t.core_orders@[layer as int]@[node as int]@;
    let lacks = excess(
        allocs[layer as int].target_on(node as int),
        held(owners, order, layer) as int,
    );
    let (after, left) = taken(t, specs[layer as int], owners, order, layer, lacks);
    if left > 0 && unrestricted(specs[layer as int]) {
        Err((layer, node))
    } else {
        Ok(after)
    }
}

/// The owners once a layer has grown on the first `n` nodes of its order.
pub open spec fn grown(
    t: ControlTopology,
    specs: Seq<LayerSpec>,
    allocs: Seq<LayerAlloc>,
    owners: Owners,
    layer: usize,
    n: nat,
) -> Result<Owners, Shortage>
    decreases n,
{
    if n == 0 {
        Ok(owners)
    } else {
        match grown(t, specs, allocs, owners, layer, (n - 1) as nat) {
            Ok(before) => grown_on(
                t,
                specs,
                allocs,
                before,
                layer,
                t.node_orders@[layer as int]@[n - 1],
            ),
            Err(e) => Err(e),
        }
    }
}

/// The owners once the first `n` layers in order have grown.
pub open spec fn all_grown(
    t: ControlTopology,
    specs: Seq<LayerSpec>,
    allocs: Seq<LayerAlloc>,
    owners: Owners,
    order: Seq<usize>,
    n: nat,
) -> Result<Owners, Shortage>
    decreases n,
{
    if n == 0 {
        Ok(owners)
    } else {
        let layer = order[n - 1];
        match all_grown(t, specs, allocs, owners, order, (n - 1) as nat) {
            Ok(before) => if specs[layer as int].kind is Open {
                Ok(before)
            } else {
                grown(t, specs, allocs, before, layer, t.node_orders@[layer as int]@.len())
            },
            Err(e) => Err(e),
        }
    }
}

/// The owners after a round: layers shrink by descending target, then grow by
/// ascending target.
pub open spec fn reallocated(
    t: ControlTopology,
    specs: Seq<LayerSpec>,
    allocs: Seq<LayerAlloc>,
    owners: Owners,
    targets: Seq<usize>,
) -> Result<Owners, Shortage> {
    let order = by_target(targets, targets.len());
    all_grown(
        t,
        specs,
        allocs,
        all_shrunk(t, specs, allocs, owners, order, order.len()),
        order,
        order.len(),
    )
}

fn count_held(owners: &Vec<Option<usize>>, order: &Vec<usize>, layer: usize) -> (r: usize)
    requires
        all_below(order@, owners@.len() as int),
    ensures
        r == held(owners@, order@, layer),
{
    let mut count: usize = 0;
    let mut i: usize = 0;
    while i < order.len()
        invariant
            i <= order@.len(),
            count <= i,
            all_below(order@, owners@.len() as int),
            count == held(owners@, order@.take(i as int), layer),
        decreases order@.len() - i,
    {
        proof {
            let next = order@.take(i + 1);
            assert(next.drop_last() =~= order@.take(i as int));
            assert(next.last() == order@[i as int]);
        }
        let holds = match owners[order[i]] {
            Some(l) => l == layer,
            None => false,
        };
        if holds {
            count = count + 1;
        }
        i = i + 1;
    }
    proof {
        assert(order@.take(i as int) =~= order@);
    }
    count
}

fn free_cores(owners: &mut Vec<Option<usize>>, order: &Vec<usize>, layer: usize, n: usize)
    requires
        all_below(order@, old(owners)@.len() as int),
    ensures
        final(owners)@ == freed(old(owners)@, order@, layer, n as nat),
        final(owners)@.len() == old(owners)@.len(),
{
    let ghost goal = freed(owners@, order@, layer, n as nat);
    let ghost cores = owners@.len();
    let mut left = n;
    let mut i = order.len();
    proof {
        assert(order@.take(i as int) =~= order@);
    }
    while i > 0 && left > 0
        invariant
            i <= order@.len(),
            owners@.len() == cores,
            all_below(order@, cores as int),
            goal == freed(owners@, order@.take(i as int), layer, left as nat),
        decreases i,
    {
        i = i - 1;
        proof {
            let now = order@.take(i + 1);
            assert(now.drop_last() =~= order@.take(i as int));
            assert(now.last() == order@[i as int]);
        }
        let core = order[i];
        let holds = match owners[core] {
            Some(l) => l == layer,
            None => false,
        };
        if holds {
            owners.set(core, None);
            left = left - 1;
        }
    }
}

fn take_cores(
    t: &ControlTopology,
    spec: &LayerSpec,
    owners: &mut Vec<Option<usize>>,
    order: &Vec<usize>,
    layer: usize,
    n: usize,
) -> (r: usize)
    requires
        all_below(order@, old(owners)@.len() as int),
        old(owners)@.len() == t.core_nodes@.len(),
        t.core_llcs@.len() == t.core_nodes@.len(),
    ensures
        (final(owners)@, r as nat) == taken(*t, *spec, old(owners)@, order@, layer, n as nat),
        final(owners)@.len() == old(owners)@.len(),
{
    let ghost goal = taken(*t, *spec, owners@, order@, layer, n as nat);
    let mut left = n;
    let mut i: usize = 0;
    proof {
        assert(order@.skip(0) =~= order@);
    }
    while i < order.len() && left > 0
        invariant
            i <= order@.len(),
            owners@.len() == t.core_nodes@.len(),
            t.core_llcs@.len() == t.core_nodes@.len(),
            all_below(order@, owners@.len() as int),
            goal == taken(*t, *spec, owners@, order@.skip(i as int), layer, left as nat),
        decreases order@.len() - i,
    {
        proof {
            let now = order@.skip(i as int);
            assert(now.drop_first() =~= order@.skip(i + 1));
            assert(now[0] == order@[i as int]);
        }
        let core = order[i];
        if t.core_allowed(spec, core) && owners[core].is_none() {
            owners.set(core, Some(layer));
            left = left - 1;
        }
        i = i + 1;
    }
    left
}

fn mask_has_part(t: &ControlTopology, mask: &Vec<bool>, core: usize) -> (r: bool)
    requires
        t.core_of@.len() == mask@.len(),
    ensures
        r == has_part(*t, mask@, core as int),
{
    let mut cpu: usize = 0;
    while cpu < mask.len()
        invariant
            cpu <= mask@.len(),
            t.core_of@.len() == mask@.len(),
            forall|c: int| 0 <= c < cpu && #[trigger] t.core_of@[c] == core ==> !mask@[c],
        decreases mask@.len() - cpu,
    {
        if t.core_of[cpu] == core && mask[cpu] {
            return true;
        }
        cpu = cpu + 1;
    }
    false
}

fn mask_has_whole(t: &ControlTopology, mask: &Vec<bool>, core: usize) -> (r: bool)
    requires
        t.core_of@.len() == mask@.len(),
    ensures
        r == has_whole(*t, mask@, core as int),
{
    let mut cpu: usize = 0;
    while cpu < mask.len()
        invariant
            cpu <= mask@.len(),
            t.core_of@.len() == mask@.len(),
            forall|c: int| 0 <= c < cpu && #[trigger] t.core_of@[c] == core ==> mask@[c],
        decreases mask@.len() - cpu,
    {
        if t.core_of[cpu] == core && !mask[cpu] {
            return false;
        }
        cpu = cpu + 1;
    }
    true
}

fn find_owners(
    t: &ControlTopology,
    specs: &Vec<LayerSpec>,
    masks: &Vec<Vec<bool>>,
) -> (r: Vec<Option<usize>>)
    requires
        masks@.len() == specs@.len(),
        forall|l: int| 0 <= l < masks@.len() ==> (#[trigger] masks@[l])@.len() == t.core_of@.len(),
    ensures
        r@ == owners_under(*t, specs@, rows(masks@)),
{
    let mut owners: Vec<Option<usize>> = Vec::new();
    let mut core: usize = 0;
    while core < t.core_nodes.len()
        invariant
            core <= t.core_nodes@.len(),
            masks@.len() == specs@.len(),
            forall|l: int|
                0 <= l < masks@.len() ==> (#[trigger] masks@[l])@.len() == t.core_of@.len(),
            owners@.len() == core,
            forall|c: int|
                0 <= c < core ==> #[trigger] owners@[c] == owner_among(
                    *t,
                    specs@,
                    rows(masks@),
                    c,
                    specs@.len(),
                ),
        decreases t.core_nodes@.len() - core,
    {
        let mut owner: Option<usize> = None;
        let mut l: usize = 0;
        while l < specs.len()
            invariant
                l <= specs@.len(),
                masks@.len() == specs@.len(),
                forall|l: int|
                    0 <= l < masks@.len() ==> (#[trigger] masks@[l])@.len() == t.core_of@.len(),
                owner == owner_among(*t, specs@, rows(masks@), core as int, l as nat),
            decreases specs@.len() - l,
        {
            if !is_open(&specs[l]) && mask_has_part(t, &masks[l], core) {
                owner = Some(l);
            }
            l = l + 1;
        }
        owners.push(owner);
        core = core + 1;
    }
    proof {
        assert(owners@ =~= owners_under(*t, specs@, rows(masks@)));
    }
    owners
}

fn build_mask(
    t: &ControlTopology,
    specs: &Vec<LayerSpec>,
    owners: &Vec<Option<usize>>,
    layer: usize,
) -> (r: Vec<bool>)
    requires
        layer < specs@.len(),
        owners@.len() == t.core_nodes@.len(),
        t.core_llcs@.len() == t.core_nodes@.len(),
        all_below(t.core_of@, t.core_nodes@.len() as int),
    ensures
        r@ == mask_of(*t, specs@, owners@, layer as int),
{
    let spec = &specs[layer];
    let mut mask: Vec<bool> = Vec::new();
    let mut cpu: usize = 0;
    while cpu < t.core_of.len()
        invariant
            cpu <= t.core_of@.len(),
            layer < specs@.len(),
            *spec == specs@[layer as int],
            owners@.len() == t.core_nodes@.len(),
            t.core_llcs@.len() == t.core_nodes@.len(),
            all_below(t.core_of@, t.core_nodes@.len() as int),
            mask@ == mask_of(*t, specs@, owners@, layer as int).take(cpu as int),
        decreases t.core_of@.len() - cpu,
    {
        let core = t.core_of[cpu];
        let has_it = if is_open(spec) {
            owners[core].is_none() && t.core_allowed(spec, core)
        } else {
            match owners[core] {
                Some(l) => l == layer,
                None => false,
            }
        };
        mask.push(has_it);
        cpu = cpu + 1;
        proof {
            assert(mask@ =~= mask_of(*t, specs@, owners@, layer as int).take(cpu as int));
        }
    }
    proof {
        assert(mask@ =~= mask_of(*t, specs@, owners@, layer as int));
    }
    mask
}

fn shrink(
    t: &ControlTopology,
    allocs: &Vec<LayerAlloc>,
    owners: &mut Vec<Option<usize>>,
    layer: usize,
)
    requires
        layer < allocs@.len(),
        t.core_orders@.len() == allocs@.len(),
        old(owners)@.len() == t.core_nodes@.len(),
        orders_ok(
            t.core_orders@[layer as int]@,
            t.nr_nodes as int,
            t.core_nodes@.len() as int,
        ),
        allocs@[layer as int].ok(t.nr_nodes as int),
    ensures
        final(owners)@ == shrunk(*t, allocs@, old(owners)@, layer, t.nr_nodes as nat),
        final(owners)@.len() == old(owners)@.len(),
{
    let ghost before = owners@;
    let mut node: usize = 0;
    while node < t.nr_nodes
        invariant
            node <= t.nr_nodes,
            layer < allocs@.len(),
            t.core_orders@.len() == allocs@.len(),
            owners@.len() == t.core_nodes@.len(),
            orders_ok(
                t.core_orders@[layer as int]@,
                t.nr_nodes as int,
                t.core_nodes@.len() as int,
            ),
            allocs@[layer as int].ok(t.nr_nodes as int),
            owners@ == shrunk(*t, allocs@, before, layer, node as nat),
        decreases t.nr_nodes - node,
    {
        let order = &t.core_orders[layer][node];
        let alloc = &allocs[layer];
        proof {
            assert(all_below(
                t.core_orders@[layer as int]@[node as int]@,
                t.core_nodes@.len() as int,
            ));
            assert(alloc.pinned@[node as int] + alloc.unpinned@[node as int] <= usize::MAX);
        }
        let target = alloc.pinned[node] + alloc.unpinned[node];
        let have = count_held(owners, order, layer);
        free_cores(owners, order, layer, have.saturating_sub(target));
        node = node + 1;
    }
}

fn grow(
    t: &ControlTopology,
    specs: &Vec<LayerSpec>,
    allocs: &Vec<LayerAlloc>,
    owners: &mut Vec<Option<usize>>,
    layer: usize,
) -> (r: Result<(), Shortage>)
    requires
        layer < allocs@.len(),
        specs@.len() == allocs@.len(),
        t.ok(t.core_of@.len() as int, allocs@.len() as int),
        old(owners)@.len() == t.core_nodes@.len(),
        allocs@[layer as int].ok(t.nr_nodes as int),
    ensures
        final(owners)@.len() == old(owners)@.len(),
        match r {
            Ok(()) => grown(
                *t,
                specs@,
                allocs@,
                old(owners)@,
                layer,
                t.node_orders@[layer as int]@.len(),
            ) == Ok::<Owners, Shortage>(final(owners)@),
            Err(e) => grown(
                *t,
                specs@,
                allocs@,
                old(owners)@,
                layer,
                t.node_orders@[layer as int]@.len(),
            ) == Err::<Owners, Shortage>(e),
        },
{
    let ghost before = owners@;
    let mut i: usize = 0;
    let nodes = &t.node_orders[layer];
    while i < nodes.len()
        invariant
            i <= nodes@.len(),
            before == old(owners)@,
            before.len() == t.core_nodes@.len(),
            layer < allocs@.len(),
            specs@.len() == allocs@.len(),
            t.ok(t.core_of@.len() as int, allocs@.len() as int),
            *nodes == t.node_orders@[layer as int],
            owners@.len() == t.core_nodes@.len(),
            allocs@[layer as int].ok(t.nr_nodes as int),
            grown(*t, specs@, allocs@, before, layer, i as nat) == Ok::<Owners, Shortage>(owners@),
        decreases nodes@.len() - i,
    {
        let node = nodes[i];
        proof {
            assert(all_below(t.node_orders@[layer as int]@, t.nr_nodes as int));
            assert(nodes@[i as int] < t.nr_nodes);
            assert(orders_ok(
                t.core_orders@[layer as int]@,
                t.nr_nodes as int,
                t.core_nodes@.len() as int,
            ));
            assert(all_below(
                t.core_orders@[layer as int]@[node as int]@,
                t.core_nodes@.len() as int,
            ));
        }
        let order = &t.core_orders[layer][node];
        let alloc = &allocs[layer];
        proof {
            assert(alloc.pinned@[node as int] + alloc.unpinned@[node as int] <= usize::MAX);
        }
        let target = alloc.pinned[node] + alloc.unpinned[node];
        let have = count_held(owners, order, layer);
        let left = take_cores(t, &specs[layer], owners, order, layer, target.saturating_sub(have));
        if left > 0 && is_unrestricted(&specs[layer]) {
            proof {
                lemma_grown_stays_refused(
                    *t,
                    specs@,
                    allocs@,
                    before,
                    layer,
                    (i + 1) as nat,
                    nodes@.len(),
                );
            }
            return Err((layer, node));
        }
        i = i + 1;
    }
    Ok(())
}

proof fn lemma_grown_stays_refused(
    t: ControlTopology,
    specs: Seq<LayerSpec>,
    allocs: Seq<LayerAlloc>,
    owners: Owners,
    layer: usize,
    a: nat,
    b: nat,
)
    requires
        a <= b,
        grown(t, specs, allocs, owners, layer, a) is Err,
    ensures
        grown(t, specs, allocs, owners, layer, b) == grown(t, specs, allocs, owners, layer, a),
    decreases b,
{
    if a < b {
        lemma_grown_stays_refused(t, specs, allocs, owners, layer, a, (b - 1) as nat);
    }
}

proof fn lemma_all_grown_stays_refused(
    t: ControlTopology,
    specs: Seq<LayerSpec>,
    allocs: Seq<LayerAlloc>,
    owners: Owners,
    order: Seq<usize>,
    a: nat,
    b: nat,
)
    requires
        a <= b,
        all_grown(t, specs, allocs, owners, order, a) is Err,
    ensures
        all_grown(t, specs, allocs, owners, order, b) == all_grown(
            t,
            specs,
            allocs,
            owners,
            order,
            a,
        ),
    decreases b,
{
    if a < b {
        lemma_all_grown_stays_refused(t, specs, allocs, owners, order, a, (b - 1) as nat);
    }
}

fn reallocate(
    t: &ControlTopology,
    specs: &Vec<LayerSpec>,
    allocs: &Vec<LayerAlloc>,
    owners: &mut Vec<Option<usize>>,
    targets: &Vec<usize>,
) -> (r: Result<(), Shortage>)
    requires
        specs@.len() == allocs@.len(),
        targets@.len() == allocs@.len(),
        t.ok(t.core_of@.len() as int, allocs@.len() as int),
        old(owners)@.len() == t.core_nodes@.len(),
        forall|l: int|
            0 <= l < allocs@.len() ==> (#[trigger] allocs@[l]).ok(t.nr_nodes as int),
    ensures
        final(owners)@.len() == old(owners)@.len(),
        match r {
            Ok(()) => reallocated(*t, specs@, allocs@, old(owners)@, targets@) == Ok::<
                Owners,
                Shortage,
            >(final(owners)@),
            Err(e) => reallocated(*t, specs@, allocs@, old(owners)@, targets@) == Err::<
                Owners,
                Shortage,
            >(e),
        },
{
    let ghost before = owners@;
    let order = ascending(targets);
    let nr_layers = targets.len();
    proof {
        law_layers_are_ordered_by_target(targets@, nr_layers as nat);
        assert forall|i: int| 0 <= i < order@.len() implies (#[trigger] order@[i])
            < allocs@.len() by {
            assert(order@.contains(order@[i]));
        }
    }
    let mut done: usize = 0;
    while done < order.len()
        invariant
            done <= order@.len(),
            all_below(order@, allocs@.len() as int),
            specs@.len() == allocs@.len(),
            t.ok(t.core_of@.len() as int, allocs@.len() as int),
            owners@.len() == t.core_nodes@.len(),
            forall|l: int|
                0 <= l < allocs@.len() ==> (#[trigger] allocs@[l]).ok(t.nr_nodes as int),
            owners@ == all_shrunk(*t, specs@, allocs@, before, order@, done as nat),
        decreases order@.len() - done,
    {
        let layer = order[order.len() - 1 - done];
        proof {
            assert(order@[order@.len() - (done + 1)] == layer);
            assert(allocs@[layer as int].ok(t.nr_nodes as int));
            assert(orders_ok(
                t.core_orders@[layer as int]@,
                t.nr_nodes as int,
                t.core_nodes@.len() as int,
            ));
        }
        if !is_open(&specs[layer]) {
            shrink(t, allocs, owners, layer);
        }
        done = done + 1;
    }
    let ghost small = owners@;
    let mut i: usize = 0;
    while i < order.len()
        invariant
            i <= order@.len(),
            before == old(owners)@,
            before.len() == t.core_nodes@.len(),
            all_below(order@, allocs@.len() as int),
            specs@.len() == allocs@.len(),
            t.ok(t.core_of@.len() as int, allocs@.len() as int),
            owners@.len() == t.core_nodes@.len(),
            forall|l: int|
                0 <= l < allocs@.len() ==> (#[trigger] allocs@[l]).ok(t.nr_nodes as int),
            all_grown(*t, specs@, allocs@, small, order@, i as nat) == Ok::<Owners, Shortage>(
                owners@,
            ),
            order@ == by_target(targets@, targets@.len()),
            small == all_shrunk(*t, specs@, allocs@, before, order@, order@.len()),
        decreases order@.len() - i,
    {
        let layer = order[i];
        proof {
            assert(order@[i as int] < allocs@.len());
            assert(allocs@[layer as int].ok(t.nr_nodes as int));
        }
        if !is_open(&specs[layer]) {
            match grow(t, specs, allocs, owners, layer) {
                Ok(()) => {},
                Err(e) => {
                    proof {
                        lemma_all_grown_stays_refused(
                            *t,
                            specs@,
                            allocs@,
                            small,
                            order@,
                            (i + 1) as nat,
                            order@.len(),
                        );
                    }
                    return Err(e);
                },
            }
        }
        i = i + 1;
    }
    Ok(())
}

/// No two layers that are not open share a CPU, and none of them shares one
/// with an open layer.
pub proof fn law_layers_do_not_share_cpus(
    t: ControlTopology,
    specs: Seq<LayerSpec>,
    owners: Owners,
    a: int,
    b: int,
    cpu: int,
)
    requires
        0 <= a < specs.len(),
        0 <= b < specs.len(),
        a != b,
        specs.len() <= usize::MAX,
        !(specs[a].kind is Open),
        0 <= cpu < t.core_of@.len(),
    ensures
        !(mask_of(t, specs, owners, a)[cpu] && mask_of(t, specs, owners, b)[cpu]),
{
}

/// A layer never splits a core.
pub proof fn law_cores_stay_whole(
    t: ControlTopology,
    specs: Seq<LayerSpec>,
    owners: Owners,
    layer: int,
)
    requires
        0 <= layer < specs.len(),
    ensures
        is_whole(t, mask_of(t, specs, owners, layer)),
{
    let mask = mask_of(t, specs, owners, layer);
    assert forall|core: int|
        0 <= core < t.core_nodes@.len() && #[trigger] has_part(t, mask, core) implies has_whole(
        t,
        mask,
        core,
    ) by {
        let cpu = choose|cpu: int|
            0 <= cpu < mask.len() && #[trigger] t.core_of@[cpu] == core && mask[cpu];
        assert(mask[cpu]);
    }
}

proof fn lemma_freed(owners: Owners, order: Seq<usize>, layer: usize, n: nat, core: int)
    requires
        all_below(order, owners.len() as int),
        0 <= core < owners.len(),
    ensures
        freed(owners, order, layer, n).len() == owners.len(),
        freed(owners, order, layer, n)[core] == owners[core] || (owners[core] == Some(layer)
            && freed(owners, order, layer, n)[core] is None),
    decreases order.len(),
{
    if order.len() > 0 && n > 0 {
        assert(order.last() == order[order.len() - 1]);
        let rest = order.drop_last();
        if owners[order.last() as int] == Some(layer) {
            lemma_freed(
                owners.update(order.last() as int, None),
                rest,
                layer,
                (n - 1) as nat,
                core,
            );
        } else {
            lemma_freed(owners, rest, layer, n, core);
        }
    }
}

proof fn lemma_taken(
    t: ControlTopology,
    spec: LayerSpec,
    owners: Owners,
    order: Seq<usize>,
    layer: usize,
    n: nat,
    core: int,
)
    requires
        all_below(order, owners.len() as int),
        0 <= core < owners.len(),
    ensures
        taken(t, spec, owners, order, layer, n).0.len() == owners.len(),
        taken(t, spec, owners, order, layer, n).0[core] == owners[core] || (owners[core] is None
            && t.may_use(spec, core) && taken(t, spec, owners, order, layer, n).0[core] == Some(
            layer,
        )),
    decreases order.len(),
{
    if order.len() > 0 && n > 0 {
        let first = order[0] as int;
        let rest = order.drop_first();
        assert(all_below(rest, owners.len() as int)) by {
            assert forall|i: int| 0 <= i < rest.len() implies (#[trigger] rest[i])
                < owners.len() by {
                assert(rest[i] == order[i + 1]);
            }
        }
        if t.may_use(spec, first) && owners[first] is None {
            lemma_taken(
                t,
                spec,
                owners.update(first, Some(layer)),
                rest,
                layer,
                (n - 1) as nat,
                core,
            );
        } else {
            lemma_taken(t, spec, owners, rest, layer, n, core);
        }
    }
}

/// Whether one allocation of cores comes from another by giving cores up only.
pub open spec fn only_gave_up(before: Owners, after: Owners) -> bool {
    &&& after.len() == before.len()
    &&& forall|c: int|
        0 <= c < before.len() ==> #[trigger] after[c] == before[c] || after[c] is None
}

/// Whether one allocation of cores comes from another by taking free cores
/// only, each by a layer that may use it.
pub open spec fn only_took(
    t: ControlTopology,
    specs: Seq<LayerSpec>,
    before: Owners,
    after: Owners,
) -> bool {
    &&& after.len() == before.len()
    &&& forall|c: int|
        0 <= c < before.len() ==> #[trigger] after[c] == before[c] || (before[c] is None
            && after[c] is Some && (after[c]->0) < specs.len() && !(
        specs[after[c]->0 as int].kind is Open) && t.may_use(specs[after[c]->0 as int], c))
}

proof fn lemma_shrunk(
    t: ControlTopology,
    allocs: Seq<LayerAlloc>,
    owners: Owners,
    layer: usize,
    n: nat,
)
    requires
        n <= t.nr_nodes,
        orders_ok(t.core_orders@[layer as int]@, t.nr_nodes as int, owners.len() as int),
    ensures
        only_gave_up(owners, shrunk(t, allocs, owners, layer, n)),
    decreases n,
{
    if n > 0 {
        lemma_shrunk(t, allocs, owners, layer, (n - 1) as nat);
        let before = shrunk(t, allocs, owners, layer, (n - 1) as nat);
        let after = shrunk(t, allocs, owners, layer, n);
        let order = t.core_orders@[layer as int]@[n - 1]@;
        let k = excess(
            held(before, order, layer) as int,
            allocs[layer as int].target_on(n - 1),
        );
        assert(all_below(t.core_orders@[layer as int]@[n - 1]@, owners.len() as int));
        if owners.len() > 0 {
            lemma_freed(before, order, layer, k, 0);
        } else if order.len() > 0 {
            assert(order[0] < owners.len());
        }
        assert forall|c: int| 0 <= c < owners.len() implies #[trigger] after[c] == owners[c]
            || after[c] is None by {
            lemma_freed(before, order, layer, k, c);
        }
    }
}

/// In the first half of a round layers only give cores up.
pub proof fn law_shrinking_takes_nothing(
    t: ControlTopology,
    specs: Seq<LayerSpec>,
    allocs: Seq<LayerAlloc>,
    owners: Owners,
    order: Seq<usize>,
    n: nat,
)
    requires
        t.ok(t.core_of@.len() as int, specs.len() as int),
        owners.len() == t.core_nodes@.len(),
        all_below(order, specs.len() as int),
        n <= order.len(),
    ensures
        only_gave_up(owners, all_shrunk(t, specs, allocs, owners, order, n)),
    decreases n,
{
    if n > 0 {
        law_shrinking_takes_nothing(t, specs, allocs, owners, order, (n - 1) as nat);
        let before = all_shrunk(t, specs, allocs, owners, order, (n - 1) as nat);
        let layer = order[order.len() - n];
        assert(layer < specs.len());
        assert(orders_ok(
            t.core_orders@[layer as int]@,
            t.nr_nodes as int,
            t.core_nodes@.len() as int,
        ));
        lemma_shrunk(t, allocs, before, layer, t.nr_nodes as nat);
        let after = all_shrunk(t, specs, allocs, owners, order, n);
        assert forall|c: int| 0 <= c < owners.len() implies #[trigger] after[c] == owners[c]
            || after[c] is None by {
            assert(before[c] == owners[c] || before[c] is None);
        }
    }
}

proof fn lemma_grown(
    t: ControlTopology,
    specs: Seq<LayerSpec>,
    allocs: Seq<LayerAlloc>,
    owners: Owners,
    layer: usize,
    n: nat,
)
    requires
        t.ok(t.core_of@.len() as int, specs.len() as int),
        owners.len() == t.core_nodes@.len(),
        layer < specs.len(),
        !(specs[layer as int].kind is Open),
        n <= t.node_orders@[layer as int]@.len(),
    ensures
        grown(t, specs, allocs, owners, layer, n) is Ok ==> only_took(
            t,
            specs,
            owners,
            grown(t, specs, allocs, owners, layer, n)->Ok_0,
        ),
    decreases n,
{
    if n > 0 {
        lemma_grown(t, specs, allocs, owners, layer, (n - 1) as nat);
        let node = t.node_orders@[layer as int]@[n - 1];
        assert(all_below(t.node_orders@[layer as int]@, t.nr_nodes as int));
        assert(orders_ok(
            t.core_orders@[layer as int]@,
            t.nr_nodes as int,
            t.core_nodes@.len() as int,
        ));
        let order = t.core_orders@[layer as int]@[node as int]@;
        assert(all_below(
            t.core_orders@[layer as int]@[node as int]@,
            t.core_nodes@.len() as int,
        ));
        if grown(t, specs, allocs, owners, layer, n) is Ok {
            let before = grown(t, specs, allocs, owners, layer, (n - 1) as nat)->Ok_0;
            let after = grown(t, specs, allocs, owners, layer, n)->Ok_0;
            let lacks = excess(
                allocs[layer as int].target_on(node as int),
                held(before, order, layer) as int,
            );
            if owners.len() > 0 {
                lemma_taken(t, specs[layer as int], before, order, layer, lacks, 0);
            } else if order.len() > 0 {
                assert(order[0] < owners.len());
            }
            assert forall|c: int| 0 <= c < owners.len() implies #[trigger] after[c] == owners[c]
                || (owners[c] is None && after[c] is Some && (after[c]->0) < specs.len() && !(
            specs[after[c]->0 as int].kind is Open) && t.may_use(
                specs[after[c]->0 as int],
                c,
            )) by {
                lemma_taken(t, specs[layer as int], before, order, layer, lacks, c);
                assert(before[c] == owners[c] || owners[c] is None);
            }
        }
    }
}

/// In the second half of a round a layer takes free cores only, only those it
/// may use, and no layer loses one.
pub proof fn law_growing_takes_free_cores_only(
    t: ControlTopology,
    specs: Seq<LayerSpec>,
    allocs: Seq<LayerAlloc>,
    owners: Owners,
    order: Seq<usize>,
    n: nat,
)
    requires
        t.ok(t.core_of@.len() as int, specs.len() as int),
        owners.len() == t.core_nodes@.len(),
        all_below(order, specs.len() as int),
        n <= order.len(),
    ensures
        all_grown(t, specs, allocs, owners, order, n) is Ok ==> only_took(
            t,
            specs,
            owners,
            all_grown(t, specs, allocs, owners, order, n)->Ok_0,
        ),
    decreases n,
{
    if n > 0 {
        law_growing_takes_free_cores_only(t, specs, allocs, owners, order, (n - 1) as nat);
        let layer = order[n - 1];
        assert(layer < specs.len());
        if all_grown(t, specs, allocs, owners, order, n) is Ok {
            let before = all_grown(t, specs, allocs, owners, order, (n - 1) as nat)->Ok_0;
            let after = all_grown(t, specs, allocs, owners, order, n)->Ok_0;
            if !(specs[layer as int].kind is Open) {
                lemma_grown(
                    t,
                    specs,
                    allocs,
                    before,
                    layer,
                    t.node_orders@[layer as int]@.len(),
                );
                assert forall|c: int| 0 <= c < owners.len() implies #[trigger] after[c]
                    == owners[c] || (owners[c] is None && after[c] is Some && (after[c]->0)
                    < specs.len() && !(specs[after[c]->0 as int].kind is Open) && t.may_use(
                    specs[after[c]->0 as int],
                    c,
                )) by {
                    assert(before[c] == owners[c] || owners[c] is None);
                }
            }
        }
    }
}

proof fn lemma_held_after(
    owners: Owners,
    order: Seq<usize>,
    layer: usize,
    core: usize,
    who: Option<usize>,
)
    requires
        core < owners.len(),
        all_below(order, owners.len() as int),
        !order.contains(core),
    ensures
        held(owners.update(core as int, who), order, layer) == held(owners, order, layer),
    decreases order.len(),
{
    if order.len() > 0 {
        let rest = order.drop_last();
        assert(order[order.len() - 1] == order.last());
        assert(order.contains(order.last()));
        assert forall|x: usize| rest.contains(x) implies order.contains(x) by {
            let i = choose|i: int| 0 <= i < rest.len() && rest[i] == x;
            assert(order[i] == x);
        }
        assert(!rest.contains(core));
        lemma_held_after(owners, rest, layer, core, who);
    }
}

proof fn lemma_held_from_front(owners: Owners, order: Seq<usize>, layer: usize)
    requires
        order.len() > 0,
    ensures
        held(owners, order, layer) == held(owners, order.drop_first(), layer) + (if owners[
        order[0] as int] == Some(layer) {
            1nat
        } else {
            0nat
        }),
    decreases order.len(),
{
    if order.len() == 1 {
        assert(order.drop_last() =~= Seq::<usize>::empty());
        assert(order.drop_first() =~= Seq::<usize>::empty());
        reveal_with_fuel(held, 2);
    } else {
        lemma_held_from_front(owners, order.drop_last(), layer);
        assert(order.drop_last().drop_first() =~= order.drop_first().drop_last());
        assert(order.drop_first().last() == order.last());
        assert(order.drop_last()[0] == order[0]);
    }
}

/// What a layer takes it holds: after taking from a list that names no core
/// twice, it holds as many more of them as it asked for, less what it still
/// lacks.
pub proof fn law_cores_taken_are_held(
    t: ControlTopology,
    spec: LayerSpec,
    owners: Owners,
    order: Seq<usize>,
    layer: usize,
    n: nat,
)
    requires
        all_below(order, owners.len() as int),
        order.no_duplicates(),
    ensures
        held(taken(t, spec, owners, order, layer, n).0, order, layer) + taken(
            t,
            spec,
            owners,
            order,
            layer,
            n,
        ).1 == held(owners, order, layer) + n,
    decreases order.len(),
{
    if order.len() > 0 && n > 0 {
        let core = order[0];
        let rest = order.drop_first();
        assert forall|i: int| 0 <= i < rest.len() implies (#[trigger] rest[i]) < owners.len() by {
            assert(rest[i] == order[i + 1]);
        }
        assert(!rest.contains(core)) by {
            if rest.contains(core) {
                let i = choose|i: int| 0 <= i < rest.len() && rest[i] == core;
                assert(order[i + 1] == order[0]);
            }
        }
        assert(rest.no_duplicates()) by {
            assert forall|i: int, j: int|
                0 <= i < rest.len() && 0 <= j < rest.len() && i != j implies rest[i]
                != rest[j] by {
                assert(rest[i] == order[i + 1] && rest[j] == order[j + 1]);
            }
        }
        let takes = t.may_use(spec, core as int) && owners[core as int] is None;
        let now = if takes {
            owners.update(core as int, Some(layer))
        } else {
            owners
        };
        let m = if takes {
            (n - 1) as nat
        } else {
            n
        };
        law_cores_taken_are_held(t, spec, now, rest, layer, m);
        let after = taken(t, spec, owners, order, layer, n).0;
        assert(after == taken(t, spec, now, rest, layer, m).0);
        lemma_held_from_front(after, order, layer);
        lemma_held_from_front(owners, order, layer);
        lemma_held_after(owners, rest, layer, core, Some(layer));
        lemma_taken_elsewhere(t, spec, now, rest, layer, m, core);
    }
}

proof fn lemma_taken_elsewhere(
    t: ControlTopology,
    spec: LayerSpec,
    owners: Owners,
    order: Seq<usize>,
    layer: usize,
    n: nat,
    core: usize,
)
    requires
        all_below(order, owners.len() as int),
        !order.contains(core),
        core < owners.len(),
    ensures
        taken(t, spec, owners, order, layer, n).0[core as int] == owners[core as int],
    decreases order.len(),
{
    if order.len() > 0 && n > 0 {
        let first = order[0];
        let rest = order.drop_first();
        assert(order.contains(first));
        assert forall|i: int| 0 <= i < rest.len() implies (#[trigger] rest[i]) < owners.len() by {
            assert(rest[i] == order[i + 1]);
        }
        assert(!rest.contains(core)) by {
            if rest.contains(core) {
                let i = choose|i: int| 0 <= i < rest.len() && rest[i] == core;
                assert(order[i + 1] == core);
            }
        }
        if t.may_use(spec, first as int) && owners[first as int] is None {
            lemma_taken_elsewhere(
                t,
                spec,
                owners.update(first as int, Some(layer)),
                rest,
                layer,
                (n - 1) as nat,
                core,
            );
        } else {
            lemma_taken_elsewhere(t, spec, owners, rest, layer, n, core);
        }
    }
}

/// Why layers cannot be controlled.
pub enum ControlRefusal {
    NoPeriod,
    NoCpus,
    NoThreads,
    /// A layer that is not open is pinned to CPUs.
    Pinned(String),
    /// A layer that is not open has no utilization range.
    NoUtilRange(String),
    BadUtilRange(String),
    BadCpuRange(String),
    /// The algorithm spreads over cpuset domains.
    NeedsCpusets(LayerGrowthAlgo),
    BadTopology,
    /// A layer trades caches, and there is more than one.
    TradesCaches,
    /// A layer names a node that does not exist.
    UnknownNode,
    /// A layer names a cache that does not exist.
    UnknownLlc,
}

/// A refusal as contracts see it.
pub enum RefusalView {
    NoPeriod,
    NoCpus,
    NoThreads,
    Pinned(Seq<char>),
    NoUtilRange(Seq<char>),
    BadUtilRange(Seq<char>),
    BadCpuRange(Seq<char>),
    NeedsCpusets(LayerGrowthAlgo),
    BadTopology,
    TradesCaches,
    UnknownNode,
    UnknownLlc,
}

impl View for ControlRefusal {
    type V = RefusalView;

    open spec fn view(&self) -> RefusalView {
        match self {
            ControlRefusal::NoPeriod => RefusalView::NoPeriod,
            ControlRefusal::NoCpus => RefusalView::NoCpus,
            ControlRefusal::NoThreads => RefusalView::NoThreads,
            ControlRefusal::Pinned(name) => RefusalView::Pinned(name@),
            ControlRefusal::NoUtilRange(name) => RefusalView::NoUtilRange(name@),
            ControlRefusal::BadUtilRange(name) => RefusalView::BadUtilRange(name@),
            ControlRefusal::BadCpuRange(name) => RefusalView::BadCpuRange(name@),
            ControlRefusal::NeedsCpusets(algo) => RefusalView::NeedsCpusets(*algo),
            ControlRefusal::BadTopology => RefusalView::BadTopology,
            ControlRefusal::TradesCaches => RefusalView::TradesCaches,
            ControlRefusal::UnknownNode => RefusalView::UnknownNode,
            ControlRefusal::UnknownLlc => RefusalView::UnknownLlc,
        }
    }
}

/// The name of a growth algorithm.
pub open spec fn algo_name(a: LayerGrowthAlgo) -> Seq<char> {
    match a {
        LayerGrowthAlgo::Sticky => "Sticky"@,
        LayerGrowthAlgo::Linear => "Linear"@,
        LayerGrowthAlgo::Reverse => "Reverse"@,
        LayerGrowthAlgo::Random => "Random"@,
        LayerGrowthAlgo::Topo => "Topo"@,
        LayerGrowthAlgo::RoundRobin => "RoundRobin"@,
        LayerGrowthAlgo::BigLittle => "BigLittle"@,
        LayerGrowthAlgo::LittleBig => "LittleBig"@,
        LayerGrowthAlgo::NodeSpread => "NodeSpread"@,
        LayerGrowthAlgo::NodeSpreadReverse => "NodeSpreadReverse"@,
        LayerGrowthAlgo::NodeSpreadRandom => "NodeSpreadRandom"@,
        LayerGrowthAlgo::CpuSetSpread => "CpuSetSpread"@,
        LayerGrowthAlgo::CpuSetSpreadReverse => "CpuSetSpreadReverse"@,
        LayerGrowthAlgo::CpuSetSpreadRandom => "CpuSetSpreadRandom"@,
        LayerGrowthAlgo::RandomTopo => "RandomTopo"@,
        LayerGrowthAlgo::StickyDynamic => "StickyDynamic"@,
    }
}

fn name_of_algo(a: LayerGrowthAlgo) -> (r: &'static str)
    ensures
        r@ == algo_name(a),
{
    match a {
        LayerGrowthAlgo::Sticky => "Sticky",
        LayerGrowthAlgo::Linear => "Linear",
        LayerGrowthAlgo::Reverse => "Reverse",
        LayerGrowthAlgo::Random => "Random",
        LayerGrowthAlgo::Topo => "Topo",
        LayerGrowthAlgo::RoundRobin => "RoundRobin",
        LayerGrowthAlgo::BigLittle => "BigLittle",
        LayerGrowthAlgo::LittleBig => "LittleBig",
        LayerGrowthAlgo::NodeSpread => "NodeSpread",
        LayerGrowthAlgo::NodeSpreadReverse => "NodeSpreadReverse",
        LayerGrowthAlgo::NodeSpreadRandom => "NodeSpreadRandom",
        LayerGrowthAlgo::CpuSetSpread => "CpuSetSpread",
        LayerGrowthAlgo::CpuSetSpreadReverse => "CpuSetSpreadReverse",
        LayerGrowthAlgo::CpuSetSpreadRandom => "CpuSetSpreadRandom",
        LayerGrowthAlgo::RandomTopo => "RandomTopo",
        LayerGrowthAlgo::StickyDynamic => "StickyDynamic",
    }
}

/// What a refusal says.
pub open spec fn refusal_text(r: RefusalView) -> Seq<char> {
    match r {
        RefusalView::NoPeriod => "layered control period must be positive"@,
        RefusalView::NoCpus => "layered control needs at least one CPU"@,
        RefusalView::NoThreads => "layered control needs at least one thread per core"@,
        RefusalView::Pinned(name) => "Tier-3 control cannot resize explicitly pinned layer "@
            + shown_quoted(name),
        RefusalView::NoUtilRange(name) =>
        "Tier-3 control requires util_range for non-open layer "@ + shown_quoted(name),
        RefusalView::BadUtilRange(name) => "invalid util range for "@ + shown_quoted(name),
        RefusalView::BadCpuRange(name) => "invalid CPU range for "@ + shown_quoted(name),
        RefusalView::NeedsCpusets(algo) => algo_name(algo)
            + " requires cgroup-cpuset topology, which scxsim does not model"@,
        RefusalView::BadTopology => "invalid layered control topology"@,
        RefusalView::TradesCaches =>
        "StickyDynamic on multiple LLCs requires production's runtime LLC-trading loop"@,
        RefusalView::UnknownNode => "a layer names a node that does not exist"@,
        RefusalView::UnknownLlc => "a layer names an LLC that does not exist"@,
    }
}

impl ControlRefusal {
    /// What the refusal says.
    pub fn message(&self) -> (r: String)
        ensures
            r@ == refusal_text(self@),
    {
        match self {
            ControlRefusal::NoPeriod => "layered control period must be positive".to_string(),
            ControlRefusal::NoCpus => "layered control needs at least one CPU".to_string(),
            ControlRefusal::NoThreads =>
            "layered control needs at least one thread per core".to_string(),
            ControlRefusal::Pinned(name) => plus(
                "Tier-3 control cannot resize explicitly pinned layer ".to_string(),
                quoted(name.as_str()).as_str(),
            ),
            ControlRefusal::NoUtilRange(name) => plus(
                "Tier-3 control requires util_range for non-open layer ".to_string(),
                quoted(name.as_str()).as_str(),
            ),
            ControlRefusal::BadUtilRange(name) => plus(
                "invalid util range for ".to_string(),
                quoted(name.as_str()).as_str(),
            ),
            ControlRefusal::BadCpuRange(name) => plus(
                "invalid CPU range for ".to_string(),
                quoted(name.as_str()).as_str(),
            ),
            ControlRefusal::NeedsCpusets(algo) => plus(
                name_of_algo(*algo).to_string(),
                " requires cgroup-cpuset topology, which scxsim does not model",
            ),
            ControlRefusal::BadTopology => "invalid layered control topology".to_string(),
            ControlRefusal::TradesCaches =>
            "StickyDynamic on multiple LLCs requires production's runtime LLC-trading loop".to_string(),
            ControlRefusal::UnknownNode => "a layer names a node that does not exist".to_string(),
            ControlRefusal::UnknownLlc => "a layer names an LLC that does not exist".to_string(),
        }
    }
}

/// Why a layer cannot be controlled on this many CPUs.
pub open spec fn layer_refusal(spec: LayerSpec, nr_cpus: int) -> Option<RefusalView> {
    if spec.kind is Open {
        None
    } else if spec.cpus is Some {
        Some(RefusalView::Pinned(spec.name@))
    } else if spec.util_range is None {
        Some(RefusalView::NoUtilRange(spec.name@))
    } else if !(Double::spec_zero().le((spec.util_range->0).0) && (spec.util_range->0).0.lt(
        (spec.util_range->0).1,
    )) {
        Some(RefusalView::BadUtilRange(spec.name@))
    } else if spec.cpus_range is Some && !((spec.cpus_range->0).0 <= (spec.cpus_range->0).1 <= nr_cpus) {
        Some(RefusalView::BadCpuRange(spec.name@))
    } else if spec.growth_algo.spec_needs_cpusets() {
        Some(RefusalView::NeedsCpusets(spec.growth_algo))
    } else {
        None
    }
}

/// Why one of the first `n` layers cannot be controlled; the first reason.
pub open spec fn layers_refusal(specs: Seq<LayerSpec>, nr_cpus: int, n: nat) -> Option<
    RefusalView,
>
    decreases n,
{
    if n == 0 {
        None
    } else {
        match layers_refusal(specs, nr_cpus, (n - 1) as nat) {
            Some(r) => Some(r),
            None => layer_refusal(specs[n - 1], nr_cpus),
        }
    }
}

/// Why a layer does not fit the machine.
pub open spec fn fit_refusal(spec: LayerSpec, t: ControlTopology) -> Option<RefusalView> {
    if !all_below(spec.nodes@, t.nr_nodes as int) {
        Some(RefusalView::UnknownNode)
    } else if !all_below(spec.llcs@, t.llc_nodes@.len() as int) {
        Some(RefusalView::UnknownLlc)
    } else {
        None
    }
}

/// Why one of the first `n` layers does not fit the machine; the first reason.
pub open spec fn fits_refusal(specs: Seq<LayerSpec>, t: ControlTopology, n: nat) -> Option<
    RefusalView,
>
    decreases n,
{
    if n == 0 {
        None
    } else {
        match fits_refusal(specs, t, (n - 1) as nat) {
            Some(r) => Some(r),
            None => fit_refusal(specs[n - 1], t),
        }
    }
}

/// Whether a layer trades caches.
pub open spec fn some_trades(specs: Seq<LayerSpec>) -> bool {
    exists|l: int| 0 <= l < specs.len() && (#[trigger] specs[l]).growth_algo is StickyDynamic
}

/// Why layers cannot be controlled; the first reason.
pub open spec fn refusal(
    period_ns: u64,
    nr_cpus: usize,
    threads_per_core: usize,
    topology: ControlTopology,
    specs: Seq<LayerSpec>,
) -> Option<RefusalView> {
    if period_ns == 0 {
        Some(RefusalView::NoPeriod)
    } else if nr_cpus == 0 {
        Some(RefusalView::NoCpus)
    } else if threads_per_core == 0 {
        Some(RefusalView::NoThreads)
    } else if layers_refusal(specs, nr_cpus as int, specs.len()) is Some {
        layers_refusal(specs, nr_cpus as int, specs.len())
    } else if !topology.ok(nr_cpus as int, specs.len() as int) {
        Some(RefusalView::BadTopology)
    } else if topology.llc_nodes@.len() != 1 && some_trades(specs) {
        Some(RefusalView::TradesCaches)
    } else {
        fits_refusal(specs, topology, specs.len())
    }
}

fn refuse_layer(spec: &LayerSpec, nr_cpus: usize) -> (r: Option<ControlRefusal>)
    ensures
        match r {
            Some(e) => layer_refusal(*spec, nr_cpus as int) == Some(e@),
            None => layer_refusal(*spec, nr_cpus as int) is None,
        },
{
    if is_open(spec) {
        return None;
    }
    if spec.cpus.is_some() {
        return Some(ControlRefusal::Pinned(spec.name.clone()));
    }
    let (low, high) = match spec.util_range {
        Some(range) => range,
        None => {
            return Some(ControlRefusal::NoUtilRange(spec.name.clone()));
        },
    };
    if !(Double(0).is_at_most(low) && low.is_less(high)) {
        return Some(ControlRefusal::BadUtilRange(spec.name.clone()));
    }
    if let Some((min, max)) = spec.cpus_range {
        if !(min <= max && max <= nr_cpus) {
            return Some(ControlRefusal::BadCpuRange(spec.name.clone()));
        }
    }
    if spec.growth_algo.needs_cpusets() {
        return Some(ControlRefusal::NeedsCpusets(spec.growth_algo));
    }
    None
}

proof fn lemma_refusals_stay(specs: Seq<LayerSpec>, nr_cpus: int, t: ControlTopology, a: nat, b: nat)
    requires
        a <= b,
    ensures
        layers_refusal(specs, nr_cpus, a) is Some ==> layers_refusal(specs, nr_cpus, b)
            == layers_refusal(specs, nr_cpus, a),
        fits_refusal(specs, t, a) is Some ==> fits_refusal(specs, t, b) == fits_refusal(
            specs,
            t,
            a,
        ),
    decreases b,
{
    if a < b {
        lemma_refusals_stay(specs, nr_cpus, t, a, (b - 1) as nat);
    }
}

/// Why layers cannot be controlled, if they cannot.
pub fn refuse(
    period_ns: u64,
    nr_cpus: usize,
    threads_per_core: usize,
    topology: &ControlTopology,
    specs: &Vec<LayerSpec>,
) -> (r: Option<ControlRefusal>)
    ensures
        match r {
            Some(e) => refusal(period_ns, nr_cpus, threads_per_core, *topology, specs@) == Some(
                e@,
            ),
            None => refusal(period_ns, nr_cpus, threads_per_core, *topology, specs@) is None,
        },
{
    if period_ns == 0 {
        return Some(ControlRefusal::NoPeriod);
    }
    if nr_cpus == 0 {
        return Some(ControlRefusal::NoCpus);
    }
    if threads_per_core == 0 {
        return Some(ControlRefusal::NoThreads);
    }
    let mut l: usize = 0;
    while l < specs.len()
        invariant
            l <= specs@.len(),
            period_ns > 0,
            nr_cpus > 0,
            threads_per_core > 0,
            layers_refusal(specs@, nr_cpus as int, l as nat) is None,
        decreases specs@.len() - l,
    {
        match refuse_layer(&specs[l], nr_cpus) {
            Some(e) => {
                proof {
                    lemma_refusals_stay(
                        specs@,
                        nr_cpus as int,
                        *topology,
                        (l + 1) as nat,
                        specs@.len(),
                    );
                }
                return Some(e);
            },
            None => {},
        }
        l = l + 1;
    }
    if !topology.is_ok(nr_cpus, specs.len()) {
        return Some(ControlRefusal::BadTopology);
    }
    let mut trades = false;
    let mut k: usize = 0;
    while k < specs.len()
        invariant
            k <= specs@.len(),
            trades <==> exists|l: int|
                0 <= l < k && (#[trigger] specs@[l]).growth_algo is StickyDynamic,
        decreases specs@.len() - k,
    {
        if matches!(specs[k].growth_algo, LayerGrowthAlgo::StickyDynamic) {
            proof {
                assert(specs@[k as int].growth_algo is StickyDynamic);
            }
            trades = true;
        }
        k = k + 1;
    }
    if topology.llc_nodes.len() != 1 && trades {
        return Some(ControlRefusal::TradesCaches);
    }
    let mut m: usize = 0;
    while m < specs.len()
        invariant
            m <= specs@.len(),
            period_ns > 0,
            nr_cpus > 0,
            threads_per_core > 0,
            layers_refusal(specs@, nr_cpus as int, specs@.len()) is None,
            topology.ok(nr_cpus as int, specs@.len() as int),
            !(topology.llc_nodes@.len() != 1 && some_trades(specs@)),
            fits_refusal(specs@, *topology, m as nat) is None,
        decreases specs@.len() - m,
    {
        let r = if !is_all_below(&specs[m].nodes, topology.nr_nodes) {
            Some(ControlRefusal::UnknownNode)
        } else if !is_all_below(&specs[m].llcs, topology.llc_nodes.len()) {
            Some(ControlRefusal::UnknownLlc)
        } else {
            None
        };
        if r.is_some() {
            proof {
                lemma_refusals_stay(
                    specs@,
                    nr_cpus as int,
                    *topology,
                    (m + 1) as nat,
                    specs@.len(),
                );
            }
            return r;
        }
        m = m + 1;
    }
    None
}

/// A layer that is refused is named: whoever is not refused has, for every
/// layer that is not open, a proper utilization range, a proper range of CPUs
/// and an algorithm that needs no cpusets, and names existing nodes and caches.
pub proof fn law_accepted_layers_are_proper(
    period_ns: u64,
    nr_cpus: usize,
    threads_per_core: usize,
    topology: ControlTopology,
    specs: Seq<LayerSpec>,
    layer: int,
)
    requires
        refusal(period_ns, nr_cpus, threads_per_core, topology, specs) is None,
        0 <= layer < specs.len(),
    ensures
        layer_refusal(specs[layer], nr_cpus as int) is None,
        fit_refusal(specs[layer], topology) is None,
{
    lemma_refusals_stay(specs, nr_cpus as int, topology, (layer + 1) as nat, specs.len());
}

/// Rows as contracts see them.
pub open spec fn rows<T>(v: Seq<Vec<T>>) -> Seq<Seq<T>> {
    v.map_values(|row: Vec<T>| row@)
}

/// Whether there are so many rows of so many entries.
pub open spec fn is_grid<T>(v: Seq<Seq<T>>, n: int, m: int) -> bool {
    v.len() == n && forall|i: int| 0 <= i < n ==> (#[trigger] v[i]).len() == m
}

/// The counters and masks that a round starts from.
pub struct LayeredControlSnapshot {
    /// For each layer, the time used on its own and on open CPUs.
    pub usages: Vec<(u64, u64)>,
    /// For each layer and node, the time used.
    pub node_usages: Vec<Vec<u64>>,
    /// For each layer and node, the time used by pinned tasks.
    pub node_pinned_usages: Vec<Vec<u64>>,
    /// For each layer and node, the time that tasks were runnable.
    pub node_duty_raw: Vec<Vec<u64>>,
    /// For each layer, the CPUs that it has.
    pub cpu_masks: Vec<Vec<bool>>,
}

/// What the counters grew by since the round before.
pub struct UsageDeltas {
    pub usages: Vec<(u64, u64)>,
    pub node_usages: Vec<Vec<u64>>,
    pub node_pinned_usages: Vec<Vec<u64>>,
    pub node_duty: Vec<Vec<u64>>,
}

/// How far a counter grew; 0 where it fell.
pub open spec fn grew(current: u64, previous: u64) -> u64 {
    excess(current as int, previous as int) as u64
}

/// How far each counter of a row grew.
pub open spec fn row_growth(current: Seq<u64>, previous: Seq<u64>) -> Seq<u64> {
    Seq::new(current.len(), |i: int| grew(current[i], previous[i]))
}

/// How far each counter grew.
pub open spec fn growth(current: Seq<Seq<u64>>, previous: Seq<Seq<u64>>) -> Seq<Seq<u64>> {
    Seq::new(current.len(), |i: int| row_growth(current[i], previous[i]))
}

/// How far each pair of counters grew.
pub open spec fn pair_growth(current: Seq<(u64, u64)>, previous: Seq<(u64, u64)>) -> Seq<
    (u64, u64),
> {
    Seq::new(
        current.len(),
        |i: int| (grew(current[i].0, previous[i].0), grew(current[i].1, previous[i].1)),
    )
}

fn measure(current: &Vec<Vec<u64>>, previous: &Vec<Vec<u64>>) -> (r: Vec<Vec<u64>>)
    requires
        current@.len() == previous@.len(),
        forall|i: int|
            0 <= i < current@.len() ==> (#[trigger] current@[i])@.len() == previous@[i]@.len(),
    ensures
        rows(r@) == growth(rows(current@), rows(previous@)),
{
    let mut out: Vec<Vec<u64>> = Vec::new();
    let mut i: usize = 0;
    while i < current.len()
        invariant
            i <= current@.len(),
            current@.len() == previous@.len(),
            forall|i: int|
                0 <= i < current@.len() ==> (#[trigger] current@[i])@.len() == previous@[i]@.len(),
            out@.len() == i,
            forall|k: int|
                0 <= k < i ==> (#[trigger] out@[k])@ == row_growth(current@[k]@, previous@[k]@),
        decreases current@.len() - i,
    {
        let now = &current[i];
        let before = &previous[i];
        let mut row: Vec<u64> = Vec::new();
        let mut j: usize = 0;
        while j < now.len()
            invariant
                j <= now@.len(),
                now@.len() == before@.len(),
                row@ == row_growth(now@, before@).take(j as int),
            decreases now@.len() - j,
        {
            row.push(now[j].saturating_sub(before[j]));
            j = j + 1;
            proof {
                assert(row@ =~= row_growth(now@, before@).take(j as int));
            }
        }
        proof {
            assert(row@ =~= row_growth(now@, before@));
        }
        out.push(row);
        i = i + 1;
    }
    proof {
        assert(rows(out@) =~= growth(rows(current@), rows(previous@)));
    }
    out
}

fn measure_pairs(current: &Vec<(u64, u64)>, previous: &Vec<(u64, u64)>) -> (r: Vec<(u64, u64)>)
    requires
        current@.len() == previous@.len(),
    ensures
        r@ == pair_growth(current@, previous@),
{
    let mut out: Vec<(u64, u64)> = Vec::new();
    let mut i: usize = 0;
    while i < current.len()
        invariant
            i <= current@.len(),
            current@.len() == previous@.len(),
            out@ == pair_growth(current@, previous@).take(i as int),
        decreases current@.len() - i,
    {
        let a = current[i].0.saturating_sub(previous[i].0);
        let b = current[i].1.saturating_sub(previous[i].1);
        out.push((a, b));
        i = i + 1;
        proof {
            assert(out@ =~= pair_growth(current@, previous@).take(i as int));
        }
    }
    proof {
        assert(out@ =~= pair_growth(current@, previous@));
    }
    out
}

/// How many of the first `n` CPUs a mask has.
pub open spec fn count_set(mask: Seq<bool>, n: nat) -> nat
    decreases n,
{
    if n == 0 {
        0
    } else {
        count_set(mask, (n - 1) as nat) + (if mask[n - 1] {
            1nat
        } else {
            0nat
        })
    }
}

fn count_mask(mask: &Vec<bool>) -> (r: usize)
    ensures
        r == count_set(mask@, mask@.len()),
        r <= mask@.len(),
{
    let mut count: usize = 0;
    let mut i: usize = 0;
    while i < mask.len()
        invariant
            i <= mask@.len(),
            count <= i,
            count == count_set(mask@, i as nat),
        decreases mask@.len() - i,
    {
        if mask[i] {
            count = count + 1;
        }
        i = i + 1;
    }
    count
}

/// How many of the first `n` CPUs a mask has on a node.
pub open spec fn count_on(t: ControlTopology, mask: Seq<bool>, node: usize, n: nat) -> nat
    decreases n,
{
    if n == 0 {
        0
    } else {
        count_on(t, mask, node, (n - 1) as nat) + (if mask[n - 1] && t.core_nodes@[t.core_of@[n
            - 1] as int] == node {
            1nat
        } else {
            0nat
        })
    }
}

/// How many CPUs a mask has on each node.
pub open spec fn counts_of(t: ControlTopology, mask: Seq<bool>) -> Seq<usize> {
    Seq::new(t.nr_nodes as nat, |n: int| count_on(t, mask, n as usize, mask.len()) as usize)
}

proof fn lemma_count_on(t: ControlTopology, mask: Seq<bool>, node: usize, n: nat)
    ensures
        count_on(t, mask, node, n) <= n,
    decreases n,
{
    if n > 0 {
        lemma_count_on(t, mask, node, (n - 1) as nat);
    }
}

fn node_counts(t: &ControlTopology, mask: &Vec<bool>) -> (r: Vec<usize>)
    requires
        t.core_of@.len() == mask@.len(),
        all_below(t.core_of@, t.core_nodes@.len() as int),
    ensures
        r@ == counts_of(*t, mask@),
{
    let mut counts: Vec<usize> = Vec::new();
    let mut node: usize = 0;
    while node < t.nr_nodes
        invariant
            node <= t.nr_nodes,
            t.core_of@.len() == mask@.len(),
            all_below(t.core_of@, t.core_nodes@.len() as int),
            counts@ == counts_of(*t, mask@).take(node as int),
        decreases t.nr_nodes - node,
    {
        let mut count: usize = 0;
        let mut cpu: usize = 0;
        while cpu < mask.len()
            invariant
                cpu <= mask@.len(),
                t.core_of@.len() == mask@.len(),
                all_below(t.core_of@, t.core_nodes@.len() as int),
                count <= cpu,
                count == count_on(*t, mask@, node, cpu as nat),
            decreases mask@.len() - cpu,
        {
            let core = t.core_of[cpu];
            if mask[cpu] && t.core_nodes[core] == node {
                count = count + 1;
            }
            cpu = cpu + 1;
        }
        counts.push(count);
        node = node + 1;
        proof {
            assert(counts@ =~= counts_of(*t, mask@).take(node as int));
        }
    }
    proof {
        assert(counts@ =~= counts_of(*t, mask@));
    }
    counts
}

/// What a layer needs by its smoothed utilization.
pub struct LayerNeeds {
    /// The fewest CPUs on which the utilization stays within range.
    pub low: usize,
    /// The most CPUs on which the utilization stays within range.
    pub high: usize,
    /// For each node, the CPUs that pinned tasks need.
    pub pinned: Vec<usize>,
}

/// A number brought into a range.
pub open spec fn clamped(x: usize, low: usize, high: usize) -> usize {
    if x < low {
        low
    } else if x > high {
        high
    } else {
        x
    }
}

fn clamp(x: usize, low: usize, high: usize) -> (r: usize)
    ensures
        r == clamped(x, low, high),
{
    if x < low {
        low
    } else if x > high {
        high
    } else {
        x
    }
}

/// A quotient rounded up.
pub open spec fn ceil_div(a: nat, b: nat) -> nat {
    if a % b == 0 {
        a / b
    } else {
        a / b + 1
    }
}

fn div_up(a: usize, b: usize) -> (r: usize)
    requires
        b > 0,
    ensures
        r == ceil_div(a as nat, b as nat),
        r <= a,
{
    proof {
        assert(a as nat / b as nat <= a) by (nonlinear_arith)
            requires
                b > 0,
        ;
        assert(a as nat % b as nat != 0 ==> (a as nat / b as nat) + 1 <= a) by (nonlinear_arith)
            requires
                b > 0,
        ;
    }
    if a % b == 0 {
        a / b
    } else {
        a / b + 1
    }
}

/// The CPUs that a layer with `current` of them should have, and the least it
/// may have.
pub open spec fn wanted(spec: LayerSpec, nr_cpus: usize, current: usize, needs: LayerNeeds) -> (
    usize,
    usize,
) {
    if spec.kind is Open {
        (0, 0)
    } else {
        let (min, max) = match spec.cpus_range {
            Some(range) => range,
            None => (0usize, nr_cpus),
        };
        (clamped(clamped(current, needs.low, needs.high), min, max), min)
    }
}

/// The target for this round: a layer gives up at most half of what it has too
/// much, and never goes below its least.
pub open spec fn dampened(current: usize, target: usize, min: usize) -> int {
    if target < current {
        let halfway = current - ceil_div((current - target) as nat, 2);
        if halfway < min {
            min as int
        } else {
            halfway
        }
    } else {
        target as int
    }
}

/// A dampened layer keeps at least half of what it has too much, and reaches
/// its target in the end: it comes closer in every round.
pub proof fn law_shrinking_goes_halfway(current: usize, target: usize, min: usize)
    requires
        target < current,
        min <= target,
    ensures
        target <= dampened(current, target, min) < current,
        dampened(current, target, min) - target <= (current - target) / 2,
        current - dampened(current, target, min) <= (current - target + 1) / 2,
{
}

fn dampen(current: usize, target: usize, min: usize) -> (r: usize)
    ensures
        r == dampened(current, target, min),
{
    if target < current {
        let halfway = current - div_up(current - target, 2);
        if halfway < min {
            min
        } else {
            halfway
        }
    } else {
        target
    }
}

/// What a layer asks of the allocator, in cores.
pub struct LayerDemand {
    /// For each node, the cores that pinned tasks need.
    pub raw_pinned: Vec<usize>,
    /// The cores needed beyond those.
    pub raw_unpinned: usize,
    pub weight: usize,
    /// Every node gets an equal share.
    pub spread: bool,
}

/// The cores that pinned tasks of a layer need on a node.
pub open spec fn pinned_demand(
    t: ControlTopology,
    spec: LayerSpec,
    threads_per_core: usize,
    needs: LayerNeeds,
    node: int,
) -> usize {
    if !(spec.kind is Open) && t.may_use_node(spec, node as usize) {
        ceil_div(needs.pinned@[node] as nat, threads_per_core as nat) as usize
    } else {
        0
    }
}

/// Whether a demand is what a layer asks for.
pub open spec fn is_demand(
    t: ControlTopology,
    spec: LayerSpec,
    nr_cpus: usize,
    threads_per_core: usize,
    mask: Seq<bool>,
    needs: LayerNeeds,
    d: LayerDemand,
) -> bool {
    let current = count_set(mask, mask.len()) as usize;
    let (target, min) = wanted(spec, nr_cpus, current, needs);
    &&& d.raw_pinned@.len() == t.nr_nodes
    &&& forall|n: int|
        0 <= n < t.nr_nodes ==> #[trigger] d.raw_pinned@[n] == pinned_demand(
            t,
            spec,
            threads_per_core,
            needs,
            n,
        )
    &&& d.raw_unpinned == if spec.kind is Open {
        0
    } else {
        excess(
            ceil_div(dampened(current, target, min) as nat, threads_per_core as nat) as int,
            sum_of(d.raw_pinned@, t.nr_nodes as nat) as int,
        )
    }
    &&& d.weight == spec.weight
    &&& d.spread == (!(spec.kind is Open) && spec.growth_algo.spec_spreads())
}

fn demand_of(
    t: &ControlTopology,
    spec: &LayerSpec,
    nr_cpus: usize,
    threads_per_core: usize,
    mask: &Vec<bool>,
    needs: &LayerNeeds,
) -> (r: LayerDemand)
    requires
        threads_per_core > 0,
        needs.pinned@.len() == t.nr_nodes,
        all_below(spec.llcs@, t.llc_nodes@.len() as int),
    ensures
        is_demand(*t, *spec, nr_cpus, threads_per_core, mask@, *needs, r),
{
    let current = count_mask(mask);
    let open = is_open(spec);
    let (target, min) = if open {
        (0, 0)
    } else {
        let (min, max) = match spec.cpus_range {
            Some(range) => range,
            None => (0, nr_cpus),
        };
        (clamp(clamp(current, needs.low, needs.high), min, max), min)
    };
    let mut left = if open {
        0
    } else {
        div_up(dampen(current, target, min), threads_per_core)
    };
    let ghost units = left;
    let mut pinned: Vec<usize> = Vec::new();
    let mut n: usize = 0;
    while n < t.nr_nodes
        invariant
            n <= t.nr_nodes,
            threads_per_core > 0,
            open == (spec.kind is Open),
            needs.pinned@.len() == t.nr_nodes,
            all_below(spec.llcs@, t.llc_nodes@.len() as int),
            pinned@.len() == n,
            forall|k: int|
                0 <= k < n ==> #[trigger] pinned@[k] == pinned_demand(
                    *t,
                    *spec,
                    threads_per_core,
                    *needs,
                    k,
                ),
            left == excess(units as int, sum_of(pinned@, n as nat) as int),
        decreases t.nr_nodes - n,
    {
        let cores = if !open && t.node_allowed(spec, n) {
            div_up(needs.pinned[n], threads_per_core)
        } else {
            0
        };
        let ghost so_far = pinned@;
        pinned.push(cores);
        left = left.saturating_sub(cores);
        proof {
            lemma_sum_same(so_far, pinned@, n as nat);
        }
        n = n + 1;
    }
    LayerDemand {
        raw_pinned: pinned,
        raw_unpinned: left,
        weight: spec.weight as usize,
        spread: !open && spec.growth_algo.spreads(),
    }
}

proof fn lemma_sum_same(a: Seq<usize>, b: Seq<usize>, n: nat)
    requires
        n <= a.len(),
        n <= b.len(),
        forall|i: int| 0 <= i < n ==> a[i] == b[i],
    ensures
        sum_of(a, n) == sum_of(b, n),
    decreases n,
{
    if n > 0 {
        lemma_sum_same(a, b, (n - 1) as nat);
    }
}

/// So many rows of the same entries.
pub open spec fn grid<T>(x: T, n: nat, m: nat) -> Seq<Seq<T>> {
    Seq::new(n, |i: int| Seq::new(m, |j: int| x))
}

fn filled_row<T: Copy>(x: T, m: usize) -> (r: Vec<T>)
    ensures
        r@ == Seq::new(m as nat, |j: int| x),
{
    let mut row: Vec<T> = Vec::new();
    let mut j: usize = 0;
    while j < m
        invariant
            j <= m,
            row@ == Seq::new(j as nat, |j: int| x),
        decreases m - j,
    {
        row.push(x);
        j = j + 1;
        proof {
            assert(row@ =~= Seq::new(j as nat, |j: int| x));
        }
    }
    row
}

fn filled_grid<T: Copy>(x: T, n: usize, m: usize) -> (r: Vec<Vec<T>>)
    ensures
        rows(r@) == grid(x, n as nat, m as nat),
{
    let mut out: Vec<Vec<T>> = Vec::new();
    let mut i: usize = 0;
    while i < n
        invariant
            i <= n,
            rows(out@) == grid(x, i as nat, m as nat),
        decreases n - i,
    {
        let ghost before = out@;
        let row = filled_row(x, m);
        out.push(row);
        i = i + 1;
        proof {
            assert(rows(before).len() == before.len());
            assert(rows(out@) =~= rows(before).push(row@));
            assert(rows(out@) =~= grid(x, i as nat, m as nat));
        }
    }
    proof {
        assert(rows(out@) =~= grid(x, n as nat, m as nat));
    }
    out
}

/// The control loop.
pub struct LayeredControl {
    period_ns: u64,
    nr_cpus: usize,
    threads_per_core: usize,
    specs: Vec<LayerSpec>,
    topology: ControlTopology,
    previous_usages: Vec<(u64, u64)>,
    previous_node_usages: Vec<Vec<u64>>,
    previous_node_pinned_usages: Vec<Vec<u64>>,
    previous_node_duty_raw: Vec<Vec<u64>>,
    growth_denied: Vec<Vec<bool>>,
    growth_denied_counts: Vec<Vec<u64>>,
    xnuma_mig_src: Vec<Vec<bool>>,
}

/// The control loop as contracts see it.
#[verifier::ext_equal]
pub struct ControlView {
    pub period_ns: u64,
    pub nr_cpus: usize,
    pub threads_per_core: usize,
    pub specs: Seq<LayerSpec>,
    pub topology: ControlTopology,
    /// The counters of the round before.
    pub usages: Seq<(u64, u64)>,
    pub node_usages: Seq<Seq<u64>>,
    pub node_pinned_usages: Seq<Seq<u64>>,
    pub node_duty_raw: Seq<Seq<u64>>,
    /// For each layer and node, whether growth was refused in the last round.
    pub denied: Seq<Seq<bool>>,
    /// For each layer and node, in how many rounds growth was refused.
    pub denials: Seq<Seq<u64>>,
    /// For each layer and node, whether tasks may migrate from it.
    pub sources: Seq<Seq<bool>>,
}

impl ControlView {
    pub open spec fn nr_layers(self) -> nat {
        self.specs.len()
    }

    pub open spec fn nr_nodes(self) -> nat {
        self.topology.nr_nodes as nat
    }

    /// Whether a grid has a row for each layer and an entry for each node.
    pub open spec fn per_node<T>(self, v: Seq<Seq<T>>) -> bool {
        is_grid(v, self.nr_layers() as int, self.nr_nodes() as int)
    }

    /// What holds at all times.
    pub open spec fn ok(self) -> bool {
        &&& refusal(
            self.period_ns,
            self.nr_cpus,
            self.threads_per_core,
            self.topology,
            self.specs,
        ) is None
        &&& self.usages.len() == self.nr_layers()
        &&& self.per_node(self.node_usages)
        &&& self.per_node(self.node_pinned_usages)
        &&& self.per_node(self.node_duty_raw)
        &&& self.per_node(self.denied)
        &&& self.per_node(self.denials)
        &&& self.per_node(self.sources)
    }

    /// Whether there is a mask of every CPU for each layer.
    pub open spec fn masks_ok(self, masks: Seq<Seq<bool>>) -> bool {
        is_grid(masks, self.nr_layers() as int, self.nr_cpus as int)
    }

    /// Whether a snapshot says something of every layer, node and CPU.
    pub open spec fn snapshot_ok(self, s: LayeredControlSnapshot) -> bool {
        &&& s.usages@.len() == self.nr_layers()
        &&& self.per_node(rows(s.node_usages@))
        &&& self.per_node(rows(s.node_pinned_usages@))
        &&& self.per_node(rows(s.node_duty_raw@))
        &&& self.masks_ok(rows(s.cpu_masks@))
    }
}

impl View for LayeredControl {
    type V = ControlView;

    closed spec fn view(&self) -> ControlView {
        ControlView {
            period_ns: self.period_ns,
            nr_cpus: self.nr_cpus,
            threads_per_core: self.threads_per_core,
            specs: self.specs@,
            topology: self.topology,
            usages: self.previous_usages@,
            node_usages: rows(self.previous_node_usages@),
            node_pinned_usages: rows(self.previous_node_pinned_usages@),
            node_duty_raw: rows(self.previous_node_duty_raw@),
            denied: rows(self.growth_denied@),
            denials: rows(self.growth_denied_counts@),
            sources: rows(self.xnuma_mig_src@),
        }
    }
}

/// The outcome of a settled round.
pub struct Settled {
    /// The CPUs of each layer.
    pub cpu_masks: Vec<Vec<bool>>,
    /// The CPUs that each layer was given.
    pub targets: Vec<usize>,
    /// The CPUs of each layer on each node before the round.
    pub previous_node_cpus: Vec<Vec<usize>>,
    /// The CPUs of each layer on each node after the round.
    pub current_node_cpus: Vec<Vec<usize>>,
    /// Those of them that are not for pinned tasks.
    pub unpinned_cpus: Vec<Vec<usize>>,
}

/// Why a round cannot be settled.
#[derive(Clone, Copy, Debug, PartialEq, Eq, Structural)]
pub enum SettleError {
    /// A layer was given more CPUs than can be counted.
    TooLarge { layer: usize },
    /// A layer free to use any core found too few on a node.
    Shortage { layer: usize, node: usize },
}

/// The CPUs that a layer was given.
pub open spec fn target_cpus(alloc: LayerAlloc, threads_per_core: usize) -> int {
    alloc.spec_total() * threads_per_core
}

/// The first of the layers from `from` on that was given too many CPUs.
pub open spec fn first_too_large(
    allocs: Seq<LayerAlloc>,
    threads_per_core: usize,
    from: int,
) -> Option<usize>
    decreases allocs.len() - from,
{
    if from < 0 || from >= allocs.len() {
        None
    } else if target_cpus(allocs[from], threads_per_core) > usize::MAX {
        Some(from as usize)
    } else {
        first_too_large(allocs, threads_per_core, from + 1)
    }
}

/// The CPUs that each layer was given.
pub open spec fn targets_of(allocs: Seq<LayerAlloc>, threads_per_core: usize) -> Seq<usize> {
    Seq::new(allocs.len(), |l: int| target_cpus(allocs[l], threads_per_core) as usize)
}

fn count_targets(allocs: &Vec<LayerAlloc>, threads_per_core: usize) -> (r: Result<
    Vec<usize>,
    usize,
>)
    requires
        threads_per_core > 0,
    ensures
        match r {
            Ok(t) => first_too_large(allocs@, threads_per_core, 0) is None && t@ == targets_of(
                allocs@,
                threads_per_core,
            ),
            Err(l) => first_too_large(allocs@, threads_per_core, 0) == Some(l),
        },
{
    let mut targets: Vec<usize> = Vec::new();
    let mut l: usize = 0;
    while l < allocs.len()
        invariant
            l <= allocs@.len(),
            threads_per_core > 0,
            targets@ == targets_of(allocs@, threads_per_core).take(l as int),
            first_too_large(allocs@, threads_per_core, 0) == first_too_large(
                allocs@,
                threads_per_core,
                l as int,
            ),
        decreases allocs@.len() - l,
    {
        let cpus = match allocs[l].total() {
            Some(cores) => cores.checked_mul(threads_per_core),
            None => None,
        };
        proof {
            let total = allocs@[l as int].spec_total();
            assert(total > usize::MAX ==> total * threads_per_core > usize::MAX)
                by (nonlinear_arith)
                requires
                    threads_per_core > 0,
            ;
        }
        match cpus {
            Some(n) => {
                targets.push(n);
            },
            None => {
                return Err(l);
            },
        }
        l = l + 1;
        proof {
            assert(targets@ =~= targets_of(allocs@, threads_per_core).take(l as int));
        }
    }
    proof {
        assert(targets@ =~= targets_of(allocs@, threads_per_core));
    }
    Ok(targets)
}

/// What is left of a layer's CPUs on each node beside those for pinned tasks.
pub open spec fn unpinned_of(
    counts: Seq<usize>,
    alloc: LayerAlloc,
    threads_per_core: usize,
) -> Seq<usize> {
    Seq::new(
        counts.len(),
        |n: int| excess(counts[n] as int, alloc.pinned@[n] * threads_per_core) as usize,
    )
}

fn count_unpinned(counts: &Vec<usize>, alloc: &LayerAlloc, threads_per_core: usize) -> (r: Vec<
    usize,
>)
    requires
        alloc.pinned@.len() == counts@.len(),
    ensures
        r@ == unpinned_of(counts@, *alloc, threads_per_core),
{
    let mut out: Vec<usize> = Vec::new();
    let mut n: usize = 0;
    while n < counts.len()
        invariant
            n <= counts@.len(),
            alloc.pinned@.len() == counts@.len(),
            out@ == unpinned_of(counts@, *alloc, threads_per_core).take(n as int),
        decreases counts@.len() - n,
    {
        let left = match alloc.pinned[n].checked_mul(threads_per_core) {
            Some(cpus) => counts[n].saturating_sub(cpus),
            None => 0,
        };
        out.push(left);
        n = n + 1;
        proof {
            assert(out@ =~= unpinned_of(counts@, *alloc, threads_per_core).take(n as int));
        }
    }
    proof {
        assert(out@ =~= unpinned_of(counts@, *alloc, threads_per_core));
    }
    out
}

/// The CPUs of each layer.
pub open spec fn masks_of(t: ControlTopology, specs: Seq<LayerSpec>, owners: Owners) -> Seq<
    Seq<bool>,
> {
    Seq::new(specs.len(), |l: int| mask_of(t, specs, owners, l))
}

/// The CPUs of each layer on each node.
pub open spec fn all_counts(t: ControlTopology, masks: Seq<Seq<bool>>) -> Seq<Seq<usize>> {
    Seq::new(masks.len(), |l: int| counts_of(t, masks[l]))
}

/// What is left of each layer's CPUs beside those for pinned tasks.
pub open spec fn all_unpinned(
    counts: Seq<Seq<usize>>,
    allocs: Seq<LayerAlloc>,
    threads_per_core: usize,
) -> Seq<Seq<usize>> {
    Seq::new(counts.len(), |l: int| unpinned_of(counts[l], allocs[l], threads_per_core))
}

/// Whether no mask splits a core and the layers that are not open share none.
pub open spec fn holdings_ok(t: ControlTopology, specs: Seq<LayerSpec>, masks: Seq<Seq<bool>>) -> bool {
    &&& forall|l: int| 0 <= l < masks.len() ==> is_whole(t, #[trigger] masks[l])
    &&& forall|a: int, b: int|
        0 <= a < b < masks.len() && !(specs[a].kind is Open) && !(specs[b].kind is Open)
            ==> #[trigger] apart(t, masks[a], masks[b])
}

impl LayeredControl {
    /// What holds at all times.
    pub open spec fn wf(&self) -> bool {
        self@.ok()
    }

    /// A control loop that has seen nothing yet.
    pub fn new(
        period_ns: u64,
        nr_cpus: usize,
        threads_per_core: usize,
        topology: ControlTopology,
        specs: Vec<LayerSpec>,
    ) -> (r: Result<LayeredControl, ControlRefusal>)
        ensures
            match r {
                Ok(c) => {
                    &&& refusal(period_ns, nr_cpus, threads_per_core, topology, specs@) is None
                    &&& c.wf()
                    &&& c@ == (ControlView {
                        period_ns,
                        nr_cpus,
                        threads_per_core,
                        specs: specs@,
                        topology,
                        usages: Seq::new(specs@.len(), |l: int| (0u64, 0u64)),
                        node_usages: grid(0u64, specs@.len(), topology.nr_nodes as nat),
                        node_pinned_usages: grid(0u64, specs@.len(), topology.nr_nodes as nat),
                        node_duty_raw: grid(0u64, specs@.len(), topology.nr_nodes as nat),
                        denied: grid(false, specs@.len(), topology.nr_nodes as nat),
                        denials: grid(0u64, specs@.len(), topology.nr_nodes as nat),
                        sources: grid(false, specs@.len(), topology.nr_nodes as nat),
                    })
                },
                Err(e) => refusal(period_ns, nr_cpus, threads_per_core, topology, specs@)
                    == Some(e@),
            },
    {
        match refuse(period_ns, nr_cpus, threads_per_core, &topology, &specs) {
            Some(e) => {
                return Err(e);
            },
            None => {},
        }
        let layers = specs.len();
        let nodes = topology.nr_nodes;
        Ok(
            LayeredControl {
                period_ns,
                nr_cpus,
                threads_per_core,
                previous_usages: filled_row((0, 0), layers),
                previous_node_usages: filled_grid(0, layers, nodes),
                previous_node_pinned_usages: filled_grid(0, layers, nodes),
                previous_node_duty_raw: filled_grid(0, layers, nodes),
                growth_denied: filled_grid(false, layers, nodes),
                growth_denied_counts: filled_grid(0, layers, nodes),
                xnuma_mig_src: filled_grid(false, layers, nodes),
                specs,
                topology,
            },
        )
    }

    /// The time between rounds.
    pub fn period_ns(&self) -> (r: u64)
        ensures
            r == self@.period_ns,
    {
        self.period_ns
    }

    /// Whether the time that a layer used on open CPUs counts: it says so, or
    /// it has no CPU of its own.
    pub fn counts_open_time(&self, layer: usize, mask: &Vec<bool>) -> (r: bool)
        requires
            layer < self@.nr_layers(),
        ensures
            r == (self@.specs[layer as int].util_includes_open_cputime || count_set(
                mask@,
                mask@.len(),
            ) == 0),
    {
        self.specs[layer].util_includes_open_cputime || count_mask(mask) == 0
    }

    /// Takes a round's counters and says what they grew by.
    pub fn observe(&mut self, snapshot: LayeredControlSnapshot) -> (r: (
        UsageDeltas,
        Vec<Vec<bool>>,
    ))
        requires
            old(self).wf(),
            old(self)@.snapshot_ok(snapshot),
        ensures
            final(self).wf(),
            final(self)@ == (ControlView {
                usages: snapshot.usages@,
                node_usages: rows(snapshot.node_usages@),
                node_pinned_usages: rows(snapshot.node_pinned_usages@),
                node_duty_raw: rows(snapshot.node_duty_raw@),
                ..old(self)@
            }),
            r.0.usages@ == pair_growth(snapshot.usages@, old(self)@.usages),
            rows(r.0.node_usages@) == growth(
                rows(snapshot.node_usages@),
                old(self)@.node_usages,
            ),
            rows(r.0.node_pinned_usages@) == growth(
                rows(snapshot.node_pinned_usages@),
                old(self)@.node_pinned_usages,
            ),
            rows(r.0.node_duty@) == growth(
                rows(snapshot.node_duty_raw@),
                old(self)@.node_duty_raw,
            ),
            r.1 == snapshot.cpu_masks,
    {
        proof {
            lemma_same_shape(snapshot.node_usages@, self.previous_node_usages@);
            lemma_same_shape(snapshot.node_pinned_usages@, self.previous_node_pinned_usages@);
            lemma_same_shape(snapshot.node_duty_raw@, self.previous_node_duty_raw@);
        }
        let deltas = UsageDeltas {
            usages: measure_pairs(&snapshot.usages, &self.previous_usages),
            node_usages: measure(&snapshot.node_usages, &self.previous_node_usages),
            node_pinned_usages: measure(
                &snapshot.node_pinned_usages,
                &self.previous_node_pinned_usages,
            ),
            node_duty: measure(&snapshot.node_duty_raw, &self.previous_node_duty_raw),
        };
        self.previous_usages = snapshot.usages;
        self.previous_node_usages = snapshot.node_usages;
        self.previous_node_pinned_usages = snapshot.node_pinned_usages;
        self.previous_node_duty_raw = snapshot.node_duty_raw;
        (deltas, snapshot.cpu_masks)
    }

    /// What each layer asks of the allocator.
    pub fn demands(&self, masks: &Vec<Vec<bool>>, needs: &Vec<LayerNeeds>) -> (r: Vec<
        LayerDemand,
    >)
        requires
            self.wf(),
            masks@.len() == self@.nr_layers(),
            needs@.len() == self@.nr_layers(),
            forall|l: int|
                0 <= l < needs@.len() ==> (#[trigger] needs@[l]).pinned@.len() == self@.nr_nodes(),
        ensures
            r@.len() == self@.nr_layers(),
            forall|l: int|
                0 <= l < r@.len() ==> is_demand(
                    self@.topology,
                    self@.specs[l],
                    self@.nr_cpus,
                    self@.threads_per_core,
                    masks@[l]@,
                    needs@[l],
                    #[trigger] r@[l],
                ),
    {
        let mut out: Vec<LayerDemand> = Vec::new();
        let mut l: usize = 0;
        while l < self.specs.len()
            invariant
                l <= self.specs@.len(),
                self.wf(),
                masks@.len() == self@.nr_layers(),
                needs@.len() == self@.nr_layers(),
                forall|l: int|
                    0 <= l < needs@.len() ==> (#[trigger] needs@[l]).pinned@.len()
                        == self@.nr_nodes(),
                out@.len() == l,
                forall|k: int|
                    0 <= k < l ==> is_demand(
                        self@.topology,
                        self@.specs[k],
                        self@.nr_cpus,
                        self@.threads_per_core,
                        masks@[k]@,
                        needs@[k],
                        #[trigger] out@[k],
                    ),
            decreases self.specs@.len() - l,
        {
            proof {
                law_accepted_layers_are_proper(
                    self.period_ns,
                    self.nr_cpus,
                    self.threads_per_core,
                    self.topology,
                    self.specs@,
                    l as int,
                );
                assert(needs@[l as int].pinned@.len() == self@.nr_nodes());
            }
            let d = demand_of(
                &self.topology,
                &self.specs[l],
                self.nr_cpus,
                self.threads_per_core,
                &masks[l],
                &needs[l],
            );
            out.push(d);
            l = l + 1;
        }
        out
    }

    /// Whether no mask splits a core and the layers that are not open share
    /// none.
    pub fn holdings_allowed(&self, masks: &Vec<Vec<bool>>) -> (r: bool)
        requires
            self.wf(),
            self@.masks_ok(rows(masks@)),
        ensures
            r == holdings_ok(self@.topology, self@.specs, rows(masks@)),
    {
        let t = &self.topology;
        proof {
            lemma_rows(masks@);
        }
        let mut l: usize = 0;
        while l < masks.len()
            invariant
                l <= masks@.len(),
                *t == self.topology,
                self.wf(),
                self@.masks_ok(rows(masks@)),
                rows(masks@).len() == masks@.len(),
                forall|k: int| 0 <= k < masks@.len() ==> #[trigger] rows(masks@)[k] == masks@[k]@,
                forall|k: int| 0 <= k < l ==> is_whole(*t, #[trigger] rows(masks@)[k]),
            decreases masks@.len() - l,
        {
            let ghost mask = rows(masks@)[l as int];
            proof {
                assert(mask == masks@[l as int]@);
                assert(mask.len() == self.nr_cpus);
            }
            let mut core: usize = 0;
            while core < t.core_nodes.len()
                invariant
                    core <= t.core_nodes@.len(),
                    l < masks@.len(),
                    *t == self.topology,
                    mask == masks@[l as int]@,
                    mask == rows(masks@)[l as int],
                    rows(masks@).len() == masks@.len(),
                    mask.len() == t.core_of@.len(),
                    forall|c: int|
                        0 <= c < core && #[trigger] has_part(*t, mask, c) ==> has_whole(
                            *t,
                            mask,
                            c,
                        ),
                decreases t.core_nodes@.len() - core,
            {
                if mask_has_part(t, &masks[l], core) && !mask_has_whole(t, &masks[l], core) {
                    proof {
                        assert(!is_whole(*t, rows(masks@)[l as int]));
                    }
                    return false;
                }
                core = core + 1;
            }
            l = l + 1;
        }
        let mut a: usize = 0;
        while a < masks.len()
            invariant
                a <= masks@.len(),
                *t == self.topology,
                self.wf(),
                self@.masks_ok(rows(masks@)),
                rows(masks@).len() == masks@.len(),
                forall|k: int| 0 <= k < masks@.len() ==> #[trigger] rows(masks@)[k] == masks@[k]@,
                forall|i: int, j: int|
                    0 <= i < a && i < j < masks@.len() && !(self.specs@[i].kind is Open) && !(
                    self.specs@[j].kind is Open) ==> #[trigger] apart(
                        *t,
                        rows(masks@)[i],
                        rows(masks@)[j],
                    ),
                forall|k: int|
                    0 <= k < masks@.len() ==> is_whole(*t, #[trigger] rows(masks@)[k]),
            decreases masks@.len() - a,
        {
            let mut b: usize = a + 1;
            while b < masks.len()
                invariant
                    a < b <= masks@.len(),
                    *t == self.topology,
                    self.wf(),
                    self@.masks_ok(rows(masks@)),
                    rows(masks@).len() == masks@.len(),
                    forall|k: int|
                        0 <= k < masks@.len() ==> #[trigger] rows(masks@)[k] == masks@[k]@,
                    forall|j: int|
                        a < j < b && !(self.specs@[a as int].kind is Open) && !(
                        self.specs@[j].kind is Open) ==> #[trigger] apart(
                            *t,
                            rows(masks@)[a as int],
                            rows(masks@)[j],
                        ),
                decreases masks@.len() - b,
            {
                if !is_open(&self.specs[a]) && !is_open(&self.specs[b]) {
                    let mut core: usize = 0;
                    proof {
                        assert(rows(masks@)[a as int] == masks@[a as int]@);
                        assert(rows(masks@)[b as int] == masks@[b as int]@);
                    }
                    while core < t.core_nodes.len()
                        invariant
                            core <= t.core_nodes@.len(),
                            a < b < masks@.len(),
                            *t == self.topology,
                            rows(masks@).len() == masks@.len(),
                            masks@.len() == self.specs@.len(),
                            !(self.specs@[a as int].kind is Open),
                            !(self.specs@[b as int].kind is Open),
                            rows(masks@)[a as int] == masks@[a as int]@,
                            rows(masks@)[b as int] == masks@[b as int]@,
                            masks@[a as int]@.len() == t.core_of@.len(),
                            masks@[b as int]@.len() == t.core_of@.len(),
                            forall|c: int|
                                0 <= c < core ==> !(#[trigger] has_part(
                                    *t,
                                    rows(masks@)[a as int],
                                    c,
                                ) && has_part(*t, rows(masks@)[b as int], c)),
                        decreases t.core_nodes@.len() - core,
                    {
                        if mask_has_part(t, &masks[a], core) && mask_has_part(t, &masks[b], core) {
                            proof {
                                assert(!apart(
                                    *t,
                                    rows(masks@)[a as int],
                                    rows(masks@)[b as int],
                                ));
                            }
                            return false;
                        }
                        core = core + 1;
                    }
                }
                b = b + 1;
            }
            a = a + 1;
        }
        true
    }
}

proof fn lemma_rows<T>(v: Seq<Vec<T>>)
    ensures
        rows(v).len() == v.len(),
        forall|i: int| 0 <= i < v.len() ==> #[trigger] rows(v)[i] == v[i]@,
{
}

proof fn lemma_same_shape<T>(a: Seq<Vec<T>>, b: Seq<Vec<T>>)
    requires
        rows(a).len() == rows(b).len(),
        forall|i: int| 0 <= i < rows(a).len() ==> (#[trigger] rows(a)[i]).len() == rows(b)[i].len(),
    ensures
        a.len() == b.len(),
        forall|i: int| 0 <= i < a.len() ==> (#[trigger] a[i])@.len() == b[i]@.len(),
{
    assert forall|i: int| 0 <= i < a.len() implies (#[trigger] a[i])@.len() == b[i]@.len() by {
        assert(rows(a)[i].len() == rows(b)[i].len());
    }
}

fn build_masks(t: &ControlTopology, specs: &Vec<LayerSpec>, owners: &Vec<Option<usize>>) -> (r: Vec<
    Vec<bool>,
>)
    requires
        owners@.len() == t.core_nodes@.len(),
        t.core_llcs@.len() == t.core_nodes@.len(),
        all_below(t.core_of@, t.core_nodes@.len() as int),
    ensures
        rows(r@) == masks_of(*t, specs@, owners@),
{
    let mut out: Vec<Vec<bool>> = Vec::new();
    let mut l: usize = 0;
    while l < specs.len()
        invariant
            l <= specs@.len(),
            owners@.len() == t.core_nodes@.len(),
            t.core_llcs@.len() == t.core_nodes@.len(),
            all_below(t.core_of@, t.core_nodes@.len() as int),
            rows(out@) == masks_of(*t, specs@, owners@).take(l as int),
        decreases specs@.len() - l,
    {
        let ghost before = out@;
        let mask = build_mask(t, specs, owners, l);
        out.push(mask);
        proof {
            assert(rows(out@) =~= rows(before).push(mask@));
        }
        l = l + 1;
        proof {
            assert(rows(out@) =~= masks_of(*t, specs@, owners@).take(l as int));
        }
    }
    proof {
        assert(rows(out@) =~= masks_of(*t, specs@, owners@));
    }
    out
}

fn count_all(t: &ControlTopology, masks: &Vec<Vec<bool>>) -> (r: Vec<Vec<usize>>)
    requires
        all_below(t.core_of@, t.core_nodes@.len() as int),
        forall|l: int|
            0 <= l < masks@.len() ==> (#[trigger] masks@[l])@.len() == t.core_of@.len(),
    ensures
        rows(r@) == all_counts(*t, rows(masks@)),
{
    let mut out: Vec<Vec<usize>> = Vec::new();
    let mut l: usize = 0;
    while l < masks.len()
        invariant
            l <= masks@.len(),
            all_below(t.core_of@, t.core_nodes@.len() as int),
            forall|l: int|
                0 <= l < masks@.len() ==> (#[trigger] masks@[l])@.len() == t.core_of@.len(),
            rows(out@) == all_counts(*t, rows(masks@)).take(l as int),
        decreases masks@.len() - l,
    {
        let ghost before = out@;
        let counts = node_counts(t, &masks[l]);
        out.push(counts);
        proof {
            assert(rows(out@) =~= rows(before).push(counts@));
        }
        l = l + 1;
        proof {
            assert(rows(out@) =~= all_counts(*t, rows(masks@)).take(l as int));
        }
    }
    proof {
        assert(rows(out@) =~= all_counts(*t, rows(masks@)));
    }
    out
}

fn count_all_unpinned(
    counts: &Vec<Vec<usize>>,
    allocs: &Vec<LayerAlloc>,
    threads_per_core: usize,
) -> (r: Vec<Vec<usize>>)
    requires
        counts@.len() == allocs@.len(),
        forall|l: int|
            0 <= l < counts@.len() ==> (#[trigger] counts@[l])@.len() == allocs@[l].pinned@.len(),
    ensures
        rows(r@) == all_unpinned(rows(counts@), allocs@, threads_per_core),
{
    let mut out: Vec<Vec<usize>> = Vec::new();
    let mut l: usize = 0;
    while l < counts.len()
        invariant
            l <= counts@.len(),
            counts@.len() == allocs@.len(),
            forall|l: int|
                0 <= l < counts@.len() ==> (#[trigger] counts@[l])@.len()
                    == allocs@[l].pinned@.len(),
            rows(out@) == all_unpinned(rows(counts@), allocs@, threads_per_core).take(l as int),
        decreases counts@.len() - l,
    {
        let ghost before = out@;
        let left = count_unpinned(&counts[l], &allocs[l], threads_per_core);
        out.push(left);
        proof {
            assert(rows(out@) =~= rows(before).push(left@));
        }
        l = l + 1;
        proof {
            assert(rows(out@) =~= all_unpinned(rows(counts@), allocs@, threads_per_core).take(
                l as int,
            ));
        }
    }
    proof {
        assert(rows(out@) =~= all_unpinned(rows(counts@), allocs@, threads_per_core));
    }
    out
}

/// What was measured of a layer on the nodes.
pub struct XnumaMeasure {
    /// Its load on each node.
    pub loads: Vec<NodeLoad>,
    /// For each pair of nodes, the budget of migrations that evens the loads
    /// out.
    pub rates: XnumaRates,
}

/// From which nodes tasks of a layer may migrate, by its loads and its CPUs.
pub open spec fn layer_sources(
    c: ControlView,
    layer: int,
    loads: Seq<NodeLoad>,
    cpus: Seq<usize>,
) -> Seq<bool> {
    sources_of(
        loads,
        cpus,
        c.specs[layer].xnuma_threshold,
        c.specs[layer].xnuma_threshold_delta,
        c.denied[layer],
        c.sources[layer],
    )
}

/// Whether migration between nodes is not limited for a layer.
pub open spec fn gate_is_off(spec: LayerSpec) -> bool {
    spec.xnuma_threshold.0.le(Double::spec_zero()) && spec.xnuma_threshold.1.le(
        Double::spec_zero(),
    )
}

/// Whether growth was refused on a node: it was wanted and did not come.
pub open spec fn was_denied(spec: LayerSpec, wanted: bool, before: usize, after: usize) -> bool {
    spec.util_range is Some && wanted && !(after > before)
}

/// One more, up to the greatest number.
pub open spec fn bumped(n: u64, denied: bool) -> u64 {
    if denied && n < u64::MAX {
        (n + 1) as u64
    } else {
        n
    }
}

impl LayeredControl {
    /// Moves whole cores between the layers until each has what it was given:
    /// layers shrink by descending target, giving up the last cores of their
    /// order, then grow by ascending target, taking the first free ones that
    /// they may use. Open layers get what is left. The masks that come out keep the
    /// rules that a round asks of those that go in.
    pub fn settle(&self, masks: &Vec<Vec<bool>>, allocs: &Vec<LayerAlloc>) -> (r: Result<
        Settled,
        SettleError,
    >)
        requires
            self.wf(),
            self@.masks_ok(rows(masks@)),
            holdings_ok(self@.topology, self@.specs, rows(masks@)),
            allocs@.len() == self@.nr_layers(),
            forall|l: int|
                0 <= l < allocs@.len() ==> (#[trigger] allocs@[l]).ok(self@.nr_nodes() as int),
        ensures
            ({
                let t = self@.topology;
                let specs = self@.specs;
                let tpc = self@.threads_per_core;
                let targets = targets_of(allocs@, tpc);
                let after = reallocated(
                    t,
                    specs,
                    allocs@,
                    owners_under(t, specs, rows(masks@)),
                    targets,
                );
                match r {
                    Ok(s) => {
                        &&& first_too_large(allocs@, tpc, 0) is None
                        &&& after is Ok
                        &&& s.targets@ == targets
                        &&& rows(s.cpu_masks@) == masks_of(t, specs, after->Ok_0)
                        &&& rules_kept(t, specs, rows(s.cpu_masks@))
                        &&& rows(s.previous_node_cpus@) == all_counts(t, rows(masks@))
                        &&& rows(s.current_node_cpus@) == all_counts(
                            t,
                            masks_of(t, specs, after->Ok_0),
                        )
                        &&& rows(s.unpinned_cpus@) == all_unpinned(
                            all_counts(t, masks_of(t, specs, after->Ok_0)),
                            allocs@,
                            tpc,
                        )
                    },
                    Err(SettleError::TooLarge { layer }) => first_too_large(allocs@, tpc, 0)
                        == Some(layer),
                    Err(SettleError::Shortage { layer, node }) => first_too_large(allocs@, tpc, 0)
                        is None && after == Err::<Owners, Shortage>((layer, node)),
                }
            }),
    {
        let targets = match count_targets(allocs, self.threads_per_core) {
            Ok(t) => t,
            Err(layer) => {
                return Err(SettleError::TooLarge { layer });
            },
        };
        proof {
            lemma_rows(masks@);
            assert forall|l: int| 0 <= l < masks@.len() implies (#[trigger] masks@[l])@.len()
                == self.topology.core_of@.len() by {
                assert(rows(masks@)[l].len() == self.nr_cpus);
            }
        }
        let mut owners = find_owners(&self.topology, &self.specs, masks);
        match reallocate(&self.topology, &self.specs, allocs, &mut owners, &targets) {
            Ok(()) => {},
            Err((layer, node)) => {
                return Err(SettleError::Shortage { layer, node });
            },
        }
        let cpu_masks = build_masks(&self.topology, &self.specs, &owners);
        proof {
            lemma_rows(cpu_masks@);
            assert forall|l: int| 0 <= l < cpu_masks@.len() implies (#[trigger] cpu_masks@[l])@.len()
                == self.topology.core_of@.len() by {
                assert(rows(cpu_masks@)[l] == mask_of(self.topology, self.specs@, owners@, l));
            }
        }
        let previous_node_cpus = count_all(&self.topology, masks);
        let current_node_cpus = count_all(&self.topology, &cpu_masks);
        proof {
            lemma_rows(current_node_cpus@);
            assert forall|l: int|
                0 <= l < current_node_cpus@.len() implies (#[trigger] current_node_cpus@[l])@.len()
                == allocs@[l].pinned@.len() by {
                assert(rows(current_node_cpus@)[l] == counts_of(
                    self.topology,
                    rows(cpu_masks@)[l],
                ));
                assert(allocs@[l].ok(self@.nr_nodes() as int));
            }
        }
        let unpinned_cpus = count_all_unpinned(&current_node_cpus, allocs, self.threads_per_core);
        proof {
            assert(self.specs@.len() == self.specs.len());
            law_a_round_keeps_the_rules(
                self.topology,
                self.specs@,
                allocs@,
                rows(masks@),
                targets@,
            );
        }
        Ok(Settled { cpu_masks, targets, previous_node_cpus, current_node_cpus, unpinned_cpus })
    }

    /// Notes on which nodes a layer that wanted to grow did not.
    pub fn note_growth(
        &mut self,
        wanted: &Vec<Vec<bool>>,
        previous: &Vec<Vec<usize>>,
        current: &Vec<Vec<usize>>,
    )
        requires
            old(self).wf(),
            old(self)@.per_node(rows(wanted@)),
            old(self)@.per_node(rows(previous@)),
            old(self)@.per_node(rows(current@)),
        ensures
            final(self).wf(),
            final(self)@ == (ControlView {
                denied: final(self)@.denied,
                denials: final(self)@.denials,
                ..old(self)@
            }),
            forall|l: int, n: int|
                0 <= l < old(self)@.nr_layers() && 0 <= n < old(self)@.nr_nodes()
                    ==> #[trigger] final(self)@.denied[l][n] == was_denied(
                    old(self)@.specs[l],
                    rows(wanted@)[l][n],
                    rows(previous@)[l][n],
                    rows(current@)[l][n],
                ),
            forall|l: int, n: int|
                0 <= l < old(self)@.nr_layers() && 0 <= n < old(self)@.nr_nodes()
                    ==> #[trigger] final(self)@.denials[l][n] == bumped(
                    old(self)@.denials[l][n],
                    final(self)@.denied[l][n],
                ),
    {
        let nodes = self.topology.nr_nodes;
        let ghost start = self@;
        proof {
            lemma_rows(wanted@);
            lemma_rows(previous@);
            lemma_rows(current@);
            lemma_rows(self.growth_denied_counts@);
        }
        let mut denied: Vec<Vec<bool>> = Vec::new();
        let mut counts: Vec<Vec<u64>> = Vec::new();
        let mut l: usize = 0;
        while l < self.specs.len()
            invariant
                l <= self.specs@.len(),
                self@ == start,
                start.ok(),
                nodes == start.nr_nodes(),
                start.per_node(rows(wanted@)),
                start.per_node(rows(previous@)),
                start.per_node(rows(current@)),
                rows(wanted@).len() == wanted@.len(),
                rows(previous@).len() == previous@.len(),
                rows(current@).len() == current@.len(),
                rows(denied@).len() == l,
                rows(counts@).len() == l,
                forall|k: int| 0 <= k < l ==> (#[trigger] rows(denied@)[k]).len() == nodes,
                forall|k: int| 0 <= k < l ==> (#[trigger] rows(counts@)[k]).len() == nodes,
                forall|k: int, n: int|
                    0 <= k < l && 0 <= n < nodes ==> #[trigger] rows(denied@)[k][n] == was_denied(
                        start.specs[k],
                        rows(wanted@)[k][n],
                        rows(previous@)[k][n],
                        rows(current@)[k][n],
                    ),
                forall|k: int, n: int|
                    0 <= k < l && 0 <= n < nodes ==> #[trigger] rows(counts@)[k][n] == bumped(
                        start.denials[k][n],
                        rows(denied@)[k][n],
                    ),
            decreases self.specs@.len() - l,
        {
            let asks = self.specs[l].util_range.is_some();
            let mut row: Vec<bool> = Vec::new();
            let mut count: Vec<u64> = Vec::new();
            let mut n: usize = 0;
            proof {
                assert(rows(wanted@)[l as int].len() == nodes);
                assert(rows(previous@)[l as int].len() == nodes);
                assert(rows(current@)[l as int].len() == nodes);
                assert(start.denials[l as int].len() == nodes);
                assert(rows(self.growth_denied_counts@)[l as int].len() == nodes);
            }
            while n < nodes
                invariant
                    n <= nodes,
                    l < self.specs@.len(),
                    self@ == start,
                    asks == (start.specs[l as int].util_range is Some),
                    start.specs == self.specs@,
                    l < wanted@.len(),
                    l < previous@.len(),
                    l < current@.len(),
                    l < self.growth_denied_counts@.len(),
                    wanted@[l as int]@.len() == nodes,
                    previous@[l as int]@.len() == nodes,
                    current@[l as int]@.len() == nodes,
                    self.growth_denied_counts@[l as int]@.len() == nodes,
                    start.denials[l as int] == self.growth_denied_counts@[l as int]@,
                    row@.len() == n,
                    count@.len() == n,
                    forall|k: int|
                        0 <= k < n ==> #[trigger] row@[k] == was_denied(
                            start.specs[l as int],
                            wanted@[l as int]@[k],
                            previous@[l as int]@[k],
                            current@[l as int]@[k],
                        ),
                    forall|k: int|
                        0 <= k < n ==> #[trigger] count@[k] == bumped(
                            start.denials[l as int][k],
                            row@[k],
                        ),
                decreases nodes - n,
            {
                let refused = asks && wanted[l][n] && !(current[l][n] > previous[l][n]);
                let seen = self.growth_denied_counts[l][n];
                row.push(refused);
                count.push(
                    if refused {
                        seen.saturating_add(1)
                    } else {
                        seen
                    },
                );
                n = n + 1;
            }
            let ghost denied_before = denied@;
            let ghost counts_before = counts@;
            denied.push(row);
            counts.push(count);
            proof {
                assert(rows(denied@) =~= rows(denied_before).push(row@));
                assert(rows(counts@) =~= rows(counts_before).push(count@));
            }
            l = l + 1;
        }
        self.growth_denied = denied;
        self.growth_denied_counts = counts;
    }

    /// For each layer and pair of nodes the budget of migrations, and for each
    /// layer and node whether tasks may migrate from it. With one node nothing
    /// is set. Where the limit is off every pair has an unlimited budget, and
    /// what was known of sources is forgotten. Elsewhere the loads decide which
    /// nodes are sources, and the budgets are those measured.
    pub fn refresh_xnuma(
        &mut self,
        current: &Vec<Vec<usize>>,
        measures: Vec<XnumaMeasure>,
    ) -> (r: (Vec<Vec<Vec<u64>>>, Vec<Vec<bool>>))
        requires
            old(self).wf(),
            old(self)@.per_node(rows(current@)),
            measures@.len() == old(self)@.nr_layers(),
            forall|l: int|
                0 <= l < measures@.len() ==> (#[trigger] measures@[l]).loads@.len() == old(
                    self,
                )@.nr_nodes() && is_grid(
                    rows(measures@[l].rates.rates@),
                    old(self)@.nr_nodes() as int,
                    old(self)@.nr_nodes() as int,
                ),
        ensures
            final(self).wf(),
            final(self)@ == (ControlView { sources: final(self)@.sources, ..old(self)@ }),
            r.0@.len() == old(self)@.nr_layers(),
            r.1@.len() == old(self)@.nr_layers(),
            forall|l: int|
                #![trigger r.0@[l]]
                #![trigger r.1@[l]]
                #![trigger final(self)@.sources[l]]
                0 <= l < old(self)@.nr_layers() ==> ({
                    let nodes = old(self)@.nr_nodes();
                    if nodes <= 1 {
                        &&& rows(r.0@[l]@) == grid(0u64, nodes, nodes)
                        &&& r.1@[l]@ == Seq::new(nodes, |n: int| false)
                        &&& final(self)@.sources[l] == old(self)@.sources[l]
                    } else if gate_is_off(old(self)@.specs[l]) {
                        &&& rows(r.0@[l]@) == grid(u64::MAX, nodes, nodes)
                        &&& r.1@[l]@ == Seq::new(nodes, |n: int| true)
                        &&& final(self)@.sources[l] == Seq::new(nodes, |n: int| false)
                    } else {
                        &&& rows(r.0@[l]@) == rows(measures@[l].rates.rates@)
                        &&& r.1@[l]@ == layer_sources(
                            old(self)@,
                            l,
                            measures@[l].loads@,
                            rows(current@)[l],
                        )
                        &&& final(self)@.sources[l] == r.1@[l]@
                    }
                }),
    {
        let nodes = self.topology.nr_nodes;
        let ghost start = self@;
        let mut rates: Vec<Vec<Vec<u64>>> = Vec::new();
        let mut active: Vec<Vec<bool>> = Vec::new();
        let mut sources: Vec<Vec<bool>> = Vec::new();
        let mut l: usize = 0;
        while l < self.specs.len()
            invariant
                l <= self.specs@.len(),
                self@ == start,
                start.ok(),
                start.per_node(rows(current@)),
                nodes == start.nr_nodes(),
                measures@.len() == start.nr_layers(),
                forall|l: int|
                    0 <= l < measures@.len() ==> (#[trigger] measures@[l]).loads@.len()
                        == start.nr_nodes() && is_grid(
                        rows(measures@[l].rates.rates@),
                        start.nr_nodes() as int,
                        start.nr_nodes() as int,
                    ),
                rates@.len() == l,
                active@.len() == l,
                rows(sources@).len() == l,
                forall|k: int| 0 <= k < l ==> (#[trigger] rows(sources@)[k]).len() == nodes,
                forall|k: int|
                    #![trigger rates@[k]]
                    #![trigger active@[k]]
                    #![trigger rows(sources@)[k]]
                    0 <= k < l ==> ({
                        if nodes <= 1 {
                            &&& rows(rates@[k]@) == grid(0u64, nodes as nat, nodes as nat)
                            &&& active@[k]@ == Seq::new(nodes as nat, |n: int| false)
                            &&& rows(sources@)[k] == start.sources[k]
                        } else if gate_is_off(start.specs[k]) {
                            &&& rows(rates@[k]@) == grid(u64::MAX, nodes as nat, nodes as nat)
                            &&& active@[k]@ == Seq::new(nodes as nat, |n: int| true)
                            &&& rows(sources@)[k] == Seq::new(nodes as nat, |n: int| false)
                        } else {
                            &&& rows(rates@[k]@) == rows(measures@[k].rates.rates@)
                            &&& active@[k]@ == layer_sources(
                                start,
                                k,
                                measures@[k].loads@,
                                rows(current@)[k],
                            )
                            &&& rows(sources@)[k] == active@[k]@
                        }
                    }),
            decreases self.specs@.len() - l,
        {
            let spec = &self.specs[l];
            let ghost before = sources@;
            proof {
                assert(start.sources[l as int].len() == nodes);
                assert(start.sources[l as int] == self.xnuma_mig_src@[l as int]@);
                assert(start.denied[l as int].len() == nodes);
                assert(start.denied[l as int] == self.growth_denied@[l as int]@);
                assert(rows(current@)[l as int].len() == nodes);
                assert(rows(current@)[l as int] == current@[l as int]@);
                assert(measures@[l as int].loads@.len() == nodes);
                lemma_rows(measures@[l as int].rates.rates@);
                lemma_rows(before);
            }
            let source: Vec<bool>;
            if nodes <= 1 {
                rates.push(filled_grid(0, nodes, nodes));
                active.push(filled_row(false, nodes));
                source = copy_row(&self.xnuma_mig_src[l]);
            } else if spec.xnuma_threshold.0.is_at_most(Double(0))
                && spec.xnuma_threshold.1.is_at_most(Double(0)) {
                rates.push(filled_grid(u64::MAX, nodes, nodes));
                active.push(filled_row(true, nodes));
                source = filled_row(false, nodes);
            } else {
                let now = xnuma_check_active(
                    &measures[l].loads,
                    &current[l],
                    spec.xnuma_threshold,
                    spec.xnuma_threshold_delta,
                    &self.growth_denied[l],
                    &self.xnuma_mig_src[l],
                );
                rates.push(copy_grid(&measures[l].rates.rates));
                active.push(copy_row(&now));
                source = now;
            }
            sources.push(source);
            proof {
                assert(rows(sources@) =~= rows(before).push(source@));
            }
            l = l + 1;
        }
        self.xnuma_mig_src = sources;
        (rates, active)
    }

    /// In how many rounds growth of a layer was refused on a node.
    pub fn growth_denied_count(&self, layer: usize, node: usize) -> (r: u64)
        requires
            self.wf(),
            layer < self@.nr_layers(),
            node < self@.nr_nodes(),
        ensures
            r == self@.denials[layer as int][node as int],
    {
        proof {
            lemma_rows(self.growth_denied_counts@);
            assert(rows(self.growth_denied_counts@)[layer as int].len() == self@.nr_nodes());
        }
        self.growth_denied_counts[layer][node]
    }

    /// On which nodes growth of a layer was refused in the last round.
    pub fn growth_denied(&self, layer: usize) -> (r: Vec<bool>)
        requires
            self.wf(),
            layer < self@.nr_layers(),
        ensures
            r@ == self@.denied[layer as int],
    {
        proof {
            lemma_rows(self.growth_denied@);
        }
        copy_row(&self.growth_denied[layer])
    }

    /// From which nodes tasks of a layer may migrate.
    pub fn migration_sources(&self, layer: usize) -> (r: Vec<bool>)
        requires
            self.wf(),
            layer < self@.nr_layers(),
        ensures
            r@ == self@.sources[layer as int],
    {
        proof {
            lemma_rows(self.xnuma_mig_src@);
        }
        copy_row(&self.xnuma_mig_src[layer])
    }
}

fn copy_row<T: Copy>(row: &Vec<T>) -> (r: Vec<T>)
    ensures
        r@ == row@,
{
    let mut out: Vec<T> = Vec::new();
    let mut i: usize = 0;
    while i < row.len()
        invariant
            i <= row@.len(),
            out@ == row@.take(i as int),
        decreases row@.len() - i,
    {
        out.push(row[i]);
        i = i + 1;
        proof {
            assert(out@ =~= row@.take(i as int));
        }
    }
    proof {
        assert(out@ =~= row@);
    }
    out
}

fn copy_grid<T: Copy>(v: &Vec<Vec<T>>) -> (r: Vec<Vec<T>>)
    ensures
        rows(r@) == rows(v@),
{
    let mut out: Vec<Vec<T>> = Vec::new();
    let mut i: usize = 0;
    while i < v.len()
        invariant
            i <= v@.len(),
            rows(out@) == rows(v@).take(i as int),
        decreases v@.len() - i,
    {
        let ghost before = out@;
        let row = copy_row(&v[i]);
        out.push(row);
        proof {
            assert(rows(out@) =~= rows(before).push(row@));
        }
        i = i + 1;
        proof {
            assert(rows(out@) =~= rows(v@).take(i as int));
        }
    }
    proof {
        assert(rows(out@) =~= rows(v@));
    }
    out
}

/// A settled round leaves masks that the next round can start from: no core is
/// split, and the layers that are not open share none.
pub proof fn law_settled_holdings_are_allowed(
    t: ControlTopology,
    specs: Seq<LayerSpec>,
    owners: Owners,
)
    requires
        specs.len() <= usize::MAX,
    ensures
        holdings_ok(t, specs, masks_of(t, specs, owners)),
{
    let masks = masks_of(t, specs, owners);
    assert forall|l: int| 0 <= l < masks.len() implies is_whole(t, #[trigger] masks[l]) by {
        law_cores_stay_whole(t, specs, owners, l);
    }
    assert forall|a: int, b: int|
        0 <= a < b < masks.len() && !(specs[a].kind is Open) && !(
        specs[b].kind is Open) implies #[trigger] apart(t, masks[a], masks[b]) by {
        assert forall|core: int|
            0 <= core < t.core_nodes@.len() implies !(#[trigger] has_part(t, masks[a], core)
            && has_part(t, masks[b], core)) by {
            if has_part(t, masks[a], core) && has_part(t, masks[b], core) {
                let x = choose|cpu: int|
                    0 <= cpu < masks[a].len() && #[trigger] t.core_of@[cpu] == core
                        && masks[a][cpu];
                let y = choose|cpu: int|
                    0 <= cpu < masks[b].len() && #[trigger] t.core_of@[cpu] == core
                        && masks[b][cpu];
                assert(owners[core] == Some(a as usize));
                assert(owners[core] == Some(b as usize));
            }
        }
    }
}

proof fn lemma_owner_found(
    t: ControlTopology,
    specs: Seq<LayerSpec>,
    owners: Owners,
    core: int,
    cpu: int,
    n: nat,
)
    requires
        specs.len() <= usize::MAX,
        n <= specs.len(),
        0 <= core < owners.len(),
        0 <= cpu < t.core_of@.len(),
        t.core_of@[cpu] == core,
        owners[core] is Some ==> (owners[core]->0) < specs.len() && !(
        specs[owners[core]->0 as int].kind is Open),
    ensures
        owner_among(t, specs, masks_of(t, specs, owners), core, n) == if owners[core] is Some && (
        owners[core]->0) < n {
            owners[core]
        } else {
            None
        },
    decreases n,
{
    if n > 0 {
        lemma_owner_found(t, specs, owners, core, cpu, (n - 1) as nat);
        let masks = masks_of(t, specs, owners);
        let l = n - 1;
        if !(specs[l].kind is Open) {
            if owners[core] == Some(l as usize) {
                assert(masks[l][cpu]);
                assert(has_part(t, masks[l], core));
            } else {
                assert(!has_part(t, masks[l], core));
            }
        }
    }
}

/// Whether a core has a CPU.
pub open spec fn has_cpu(t: ControlTopology, core: int) -> bool {
    exists|cpu: int| 0 <= cpu < t.core_of@.len() && #[trigger] t.core_of@[cpu] == core
}

/// The next round finds every core where the round before left it.
pub proof fn law_next_round_finds_the_owners(
    t: ControlTopology,
    specs: Seq<LayerSpec>,
    owners: Owners,
)
    requires
        specs.len() <= usize::MAX,
        owners.len() == t.core_nodes@.len(),
        forall|c: int|
            0 <= c < owners.len() && (#[trigger] owners[c]) is Some ==> (owners[c]->0)
                < specs.len() && !(specs[owners[c]->0 as int].kind is Open),
        forall|c: int| 0 <= c < owners.len() ==> #[trigger] has_cpu(t, c),
    ensures
        owners_under(t, specs, masks_of(t, specs, owners)) == owners,
{
    let found = owners_under(t, specs, masks_of(t, specs, owners));
    assert forall|c: int| 0 <= c < owners.len() implies found[c] == owners[c] by {
        assert(has_cpu(t, c));
        let cpu = choose|cpu: int| 0 <= cpu < t.core_of@.len() && #[trigger] t.core_of@[cpu] == c;
        lemma_owner_found(t, specs, owners, c, cpu, specs.len());
    }
    assert(found =~= owners);
}

/// Whether only layers that are not open hold cores.
pub open spec fn owners_proper(specs: Seq<LayerSpec>, owners: Owners) -> bool {
    forall|c: int|
        0 <= c < owners.len() && (#[trigger] owners[c]) is Some ==> (owners[c]->0) < specs.len()
            && !(specs[owners[c]->0 as int].kind is Open)
}

proof fn lemma_owner_among(
    t: ControlTopology,
    specs: Seq<LayerSpec>,
    masks: Seq<Seq<bool>>,
    core: int,
    n: nat,
)
    requires
        specs.len() <= usize::MAX,
        n <= specs.len(),
    ensures
        match owner_among(t, specs, masks, core, n) {
            Some(l) => l < n && !(specs[l as int].kind is Open),
            None => true,
        },
    decreases n,
{
    if n > 0 {
        lemma_owner_among(t, specs, masks, core, (n - 1) as nat);
    }
}

/// Whether a CPU belongs to no layer that is not open.
pub open spec fn nobody_has(specs: Seq<LayerSpec>, masks: Seq<Seq<bool>>, cpu: int) -> bool {
    forall|l: int|
        0 <= l < masks.len() && !(specs[l].kind is Open) ==> !(#[trigger] masks[l])[cpu]
}

/// Whether there is a mask for each layer with an entry for each CPU, no mask splits
/// a core, layers that are not open share none, and an open layer has exactly the
/// CPUs that no layer that is not open has and that it may use.
pub open spec fn rules_kept(
    t: ControlTopology,
    specs: Seq<LayerSpec>,
    masks: Seq<Seq<bool>>,
) -> bool {
    &&& masks.len() == specs.len()
    &&& forall|l: int| 0 <= l < masks.len() ==> (#[trigger] masks[l]).len() == t.core_of@.len()
    &&& holdings_ok(t, specs, masks)
    &&& forall|l: int, cpu: int|
        0 <= l < masks.len() && specs[l].kind is Open && 0 <= cpu < t.core_of@.len()
            ==> #[trigger] masks[l][cpu] == (t.may_use(specs[l], t.core_of@[cpu] as int)
            && nobody_has(specs, masks, cpu))
}

/// After a round only layers that are not open hold cores, and its masks keep the
/// rules.
pub proof fn law_a_round_keeps_the_rules(
    t: ControlTopology,
    specs: Seq<LayerSpec>,
    allocs: Seq<LayerAlloc>,
    masks: Seq<Seq<bool>>,
    targets: Seq<usize>,
)
    requires
        t.ok(t.core_of@.len() as int, specs.len() as int),
        specs.len() <= usize::MAX,
        targets.len() == specs.len(),
        reallocated(t, specs, allocs, owners_under(t, specs, masks), targets) is Ok,
    ensures
        ({
            let after = reallocated(
                t,
                specs,
                allocs,
                owners_under(t, specs, masks),
                targets,
            )->Ok_0;
            let new = masks_of(t, specs, after);
            &&& after.len() == t.core_nodes@.len()
            &&& owners_proper(specs, after)
            &&& rules_kept(t, specs, new)
        }),
{
    let before = owners_under(t, specs, masks);
    let order = by_target(targets, targets.len());
    law_layers_are_ordered_by_target(targets, targets.len());
    assert(all_below(order, specs.len() as int)) by {
        assert forall|i: int| 0 <= i < order.len() implies (#[trigger] order[i]) < specs.len() by {
            assert(order.contains(order[i]));
        }
    }
    assert forall|c: int| 0 <= c < before.len() && (#[trigger] before[c]) is Some implies (
    before[c]->0) < specs.len() && !(specs[before[c]->0 as int].kind is Open) by {
        lemma_owner_among(t, specs, masks, c, specs.len());
    }
    law_shrinking_takes_nothing(t, specs, allocs, before, order, order.len());
    let mid = all_shrunk(t, specs, allocs, before, order, order.len());
    law_growing_takes_free_cores_only(t, specs, allocs, mid, order, order.len());
    let after = reallocated(t, specs, allocs, before, targets)->Ok_0;
    let new = masks_of(t, specs, after);
    assert forall|c: int| 0 <= c < after.len() && (#[trigger] after[c]) is Some implies (
    after[c]->0) < specs.len() && !(specs[after[c]->0 as int].kind is Open) by {
        if after[c] == mid[c] {
            assert(mid[c] == before[c]);
        }
    }
    law_settled_holdings_are_allowed(t, specs, after);
    assert forall|l: int, cpu: int|
        0 <= l < new.len() && specs[l].kind is Open && 0 <= cpu < t.core_of@.len() implies
        #[trigger] new[l][cpu] == (t.may_use(specs[l], t.core_of@[cpu] as int) && nobody_has(
        specs,
        new,
        cpu,
    )) by {
        let core = t.core_of@[cpu] as int;
        assert(new[l] == mask_of(t, specs, after, l));
        if let Some(k) = after[core] {
            assert(new[k as int] == mask_of(t, specs, after, k as int));
            assert(new[k as int][cpu]);
        } else {
            assert forall|k: int| 0 <= k < new.len() && !(specs[k].kind is Open) implies !(
            #[trigger] new[k])[cpu] by {
                assert(new[k] == mask_of(t, specs, after, k));
            }
        }
    }
}

/// A layer that names nothing may use every core; one that names nodes or caches may use
/// exactly the cores of those, and the nodes that have such a core's cache or are named.
pub proof fn law_layers_use_what_they_name(t: ControlTopology, spec: LayerSpec, core: int, i: int)
    ensures
        spec.nodes@.len() == 0 && spec.llcs@.len() == 0 ==> t.may_use(spec, core),
        0 <= i < spec.nodes@.len() && spec.nodes@[i] == t.core_nodes@[core] ==> t.may_use(
            spec,
            core,
        ),
        0 <= i < spec.llcs@.len() && spec.llcs@[i] == t.core_llcs@[core] ==> t.may_use(spec, core),
        t.may_use(spec, core) && spec.nodes@.len() + spec.llcs@.len() > 0 ==> exists|k: int|
            (0 <= k < spec.nodes@.len() && #[trigger] spec.nodes@[k] == t.core_nodes@[core]) || (0
                <= k < spec.llcs@.len() && spec.llcs@[k] == t.core_llcs@[core]),
        0 <= i < spec.nodes@.len() ==> t.may_use_node(spec, spec.nodes@[i]),
        0 <= i < spec.llcs@.len() ==> t.may_use_node(spec, t.llc_nodes@[spec.llcs@[i] as int]),
{
    if 0 <= i < spec.nodes@.len() {
        assert(spec.nodes@.contains(spec.nodes@[i]));
    }
    if 0 <= i < spec.llcs@.len() {
        assert(spec.llcs@.contains(spec.llcs@[i]));
    }
    if t.may_use(spec, core) && spec.nodes@.len() + spec.llcs@.len() > 0 {
        if spec.nodes@.contains(t.core_nodes@[core]) {
            let k = choose|k: int|
                0 <= k < spec.nodes@.len() && spec.nodes@[k] == t.core_nodes@[core];
            assert(spec.nodes@[k] == t.core_nodes@[core]);
        } else {
            let k = choose|k: int|
                0 <= k < spec.llcs@.len() && spec.llcs@[k] == t.core_llcs@[core];
            let _ = spec.nodes@[k];
            assert((0 <= k < spec.nodes@.len() && spec.nodes@[k] == t.core_nodes@[core]) || (0 <= k
                < spec.llcs@.len() && spec.llcs@[k] == t.core_llcs@[core]));
        }
    }
}

/// A layer gives up exactly as many cores as it is told to, or all that it holds.
pub proof fn law_cores_given_up_are_counted(
    owners: Owners,
    order: Seq<usize>,
    layer: usize,
    n: nat,
)
    requires
        all_below(order, owners.len() as int),
        order.no_duplicates(),
    ensures
        n <= held(owners, order, layer) ==> held(freed(owners, order, layer, n), order, layer) + n
            == held(owners, order, layer),
        n > held(owners, order, layer) ==> held(freed(owners, order, layer, n), order, layer) == 0,
    decreases order.len(),
{
    if order.len() > 0 && n > 0 {
        let rest = order.drop_last();
        let last = order.last();
        assert forall|i: int| 0 <= i < rest.len() implies (#[trigger] rest[i]) < owners.len() by {
            assert(order[i] < owners.len());
        }
        assert(order[order.len() - 1] < owners.len());
        assert(rest.no_duplicates());
        assert(!rest.contains(last)) by {
            if rest.contains(last) {
                let k = choose|k: int| 0 <= k < rest.len() && rest[k] == last;
                assert(order[k] == order[order.len() - 1]);
            }
        }
        let without = if owners[last as int] == Some(layer) {
            owners.update(last as int, None)
        } else {
            owners
        };
        let m: nat = if owners[last as int] == Some(layer) {
            (n - 1) as nat
        } else {
            n
        };
        lemma_held_elsewhere(owners, without, rest, layer, last);
        law_cores_given_up_are_counted(without, rest, layer, m);
        lemma_freed_elsewhere(without, rest, layer, m, last);
    }
}

proof fn lemma_held_elsewhere(a: Owners, b: Owners, order: Seq<usize>, layer: usize, core: usize)
    requires
        b.len() == a.len(),
        forall|c: int| 0 <= c < a.len() && c != core ==> #[trigger] b[c] == a[c],
        all_below(order, a.len() as int),
        !order.contains(core),
    ensures
        held(a, order, layer) == held(b, order, layer),
    decreases order.len(),
{
    if order.len() > 0 {
        let rest = order.drop_last();
        assert forall|i: int| 0 <= i < rest.len() implies (#[trigger] rest[i]) < a.len() by {
            assert(order[i] < a.len());
        }
        assert(!rest.contains(core)) by {
            if rest.contains(core) {
                let k = choose|k: int| 0 <= k < rest.len() && rest[k] == core;
                assert(order[k] == core);
            }
        }
        lemma_held_elsewhere(a, b, rest, layer, core);
        assert(order[order.len() - 1] < a.len());
        assert(order.contains(order[order.len() - 1]));
        assert(b[order.last() as int] == a[order.last() as int]);
    }
}

proof fn lemma_freed_elsewhere(
    owners: Owners,
    order: Seq<usize>,
    layer: usize,
    n: nat,
    core: usize,
)
    requires
        all_below(order, owners.len() as int),
        !order.contains(core),
        core < owners.len(),
    ensures
        freed(owners, order, layer, n).len() == owners.len(),
        freed(owners, order, layer, n)[core as int] == owners[core as int],
    decreases order.len(),
{
    if order.len() > 0 && n > 0 {
        let rest = order.drop_last();
        assert forall|i: int| 0 <= i < rest.len() implies (#[trigger] rest[i]) < owners.len() by {
            assert(order[i] < owners.len());
        }
        assert(!rest.contains(core)) by {
            if rest.contains(core) {
                let k = choose|k: int| 0 <= k < rest.len() && rest[k] == core;
                assert(order[k] == core);
            }
        }
        assert(order.contains(order[order.len() - 1]));
        if owners[order.last() as int] == Some(layer) {
            lemma_freed_elsewhere(
                owners.update(order.last() as int, None),
                rest,
                layer,
                (n - 1) as nat,
                core,
            );
        } else {
            lemma_freed_elsewhere(owners, rest, layer, n, core);
        }
    }
}

/// The cores that a layer gives up first are those at the end of its order, and those that
/// it takes first are those at the beginning.
pub proof fn law_cores_come_and_go_at_opposite_ends(
    t: ControlTopology,
    spec: LayerSpec,
    owners: Owners,
    order: Seq<usize>,
    layer: usize,
)
    requires
        order.len() > 0,
    ensures
        owners[order.last() as int] == Some(layer) ==> freed(owners, order, layer, 1)
            == owners.update(order.last() as int, None),
        t.may_use(spec, order[0] as int) && owners[order[0] as int] is None ==> taken(
            t,
            spec,
            owners,
            order,
            layer,
            1,
        ) == (owners.update(order[0] as int, Some(layer)), 0nat),
        freed(owners, order, layer, 0) == owners,
        taken(t, spec, owners, order, layer, 0) == (owners, 0nat),
{
    reveal_with_fuel(freed, 2);
    reveal_with_fuel(taken, 2);
}

/// A layer that grew on a node and may use any core holds what it was given there, or more
/// if it held more.
pub proof fn law_layers_grow_to_their_target(
    t: ControlTopology,
    specs: Seq<LayerSpec>,
    allocs: Seq<LayerAlloc>,
    owners: Owners,
    layer: usize,
    node: usize,
)
    requires
        ({
            let order = t.core_orders@[layer as int]@[node as int]@;
            all_below(order, owners.len() as int) && order.no_duplicates()
        }),
        grown_on(t, specs, allocs, owners, layer, node) is Ok,
    ensures
        ({
            let order = t.core_orders@[layer as int]@[node as int]@;
            let after = held(
                grown_on(t, specs, allocs, owners, layer, node)->Ok_0,
                order,
                layer,
            );
            let before = held(owners, order, layer);
            let target = allocs[layer as int].pinned@[node as int]
                + allocs[layer as int].unpinned@[node as int];
            &&& before >= target ==> after == before
            &&& before < target ==> before <= after <= target
            &&& before < target && specs[layer as int].nodes@.len() == 0 && specs[
            layer as int].llcs@.len() == 0 ==> after == target
        }),
{
    let order = t.core_orders@[layer as int]@[node as int]@;
    let lacks = excess(
        allocs[layer as int].target_on(node as int),
        held(owners, order, layer) as int,
    );
    law_cores_taken_are_held(t, specs[layer as int], owners, order, layer, lacks);
    lemma_lacks_no_more(t, specs[layer as int], owners, order, layer, lacks);
}

proof fn lemma_lacks_no_more(
    t: ControlTopology,
    spec: LayerSpec,
    owners: Owners,
    order: Seq<usize>,
    layer: usize,
    n: nat,
)
    ensures
        taken(t, spec, owners, order, layer, n).1 <= n,
    decreases order.len(),
{
    if order.len() > 0 && n > 0 {
        let core = order[0] as int;
        if t.may_use(spec, core) && owners[core] is None {
            lemma_lacks_no_more(
                t,
                spec,
                owners.update(core, Some(layer)),
                order.drop_first(),
                layer,
                (n - 1) as nat,
            );
        } else {
            lemma_lacks_no_more(t, spec, owners, order.drop_first(), layer, n);
        }
    }
}

/// A layer that shrank holds on the last node looked at what it was given there, or less
/// if it held less.
pub proof fn law_layers_shrink_to_their_target(
    t: ControlTopology,
    allocs: Seq<LayerAlloc>,
    owners: Owners,
    layer: usize,
    n: nat,
)
    requires
        n > 0,
        ({
            let order = t.core_orders@[layer as int]@[n - 1]@;
            all_below(
                order,
                shrunk(t, allocs, owners, layer, (n - 1) as nat).len() as int,
            ) && order.no_duplicates()
        }),
    ensures
        ({
            let order = t.core_orders@[layer as int]@[n - 1]@;
            let before = held(shrunk(t, allocs, owners, layer, (n - 1) as nat), order, layer);
            let after = held(shrunk(t, allocs, owners, layer, n), order, layer);
            let target = allocs[layer as int].pinned@[n - 1] + allocs[
            layer as int].unpinned@[n - 1];
            &&& before > target ==> after == target
            &&& before <= target ==> after == before
        }),
{
    let order = t.core_orders@[layer as int]@[n - 1]@;
    let before = shrunk(t, allocs, owners, layer, (n - 1) as nat);
    law_cores_given_up_are_counted(
        before,
        order,
        layer,
        excess(held(before, order, layer) as int, allocs[layer as int].target_on(n - 1)),
    );
}

/// The CPUs of a layer are those of the cores it holds; those of an open layer are those of
/// the cores that nobody holds and that it may use.
pub proof fn law_masks_follow_the_owners(
    t: ControlTopology,
    specs: Seq<LayerSpec>,
    owners: Owners,
    layer: int,
    cpu: int,
)
    requires
        0 <= layer < specs.len(),
        specs.len() <= usize::MAX,
        0 <= cpu < t.core_of@.len(),
    ensures
        ({
            let core = t.core_of@[cpu] as int;
            let has = masks_of(t, specs, owners)[layer][cpu];
            &&& masks_of(t, specs, owners).len() == specs.len()
            &&& masks_of(t, specs, owners)[layer].len() == t.core_of@.len()
            &&& !(specs[layer].kind is Open) ==> (has <==> owners[core] == Some(layer as usize))
            &&& specs[layer].kind is Open ==> (has <==> owners[core] is None && t.may_use(
                specs[layer],
                core,
            ))
        }),
{
}

/// A core that exactly one layer that is not open has part of is that layer's; one that no
/// such layer has part of is nobody's.
pub proof fn law_owners_have_part_of_their_cores(
    t: ControlTopology,
    specs: Seq<LayerSpec>,
    masks: Seq<Seq<bool>>,
    core: int,
    layer: int,
)
    requires
        0 <= core < t.core_nodes@.len(),
        specs.len() <= usize::MAX,
    ensures
        ({
            let owner = owners_under(t, specs, masks)[core];
            &&& 0 <= layer < specs.len() && !(specs[layer].kind is Open) && has_part(
                t,
                masks[layer],
                core,
            ) && (forall|l: int|
                0 <= l < specs.len() && l != layer ==> specs[l].kind is Open || !has_part(
                    t,
                    #[trigger] masks[l],
                    core,
                )) ==> owner == Some(layer as usize)
            &&& owner is Some ==> {
                let l = owner->0 as int;
                l < specs.len() && !(specs[l].kind is Open) && has_part(t, masks[l], core)
            }
            &&& owner is None && 0 <= layer < specs.len() && !(specs[layer].kind is Open)
                ==> !has_part(t, masks[layer], core)
        }),
{
    lemma_owner(t, specs, masks, core, specs.len(), layer);
}

proof fn lemma_owner(
    t: ControlTopology,
    specs: Seq<LayerSpec>,
    masks: Seq<Seq<bool>>,
    core: int,
    n: nat,
    layer: int,
)
    requires
        n <= specs.len() <= usize::MAX,
    ensures
        ({
            let owner = owner_among(t, specs, masks, core, n);
            &&& owner is Some ==> {
                let l = owner->0 as int;
                l < n && !(specs[l].kind is Open) && has_part(t, masks[l], core)
            }
            &&& owner is None && 0 <= layer < n && !(specs[layer].kind is Open) ==> !has_part(
                t,
                masks[layer],
                core,
            )
        }),
    decreases n,
{
    if n > 0 {
        lemma_owner(t, specs, masks, core, (n - 1) as nat, layer);
    }
}

/// A layer can be controlled exactly if it is open, or has a utilization range that goes up
/// from zero or more, no CPUs of its own choice, a range of CPUs that goes up and is there,
/// and grows without cpusets.
pub proof fn law_controlled_layers_have_sound_ranges(spec: LayerSpec, nr_cpus: int)
    ensures
        layer_refusal(spec, nr_cpus) is None <==> spec.kind is Open || ({
            let (low, high) = spec.util_range->0;
            &&& spec.cpus is None
            &&& spec.util_range is Some && Double(0).le(low) && low.lt(high)
            &&& spec.cpus_range is Some ==> (spec.cpus_range->0).0 <= (spec.cpus_range->0).1 && (
            spec.cpus_range->0).1 <= nr_cpus
            &&& !(spec.growth_algo is CpuSetSpread) && !(spec.growth_algo is CpuSetSpreadReverse)
                && !(spec.growth_algo is CpuSetSpreadRandom)
        }),
        layer_refusal(spec, nr_cpus) is Some ==> (layer_refusal(spec, nr_cpus)->0 is Pinned
            <==> spec.cpus is Some),
        layer_refusal(spec, nr_cpus) is Some && spec.cpus is None ==> (layer_refusal(
            spec,
            nr_cpus,
        )->0 is NoUtilRange <==> spec.util_range is None),
{
}

/// Layers are refused for the first thing that is wrong: no period, no CPUs, no threads, a
/// layer that cannot be controlled, a machine that does not fit together, caches that
/// would be traded, and a layer that names what does not exist.
pub proof fn law_layers_are_refused_for_the_first_wrong_thing(
    period_ns: u64,
    nr_cpus: usize,
    threads_per_core: usize,
    t: ControlTopology,
    specs: Seq<LayerSpec>,
    l: int,
)
    ensures
        ({
            let r = refusal(period_ns, nr_cpus, threads_per_core, t, specs);
            &&& period_ns == 0 ==> r == Some(RefusalView::NoPeriod)
            &&& period_ns > 0 && nr_cpus == 0 ==> r == Some(RefusalView::NoCpus)
            &&& period_ns > 0 && nr_cpus > 0 && threads_per_core == 0 ==> r == Some(
                RefusalView::NoThreads,
            )
            &&& r is None ==> period_ns > 0 && nr_cpus > 0 && threads_per_core > 0 && t.ok(
                nr_cpus as int,
                specs.len() as int,
            )
            &&& r is None && 0 <= l < specs.len() ==> {
                &&& layer_refusal(specs[l], nr_cpus as int) is None
                &&& specs[l].growth_algo is StickyDynamic ==> t.llc_nodes@.len() == 1
                &&& forall|k: int|
                    0 <= k < specs[l].nodes@.len() ==> (#[trigger] specs[l].nodes@[k]) < t.nr_nodes
                &&& forall|k: int|
                    0 <= k < specs[l].llcs@.len() ==> (#[trigger] specs[l].llcs@[k])
                        < t.llc_nodes@.len()
            }
        }),
{
    if refusal(period_ns, nr_cpus, threads_per_core, t, specs) is None && 0 <= l < specs.len() {
        law_accepted_layers_are_proper(period_ns, nr_cpus, threads_per_core, t, specs, l);
        if specs[l].growth_algo is StickyDynamic {
            assert(some_trades(specs));
        }
    }
}

/// A counter that went up grew by the difference; one that fell did not grow.
pub proof fn law_counters_grow_by_their_difference(
    current: Seq<Seq<u64>>,
    previous: Seq<Seq<u64>>,
    pairs: Seq<(u64, u64)>,
    before: Seq<(u64, u64)>,
    l: int,
    n: int,
)
    requires
        0 <= l < current.len(),
        0 <= n < current[l].len(),
    ensures
        ({
            let g = growth(current, previous)[l][n];
            &&& current[l][n] >= previous[l][n] ==> g + previous[l][n] == current[l][n]
            &&& current[l][n] < previous[l][n] ==> g == 0
        }),
        0 <= l < pairs.len() ==> {
            let (a, b) = pair_growth(pairs, before)[l];
            &&& pairs[l].0 >= before[l].0 ==> a + before[l].0 == pairs[l].0
            &&& pairs[l].1 >= before[l].1 ==> b + before[l].1 == pairs[l].1
            &&& pairs[l].0 < before[l].0 ==> a == 0
            &&& pairs[l].1 < before[l].1 ==> b == 0
        },
{
}

/// A quotient rounded up is the least whole number that covers: so many times the divisor
/// is enough, and once less is not.
pub proof fn law_quotients_are_rounded_up(a: nat, b: nat)
    requires
        b > 0,
    ensures
        ceil_div(a, b) * b >= a,
        a > 0 ==> (ceil_div(a, b) - 1) * b < a,
        ceil_div(0, b) == 0,
{
    let (q, r) = (a / b, a % b);
    vstd::arithmetic::div_mod::lemma_fundamental_div_mod(a as int, b as int);
    assert(b * q == q * b) by (nonlinear_arith);
    assert((q + 1) * b == q * b + b) by (nonlinear_arith);
    assert((q - 1) * b == q * b - b) by (nonlinear_arith);
    assert(0nat / b == 0 && 0nat % b == 0) by (nonlinear_arith)
        requires
            b > 0,
    ;
}

/// What a layer should have lies in its range of CPUs, and is what it has if that covers
/// its needs and no more. A layer without a range may have every CPU; an open one has none
/// of its own.
pub proof fn law_layers_get_what_they_need(
    spec: LayerSpec,
    nr_cpus: usize,
    current: usize,
    needs: LayerNeeds,
)
    requires
        needs.low <= needs.high,
        spec.cpus_range is Some ==> (spec.cpus_range->0).0 <= (spec.cpus_range->0).1,
    ensures
        ({
            let (target, least) = wanted(spec, nr_cpus, current, needs);
            let (min, max) = if spec.cpus_range is Some {
                spec.cpus_range->0
            } else {
                (0usize, nr_cpus)
            };
            let closed = !(spec.kind is Open);
            &&& spec.kind is Open ==> target == 0 && least == 0
            &&& closed ==> least == min && min <= target <= max
            &&& closed && needs.low <= current <= needs.high && min <= current <= max ==> target
                == current
            &&& closed && current < needs.low && min <= needs.low <= max ==> target == needs.low
            &&& closed && current > needs.high && min <= needs.high <= max ==> target
                == needs.high
        }),
{
}

/// A layer that should grow or stay gets what it should have at once; one that should
/// shrink gives up half of what it has too much, rounded up, but keeps its least.
pub proof fn law_growth_is_not_dampened(current: usize, target: usize, min: usize)
    ensures
        target >= current ==> dampened(current, target, min) == target,
        target < current && min <= target ==> 2 * (current - dampened(current, target, min))
            >= current - target && 2 * (current - dampened(current, target, min)) <= current
            - target + 1,
        target < current && min >= current ==> dampened(current, target, min) == min,
{
}

/// What pinned tasks need on a node are whole cores, as many as cover it, where the layer
/// may go; what it needs beyond those is what its target asks for more.
pub proof fn law_demands_cover_what_is_needed(
    t: ControlTopology,
    spec: LayerSpec,
    nr_cpus: usize,
    threads_per_core: usize,
    mask: Seq<bool>,
    needs: LayerNeeds,
    d: LayerDemand,
    node: int,
)
    requires
        is_demand(t, spec, nr_cpus, threads_per_core, mask, needs, d),
        0 <= node < t.nr_nodes,
        threads_per_core > 0,
    ensures
        ({
            let closed = !(spec.kind is Open);
            let there = t.may_use_node(spec, node as usize);
            &&& spec.kind is Open ==> d.raw_pinned@[node] == 0 && d.raw_unpinned == 0 && !d.spread
            &&& closed && !there ==> d.raw_pinned@[node] == 0
            &&& closed && there ==> d.raw_pinned@[node] * threads_per_core >= needs.pinned@[node]
            &&& closed && there && needs.pinned@[node] > 0 ==> (d.raw_pinned@[node] - 1)
                * threads_per_core < needs.pinned@[node]
            &&& d.weight == spec.weight
            &&& closed ==> (d.spread <==> spec.growth_algo is NodeSpread
                || spec.growth_algo is NodeSpreadReverse || spec.growth_algo is NodeSpreadRandom)
        }),
{
    let a = needs.pinned@[node] as nat;
    law_quotients_are_rounded_up(a, threads_per_core as nat);
    assert(ceil_div(a, threads_per_core as nat) <= a) by {
        if a > 0 {
            let c = ceil_div(a, threads_per_core as nat);
            assert(c - 1 < a) by (nonlinear_arith)
                requires
                    (c - 1) * threads_per_core < a,
                    threads_per_core > 0,
                    a > 0,
            ;
        }
    }
    assert(d.raw_pinned@[node] == pinned_demand(t, spec, threads_per_core, needs, node));
}

/// Masks are counted CPU by CPU: one more CPU counts one more, in all and on its own node,
/// and on no other.
pub proof fn law_masks_are_counted_cpu_by_cpu(
    t: ControlTopology,
    mask: Seq<bool>,
    cpu: int,
    node: usize,
    n: nat,
)
    requires
        0 <= cpu < n <= mask.len(),
        !mask[cpu],
    ensures
        ({
            let more = mask.update(cpu, true);
            &&& count_set(more, n) == count_set(mask, n) + 1
            &&& t.core_nodes@[t.core_of@[cpu] as int] == node ==> count_on(t, more, node, n)
                == count_on(t, mask, node, n) + 1
            &&& t.core_nodes@[t.core_of@[cpu] as int] != node ==> count_on(t, more, node, n)
                == count_on(t, mask, node, n)
        }),
    decreases n,
{
    let more = mask.update(cpu, true);
    if cpu < n - 1 {
        law_masks_are_counted_cpu_by_cpu(t, mask, cpu, node, (n - 1) as nat);
    } else {
        lemma_same_count(t, mask, more, node, (n - 1) as nat);
    }
}

proof fn lemma_same_count(
    t: ControlTopology,
    a: Seq<bool>,
    b: Seq<bool>,
    node: usize,
    n: nat,
)
    requires
        forall|i: int| 0 <= i < n ==> #[trigger] a[i] == b[i],
    ensures
        count_set(a, n) == count_set(b, n),
        count_on(t, a, node, n) == count_on(t, b, node, n),
    decreases n,
{
    if n > 0 {
        lemma_same_count(t, a, b, node, (n - 1) as nat);
        assert(a[n - 1] == b[n - 1]);
    }
}

/// A mask without CPUs counts none.
pub proof fn law_an_empty_mask_counts_nothing(
    t: ControlTopology,
    mask: Seq<bool>,
    node: usize,
    n: nat,
)
    requires
        forall|i: int| 0 <= i < n ==> !#[trigger] mask[i],
    ensures
        count_set(mask, n) == 0,
        count_on(t, mask, node, n) == 0,
    decreases n,
{
    if n > 0 {
        law_an_empty_mask_counts_nothing(t, mask, node, (n - 1) as nat);
        assert(!mask[n - 1]);
    }
}

/// What is left beside pinned tasks, what a layer was given in CPUs, and the first that was
/// given more than can be counted.
pub proof fn law_what_is_given_and_left(
    counts: Seq<usize>,
    alloc: LayerAlloc,
    allocs: Seq<LayerAlloc>,
    threads_per_core: usize,
    n: int,
    l: int,
)
    requires
        0 <= n < counts.len(),
        0 <= l < allocs.len(),
    ensures
        ({
            let left = unpinned_of(counts, alloc, threads_per_core)[n];
            let taken = alloc.pinned@[n] * threads_per_core;
            &&& counts[n] >= taken ==> left + taken == counts[n]
            &&& counts[n] < taken ==> left == 0
        }),
        ({
            let total = (sum_of(allocs[l].pinned@, allocs[l].pinned@.len()) + sum_of(
                allocs[l].unpinned@,
                allocs[l].unpinned@.len(),
            )) * threads_per_core;
            &&& 0 <= total <= usize::MAX ==> targets_of(allocs, threads_per_core)[l] == total
            &&& total > usize::MAX ==> first_too_large(allocs, threads_per_core, 0) is Some
                && first_too_large(allocs, threads_per_core, 0)->0 <= l
        }),
{
    assert(alloc.pinned@[n] * threads_per_core >= 0) by (nonlinear_arith);
    lemma_too_large(allocs, threads_per_core, 0, l);
}

proof fn lemma_too_large(allocs: Seq<LayerAlloc>, threads_per_core: usize, from: int, l: int)
    requires
        0 <= from <= l < allocs.len(),
    ensures
        target_cpus(allocs[l], threads_per_core) > usize::MAX && l <= usize::MAX ==> first_too_large(
            allocs,
            threads_per_core,
            from,
        ) is Some && first_too_large(allocs, threads_per_core, from)->0 <= l,
        target_cpus(allocs[l], threads_per_core) > usize::MAX ==> first_too_large(
            allocs,
            threads_per_core,
            from,
        ) is Some,
    decreases l - from,
{
    if from < l && target_cpus(allocs[from], threads_per_core) <= usize::MAX {
        lemma_too_large(allocs, threads_per_core, from + 1, l);
    }
}

/// Growth was refused on a node exactly if it was wanted, by a layer that is sized at all,
/// and did not come; each refusal counts once. Migration is unlimited exactly if neither
/// threshold is above zero.
pub proof fn law_refused_growth_is_counted(
    spec: LayerSpec,
    wanted: bool,
    before: usize,
    after: usize,
    n: u64,
)
    ensures
        was_denied(spec, wanted, before, after) <==> spec.util_range is Some && wanted && after
            <= before,
        n < u64::MAX ==> bumped(n, true) == n + 1,
        bumped(n, false) == n,
        bumped(u64::MAX, true) == u64::MAX,
        gate_is_off(spec) <==> spec.xnuma_threshold.0.le(Double(0)) && spec.xnuma_threshold.1.le(
            Double(0),
        ),
{
}

/// What a refusal says names the layer or the algorithm that it is about.
pub proof fn law_refusals_name_what_they_are_about(name: Seq<char>, a: LayerGrowthAlgo)
    ensures
        refusal_text(RefusalView::NoPeriod) == "layered control period must be positive"@,
        refusal_text(RefusalView::NoCpus) == "layered control needs at least one CPU"@,
        refusal_text(RefusalView::NoThreads)
            == "layered control needs at least one thread per core"@,
        refusal_text(RefusalView::Pinned(name))
            == "Tier-3 control cannot resize explicitly pinned layer "@ + shown_quoted(name),
        refusal_text(RefusalView::NoUtilRange(name))
            == "Tier-3 control requires util_range for non-open layer "@ + shown_quoted(name),
        refusal_text(RefusalView::BadUtilRange(name)) == "invalid util range for "@
            + shown_quoted(name),
        refusal_text(RefusalView::BadCpuRange(name)) == "invalid CPU range for "@ + shown_quoted(
            name,
        ),
        refusal_text(RefusalView::NeedsCpusets(a)) == algo_name(a)
            + " requires cgroup-cpuset topology, which scxsim does not model"@,
        refusal_text(RefusalView::BadTopology) == "invalid layered control topology"@,
        algo_name(LayerGrowthAlgo::CpuSetSpread) == "CpuSetSpread"@,
        algo_name(LayerGrowthAlgo::CpuSetSpreadReverse) == "CpuSetSpreadReverse"@,
        algo_name(LayerGrowthAlgo::CpuSetSpreadRandom) == "CpuSetSpreadRandom"@,
        algo_name(LayerGrowthAlgo::Sticky) == "Sticky"@ && algo_name(LayerGrowthAlgo::Linear)
            == "Linear"@ && algo_name(LayerGrowthAlgo::Reverse) == "Reverse"@,
        algo_name(LayerGrowthAlgo::Random) == "Random"@ && algo_name(LayerGrowthAlgo::Topo)
            == "Topo"@ && algo_name(LayerGrowthAlgo::RoundRobin) == "RoundRobin"@,
        algo_name(LayerGrowthAlgo::BigLittle) == "BigLittle"@ && algo_name(
            LayerGrowthAlgo::LittleBig,
        ) == "LittleBig"@ && algo_name(LayerGrowthAlgo::NodeSpread) == "NodeSpread"@,
{
}

/// Cores are counted on their own nodes: each of the first ones counts once, there.
pub proof fn law_cores_are_counted_on_their_nodes(t: ControlTopology, node: usize, n: nat)
    ensures
        t.cores_on(node, 0) == 0,
        n > 0 && t.core_nodes@[n - 1] == node ==> t.cores_on(node, n) == t.cores_on(
            node,
            (n - 1) as nat,
        ) + 1,
        n > 0 && t.core_nodes@[n - 1] != node ==> t.cores_on(node, n) == t.cores_on(
            node,
            (n - 1) as nat,
        ),
        t.cores_on(node, n) <= n,
    decreases n,
{
    if n > 0 {
        law_cores_are_counted_on_their_nodes(t, node, (n - 1) as nat);
    }
}

/// The CPUs of every layer are counted on every node, and what is left of them beside
/// pinned tasks is taken off there.
pub proof fn law_every_layer_is_counted_on_every_node(
    t: ControlTopology,
    masks: Seq<Seq<bool>>,
    allocs: Seq<LayerAlloc>,
    threads_per_core: usize,
    l: int,
    n: int,
)
    requires
        0 <= l < masks.len(),
        0 <= n < t.nr_nodes,
        masks[l].len() <= usize::MAX,
    ensures
        ({
            let counts = all_counts(t, masks);
            let left = all_unpinned(counts, allocs, threads_per_core);
            let pinned = allocs[l].pinned@[n] * threads_per_core;
            &&& counts.len() == masks.len() && counts[l].len() == t.nr_nodes
            &&& counts[l][n] == count_on(t, masks[l], n as usize, masks[l].len())
            &&& left.len() == masks.len() && left[l].len() == t.nr_nodes
            &&& counts[l][n] >= pinned ==> left[l][n] == counts[l][n] - pinned
            &&& counts[l][n] < pinned ==> left[l][n] == 0
        }),
{
    lemma_count_on(t, masks[l], n as usize, masks[l].len());
    assert(allocs[l].pinned@[n] * threads_per_core >= 0) by (nonlinear_arith);
}

/// From where tasks of a layer may migrate is decided by the thresholds of that layer, by
/// its own denials, and by what its own sources were.
pub proof fn law_layers_migrate_by_their_own_thresholds(
    c: ControlView,
    l: int,
    loads: Seq<NodeLoad>,
    cpus: Seq<usize>,
    n: int,
)
    requires
        0 <= n < loads.len(),
    ensures
        ({
            let s = c.specs[l];
            let now = layer_sources(c, l, loads, cpus)[n];
            &&& !c.denied[l][n] ==> !now
            &&& cpus[n] > 0 && c.denied[l][n] && s.xnuma_threshold.1.lt(loads[n].load)
                && s.xnuma_threshold_delta.1.lt(loads[n].surplus) ==> now
            &&& cpus[n] == 0 && c.denied[l][n] ==> (now <==> Double(0).lt(loads[n].duty))
        }),
{
}

} // verus!
