//! Layered layout: each node's layer is its dependency depth, the number
//! of hops from a node that nothing feeds, computed depth first with
//! memoised depths; a wire back into the current path counts as depth 0.
use std::collections::{HashMap, HashSet};
use vstd::prelude::*;

use crate::graph::{has_id, ids, index_of, Graph, GraphNode};
use crate::types::{Connection, NodeId};

verus! {

broadcast use vstd::std_specs::hash::group_hash_axioms;

/// The parent lists before any wire is read: none for every node.
pub open spec fn no_parents(n: nat) -> Seq<Seq<NodeId>> {
    Seq::new(n, |i: int| Seq::<NodeId>::empty())
}

/// Parent lists, one per node position: for each wire between two
/// different nodes into a node of the graph, its source is added once, in
/// wire order.
pub open spec fn parent_lists(nodes: Seq<GraphNode>, conns: Seq<Connection>) -> Seq<Seq<NodeId>>
    decreases conns.len(),
{
    if conns.len() == 0 {
        no_parents(nodes.len())
    } else {
        let p = parent_lists(nodes, conns.drop_last());
        let a = conns.last().from.node_id;
        let b = conns.last().to.node_id;
        if a != b && has_id(nodes, b) && !p[index_of(nodes, b)].contains(a) {
            p.update(index_of(nodes, b), p[index_of(nodes, b)].push(a))
        } else {
            p
        }
    }
}

/// The parents of a node (none for an id that is not in the graph).
pub open spec fn parents_of(nodes: Seq<GraphNode>, ps: Seq<Seq<NodeId>>, id: NodeId) -> Seq<NodeId> {
    if has_id(nodes, id) {
        ps[index_of(nodes, id)]
    } else {
        Seq::empty()
    }
}

/// Every id that the depth search can meet: the nodes and the wire
/// sources.
pub open spec fn universe(nodes: Seq<GraphNode>, conns: Seq<Connection>) -> Set<NodeId> {
    ids(nodes).to_set() + conns.map_values(|c: Connection| c.from.node_id).to_set()
}

/// The depth of `id` and the memo after computing it: a memoised depth is
/// reused, a node on the current path (`visiting`) counts as 0, and
/// otherwise the depth is one more than the deepest parent (0 with none).
pub open spec fn depth_of(
    nodes: Seq<GraphNode>,
    ps: Seq<Seq<NodeId>>,
    id: NodeId,
    memo: Map<NodeId, nat>,
    visiting: Set<NodeId>,
    u: Set<NodeId>,
) -> (nat, Map<NodeId, nat>)
    decreases u.len() - visiting.len(), 0nat, 0nat,
{
    if memo.contains_key(id) {
        (memo[id], memo)
    } else if visiting.contains(id) {
        (0, memo)
    } else if !u.finite() || !u.contains(id) || !visiting.subset_of(u) {
        (0, memo)
    } else {
        proof {
            vstd::set_lib::lemma_len_subset(visiting.insert(id), u);
        }
        let r = deepest_parent(nodes, ps, parents_of(nodes, ps, id), memo, visiting.insert(id), u);
        (r.0, r.1.insert(id, r.0))
    }
}

/// Over parents `qs` in order: one more than the deepest one (0 with none),
/// and the memo after computing them.
pub open spec fn deepest_parent(
    nodes: Seq<GraphNode>,
    ps: Seq<Seq<NodeId>>,
    qs: Seq<NodeId>,
    memo: Map<NodeId, nat>,
    visiting: Set<NodeId>,
    u: Set<NodeId>,
) -> (nat, Map<NodeId, nat>)
    decreases u.len() - visiting.len(), 1nat, qs.len(),
{
    if qs.len() == 0 {
        (0, memo)
    } else {
        let r = deepest_parent(nodes, ps, qs.drop_last(), memo, visiting, u);
        let d = depth_of(nodes, ps, qs.last(), r.1, visiting, u);
        (if r.0 >= d.0 + 1 {
            r.0
        } else {
            d.0 + 1
        }, d.1)
    }
}

/// The memo after computing the depth of each of `order`, each from an
/// empty path.
pub open spec fn all_depths(
    nodes: Seq<GraphNode>,
    ps: Seq<Seq<NodeId>>,
    order: Seq<NodeId>,
    u: Set<NodeId>,
) -> Map<NodeId, nat>
    decreases order.len(),
{
    if order.len() == 0 {
        Map::empty()
    } else {
        depth_of(nodes, ps, order.last(), all_depths(nodes, ps, order.drop_last(), u), Set::empty(), u).1
    }
}

/// The depth of every node, computing nodes in id order.
pub open spec fn node_depths(g: Graph) -> Map<NodeId, nat> {
    let nodes = g.nodes@;
    all_depths(nodes, parent_lists(nodes, g.connections@), ids(nodes), universe(nodes, g.connections@))
}

/// The largest depth among `order` (0 for none).
pub open spec fn max_depth(order: Seq<NodeId>, m: Map<NodeId, nat>) -> nat
    decreases order.len(),
{
    if order.len() == 0 {
        0
    } else {
        let r = max_depth(order.drop_last(), m);
        if r >= m[order.last()] {
            r
        } else {
            m[order.last()]
        }
    }
}

/// The ids among `order` whose depth is `d`, in order.
pub open spec fn at_depth(order: Seq<NodeId>, m: Map<NodeId, nat>, d: nat) -> Seq<NodeId>
    decreases order.len(),
{
    if order.len() == 0 {
        Seq::empty()
    } else {
        let r = at_depth(order.drop_last(), m, d);
        if m[order.last()] == d {
            r.push(order.last())
        } else {
            r
        }
    }
}

/// The layers of a non-empty graph: layer `d` holds the nodes of depth
/// `d` in id order, from 0 to the largest depth.
pub open spec fn layers(g: Graph) -> Seq<Seq<NodeId>> {
    let order = ids(g.nodes@);
    let m = node_depths(g);
    Seq::new(max_depth(order, m) + 1, |d: int| at_depth(order, m, d as nat))
}


/// Parent lists as sequences.
pub open spec fn lists_view(v: Seq<Vec<NodeId>>) -> Seq<Seq<NodeId>> {
    v.map_values(|l: Vec<NodeId>| l@)
}

/// A memo with its depths as naturals.
pub open spec fn memo_view(m: Map<NodeId, usize>) -> Map<NodeId, nat> {
    m.map_values(|v: usize| v as nat)
}

/// Every parent is a wire source.
pub proof fn lemma_parents_are_sources(nodes: Seq<GraphNode>, conns: Seq<Connection>)
    ensures
        parent_lists(nodes, conns).len() == nodes.len(),
        forall|i: int, j: int|
            0 <= i < nodes.len() && 0 <= j < parent_lists(nodes, conns)[i].len() ==> conns.map_values(
                |c: Connection| c.from.node_id,
            ).contains(#[trigger] parent_lists(nodes, conns)[i][j]),
    decreases conns.len(),
{
    let src = conns.map_values(|c: Connection| c.from.node_id);
    if conns.len() > 0 {
        let init = conns.drop_last();
        let isrc = init.map_values(|c: Connection| c.from.node_id);
        lemma_parents_are_sources(nodes, init);
        let p = parent_lists(nodes, init);
        assert forall|i: int, j: int|
            0 <= i < nodes.len() && 0 <= j < parent_lists(nodes, conns)[i].len() implies src.contains(
                #[trigger] parent_lists(nodes, conns)[i][j],
            ) by {
            let q = parent_lists(nodes, conns);
            let a = conns.last().from.node_id;
            assert(src[conns.len() - 1] == a);
            if j < p[i].len() && q[i][j] == p[i][j] {
                let k = choose|k: int| 0 <= k < isrc.len() && isrc[k] == p[i][j];
                assert(src[k] == isrc[k]);
            }
        }
    }
}

/// Both kinds of ids are in the universe, which is finite and no larger
/// than the nodes and wires together.
pub proof fn lemma_universe(nodes: Seq<GraphNode>, conns: Seq<Connection>)
    ensures
        universe(nodes, conns).finite(),
        universe(nodes, conns).len() <= nodes.len() + conns.len(),
        forall|i: int| 0 <= i < nodes.len() ==> universe(nodes, conns).contains(#[trigger] nodes[i].id),
        forall|x: NodeId| conns.map_values(|c: Connection| c.from.node_id).contains(x) ==> universe(
            nodes,
            conns,
        ).contains(x),
{
    let a = ids(nodes);
    let b = conns.map_values(|c: Connection| c.from.node_id);
    a.lemma_cardinality_of_set();
    b.lemma_cardinality_of_set();
    vstd::set_lib::lemma_len_union(a.to_set(), b.to_set());
    assert forall|i: int| 0 <= i < nodes.len() implies universe(nodes, conns).contains(#[trigger] nodes[i].id) by {
        assert(a[i] == nodes[i].id);
    }
}

/// Whether a memo is consistent with a search: its ids are in the
/// universe, none is on the current path, and no depth exceeds the number
/// of memoised ids.
pub open spec fn memo_ok(m: Map<NodeId, nat>, visiting: Set<NodeId>, u: Set<NodeId>) -> bool {
    &&& m.dom().subset_of(u)
    &&& m.dom().disjoint(visiting)
    &&& forall|k: NodeId| #[trigger] m.contains_key(k) ==> m[k] <= m.dom().len()
}

/// Whether `m2` keeps every depth of `m1`.
pub open spec fn extends(m1: Map<NodeId, nat>, m2: Map<NodeId, nat>) -> bool {
    forall|k: NodeId| #[trigger] m1.contains_key(k) ==> m2.contains_key(k) && m2[k] == m1[k]
}

impl Graph {
    /// The parent list of every node, by node position.
    pub fn parent_lists(&self) -> (r: Vec<Vec<NodeId>>)
        requires
            self.wf(),
        ensures
            lists_view(r@) == parent_lists(self.nodes@, self.connections@),
    {
        let mut r: Vec<Vec<NodeId>> = Vec::new();
        let mut i: usize = 0;
        while i < self.nodes.len()
            invariant
                i <= self.nodes@.len(),
                lists_view(r@) == no_parents(i as nat),
                r@.len() == i,
            decreases self.nodes@.len() - i,
        {
            let ghost r0 = r@;
            r.push(Vec::new());
            proof {
                assert(lists_view(r@) =~= no_parents((i + 1) as nat)) by {
                    assert forall|k: int| 0 <= k < i + 1 implies lists_view(r@)[k] == no_parents((i + 1) as nat)[k] by {
                        if k < i {
                            assert(r@[k] == r0[k]);
                            assert(lists_view(r0)[k] == no_parents(i as nat)[k]);
                        }
                    }
                }
            }
            i = i + 1;
        }
        let mut k: usize = 0;
        proof {
            assert(self.connections@.take(0) =~= Seq::<Connection>::empty());
        }
        while k < self.connections.len()
            invariant
                k <= self.connections@.len(),
                self.wf(),
                lists_view(r@) == parent_lists(self.nodes@, self.connections@.take(k as int)),
                r@.len() == self.nodes@.len(),
            decreases self.connections@.len() - k,
        {
            proof {
                assert(self.connections@.take(k + 1).drop_last() =~= self.connections@.take(k as int));
                assert(self.connections@.take(k + 1).last() == self.connections@[k as int]);
            }
            let a = self.connections[k].from.node_id;
            let b = self.connections[k].to.node_id;
            if a != b {
                match self.position_of(b) {
                    Some(pos) => {
                        let mut present = false;
                        let mut j: usize = 0;
                        while j < r[pos].len()
                            invariant
                                pos < r@.len(),
                                j <= r@[pos as int]@.len(),
                                present == r@[pos as int]@.take(j as int).contains(a),
                            decreases r@[pos as int]@.len() - j,
                        {
                            proof {
                                assert(r@[pos as int]@.take(j + 1) =~= r@[pos as int]@.take(j as int).push(r@[pos as int]@[j as int]));
                            }
                            let ghost l = r@[pos as int]@;
                            if r[pos][j] == a {
                                present = true;
                                proof {
                                    assert(l.take(j + 1)[j as int] == a);
                                }
                            }
                            proof {
                                let t1 = l.take(j + 1);
                                let t0 = l.take(j as int);
                                if t1.contains(a) && l[j as int] != a {
                                    let k = choose|k: int| 0 <= k < t1.len() && #[trigger] t1[k] == a;
                                    assert(k < j);
                                    assert(t0[k] == a);
                                }
                                if t0.contains(a) {
                                    let k = choose|k: int| 0 <= k < t0.len() && #[trigger] t0[k] == a;
                                    assert(t1[k] == a);
                                }
                            }
                            j = j + 1;
                        }
                        proof {
                            assert(r@[pos as int]@.take(r@[pos as int]@.len() as int) =~= r@[pos as int]@);
                        }
                        if !present {
                            let mut list = Vec::new();
                            std::mem::swap(&mut list, &mut r[pos]);
                            let ghost r0 = r@;
                            let ghost l0 = list@;
                            list.push(a);
                            r.set(pos, list);
                            proof {
                                assert(lists_view(r@) =~= lists_view(r0).update(pos as int, l0.push(a)));
                            }
                        }
                    },
                    None => {},
                }
            }
            k = k + 1;
        }
        proof {
            assert(self.connections@.take(self.connections@.len() as int) =~= self.connections@);
        }
        r
    }
}


/// Copies a parent list.
fn copy_ids(v: &Vec<NodeId>) -> (r: Vec<NodeId>)
    ensures
        r@ == v@,
{
    let mut r: Vec<NodeId> = Vec::new();
    let mut i: usize = 0;
    while i < v.len()
        invariant
            i <= v@.len(),
            r@ == v@.take(i as int),
        decreases v@.len() - i,
    {
        r.push(v[i]);
        proof {
            assert(r@ =~= v@.take(i + 1));
        }
        i = i + 1;
    }
    proof {
        assert(v@.take(v@.len() as int) =~= v@);
    }
    r
}

impl Graph {
    /// The depth of `id` (see `depth_of`), memoised in `memo`; `visiting`
    /// holds the current path and comes back unchanged.
    fn depth_search(
        &self,
        ps: &Vec<Vec<NodeId>>,
        id: NodeId,
        memo: &mut HashMap<NodeId, usize>,
        visiting: &mut HashSet<NodeId>,
        Ghost(u): Ghost<Set<NodeId>>,
    ) -> (r: usize)
        requires
            self.wf(),
            lists_view(ps@) == parent_lists(self.nodes@, self.connections@),
            u == universe(self.nodes@, self.connections@),
            self.nodes@.len() + self.connections@.len() < usize::MAX,
            u.contains(id),
            old(visiting)@.subset_of(u),
            memo_ok(memo_view(old(memo)@), old(visiting)@, u),
        ensures
            (r as nat, memo_view(final(memo)@)) == depth_of(
                self.nodes@,
                lists_view(ps@),
                id,
                memo_view(old(memo)@),
                old(visiting)@,
                u,
            ),
            final(visiting)@ == old(visiting)@,
            memo_ok(memo_view(final(memo)@), old(visiting)@, u),
            extends(memo_view(old(memo)@), memo_view(final(memo)@)),
            r <= memo_view(final(memo)@).dom().len(),
        decreases u.len() - old(visiting)@.len(), 0nat, 0nat,
    {
        proof {
            lemma_universe(self.nodes@, self.connections@);
        }
        match memo.get(&id) {
            Some(d) => {
                proof {
                    assert(memo_view(memo@).contains_key(id));
                }
                return *d;
            },
            None => {},
        }
        if visiting.contains(&id) {
            return 0;
        }
        proof {
            vstd::set_lib::lemma_len_subset(visiting@.insert(id), u);
        }
        visiting.insert(id);
        let qs = match self.position_of(id) {
            Some(pos) => {
                proof {
                    lemma_parents_are_sources(self.nodes@, self.connections@);
                    assert(lists_view(ps@)[pos as int] == ps@[pos as int]@);
                }
                copy_ids(&ps[pos])
            },
            None => Vec::new(),
        };
        proof {
            assert(qs@ == crate::layout::parents_of(self.nodes@, lists_view(ps@), id));
            lemma_parents_are_sources(self.nodes@, self.connections@);
            assert forall|j: int| 0 <= j < qs@.len() implies u.contains(#[trigger] qs@[j]) by {
                if has_id(self.nodes@, id) {
                    let pos = index_of(self.nodes@, id);
                    assert(parent_lists(self.nodes@, self.connections@)[pos][j] == qs@[j]);
                }
            }
        }
        let ghost vis1 = visiting@;
        let best = self.deepest_parent(ps, &qs, memo, visiting, Ghost(u));
        let ghost m1 = memo_view(memo@);
        visiting.remove(&id);
        memo.insert(id, best);
        proof {
            assert(visiting@ =~= old(visiting)@);
            assert(memo_view(memo@) =~= m1.insert(id, best as nat));
            assert(!m1.contains_key(id));
            assert(m1.dom().insert(id).len() == m1.dom().len() + 1);
            assert(memo_view(memo@).dom() =~= m1.dom().insert(id));
            assert(memo_view(memo@).dom().subset_of(u));
            assert(memo_view(memo@).dom().disjoint(old(visiting)@));
        }
        best
    }

    /// One more than the deepest of the parents `qs` (0 with none).
    fn deepest_parent(
        &self,
        ps: &Vec<Vec<NodeId>>,
        qs: &Vec<NodeId>,
        memo: &mut HashMap<NodeId, usize>,
        visiting: &mut HashSet<NodeId>,
        Ghost(u): Ghost<Set<NodeId>>,
    ) -> (r: usize)
        requires
            self.wf(),
            lists_view(ps@) == parent_lists(self.nodes@, self.connections@),
            u == universe(self.nodes@, self.connections@),
            self.nodes@.len() + self.connections@.len() < usize::MAX,
            forall|j: int| 0 <= j < qs@.len() ==> u.contains(#[trigger] qs@[j]),
            old(visiting)@.subset_of(u),
            memo_ok(memo_view(old(memo)@), old(visiting)@, u),
        ensures
            (r as nat, memo_view(final(memo)@)) == deepest_parent(
                self.nodes@,
                lists_view(ps@),
                qs@,
                memo_view(old(memo)@),
                old(visiting)@,
                u,
            ),
            final(visiting)@ == old(visiting)@,
            memo_ok(memo_view(final(memo)@), old(visiting)@, u),
            extends(memo_view(old(memo)@), memo_view(final(memo)@)),
            r <= memo_view(final(memo)@).dom().len() + 1,
        decreases u.len() - old(visiting)@.len(), 1nat, qs@.len(),
    {
        proof {
            lemma_universe(self.nodes@, self.connections@);
        }
        let ghost m0 = memo_view(memo@);
        let ghost vis = visiting@;
        let mut best: usize = 0;
        let mut i: usize = 0;
        proof {
            assert(qs@.take(0) =~= Seq::<NodeId>::empty());
        }
        while i < qs.len()
            invariant
                i <= qs@.len(),
                self.wf(),
                lists_view(ps@) == parent_lists(self.nodes@, self.connections@),
                u == universe(self.nodes@, self.connections@),
                u.finite(),
                u.len() <= self.nodes@.len() + self.connections@.len(),
                self.nodes@.len() + self.connections@.len() < usize::MAX,
                forall|j: int| 0 <= j < qs@.len() ==> u.contains(#[trigger] qs@[j]),
                visiting@ == vis,
                vis == old(visiting)@,
                vis.subset_of(u),
                m0 == memo_view(old(memo)@),
                memo_ok(memo_view(memo@), vis, u),
                extends(m0, memo_view(memo@)),
                best <= memo_view(memo@).dom().len() + 1,
                (best as nat, memo_view(memo@)) == deepest_parent(
                    self.nodes@,
                    lists_view(ps@),
                    qs@.take(i as int),
                    m0,
                    vis,
                    u,
                ),
            decreases qs@.len() - i,
        {
            proof {
                assert(qs@.take(i + 1).drop_last() =~= qs@.take(i as int));
                assert(qs@.take(i + 1).last() == qs@[i as int]);
                assert(u.contains(qs@[i as int]));
            }
            let ghost mprev = memo_view(memo@);
            let d = self.depth_search(ps, qs[i], memo, visiting, Ghost(u));
            proof {
                vstd::set_lib::lemma_len_subset(memo_view(memo@).dom(), u);
                assert(memo_view(memo@).dom().len() >= mprev.dom().len()) by {
                    assert(mprev.dom().subset_of(memo_view(memo@).dom()));
                    vstd::set_lib::lemma_len_subset(mprev.dom(), memo_view(memo@).dom());
                }
            }
            if d + 1 > best {
                best = d + 1;
            }
            i = i + 1;
        }
        proof {
            assert(qs@.take(qs@.len() as int) =~= qs@);
        }
        best
    }

    /// The depth of every node, computed in id order from empty paths.
    fn depth_memo(&self, ps: &Vec<Vec<NodeId>>) -> (memo: HashMap<NodeId, usize>)
        requires
            self.wf(),
            lists_view(ps@) == parent_lists(self.nodes@, self.connections@),
            self.nodes@.len() + self.connections@.len() < usize::MAX,
        ensures
            memo_view(memo@) == node_depths(*self),
            forall|i: int| 0 <= i < self.nodes@.len() ==> memo@.contains_key(#[trigger] self.nodes@[i].id),
            memo_ok(memo_view(memo@), Set::empty(), universe(self.nodes@, self.connections@)),
    {
        let ghost u = universe(self.nodes@, self.connections@);
        let ghost order = ids(self.nodes@);
        let mut memo: HashMap<NodeId, usize> = HashMap::new();
        let mut i: usize = 0;
        proof {
            lemma_universe(self.nodes@, self.connections@);
            assert(order.take(0) =~= Seq::<NodeId>::empty());
            assert(memo_view(memo@) =~= Map::empty());
        }
        while i < self.nodes.len()
            invariant
                i <= self.nodes@.len(),
                self.wf(),
                lists_view(ps@) == parent_lists(self.nodes@, self.connections@),
                self.nodes@.len() + self.connections@.len() < usize::MAX,
                u == universe(self.nodes@, self.connections@),
                order == ids(self.nodes@),
                forall|k: int| 0 <= k < self.nodes@.len() ==> u.contains(#[trigger] self.nodes@[k].id),
                memo_ok(memo_view(memo@), Set::empty(), u),
                memo_view(memo@) == all_depths(self.nodes@, lists_view(ps@), order.take(i as int), u),
                forall|k: int| 0 <= k < i ==> memo@.contains_key(#[trigger] self.nodes@[k].id),
            decreases self.nodes@.len() - i,
        {
            let mut visiting: HashSet<NodeId> = HashSet::new();
            let id = self.nodes[i].id;
            proof {
                assert(order.take(i + 1).drop_last() =~= order.take(i as int));
                assert(order.take(i + 1).last() == id);
                assert(visiting@ =~= Set::<NodeId>::empty());
            }
            let ghost before = memo_view(memo@);
            self.depth_search(ps, id, &mut memo, &mut visiting, Ghost(u));
            proof {
                assert(memo_view(memo@).contains_key(id)) by {
                    if !before.contains_key(id) {
                        assert(memo_view(memo@) == depth_of(self.nodes@, lists_view(ps@), id, before, Set::empty(), u).1);
                    }
                }
                assert forall|k: int| 0 <= k < i + 1 implies memo@.contains_key(#[trigger] self.nodes@[k].id) by {
                    if k < i {
                        assert(before.contains_key(self.nodes@[k].id));
                        assert(memo_view(memo@).contains_key(self.nodes@[k].id));
                    } else {
                        assert(memo_view(memo@).contains_key(id));
                    }
                }
            }
            i = i + 1;
        }
        proof {
            assert(order.take(self.nodes@.len() as int) =~= order);
        }
        memo
    }

    /// The layers of the layout (see `layers`).
    pub fn depth_layers(&self) -> (r: Vec<Vec<NodeId>>)
        requires
            self.wf(),
            self.nodes@.len() + self.connections@.len() < usize::MAX,
        ensures
            r@.map_values(|l: Vec<NodeId>| l@) == layers(*self),
    {
        let ps = self.parent_lists();
        let memo = self.depth_memo(&ps);
        let ghost m = node_depths(*self);
        let ghost u = universe(self.nodes@, self.connections@);
        proof {
            lemma_universe(self.nodes@, self.connections@);
            vstd::set_lib::lemma_len_subset(m.dom(), u);
        }
        let ghost order = ids(self.nodes@);
        let mut depths: Vec<usize> = Vec::new();
        let mut top: usize = 0;
        let mut i: usize = 0;
        proof {
            assert(order.take(0) =~= Seq::<NodeId>::empty());
        }
        while i < self.nodes.len()
            invariant
                i <= self.nodes@.len(),
                order == ids(self.nodes@),
                memo_view(memo@) == m,
                forall|k: int| 0 <= k < self.nodes@.len() ==> memo@.contains_key(#[trigger] self.nodes@[k].id),
                depths@.len() == i,
                forall|k: int| 0 <= k < i ==> depths@[k] as nat == #[trigger] m[order[k]],
                top as nat == max_depth(order.take(i as int), m),
                memo_ok(m, Set::empty(), u),
                m.dom().len() <= u.len(),
                u.len() <= self.nodes@.len() + self.connections@.len(),
                self.nodes@.len() + self.connections@.len() < usize::MAX,
                top as nat <= m.dom().len(),
            decreases self.nodes@.len() - i,
        {
            let id = self.nodes[i].id;
            let d = match memo.get(&id) {
                Some(d) => *d,
                None => 0,
            };
            proof {
                assert(memo@.contains_key(id));
                assert(order[i as int] == id);
                assert(order.take(i + 1).drop_last() =~= order.take(i as int));
                assert(order.take(i + 1).last() == id);
                assert(m[id] == d as nat);
                assert(m.contains_key(id));
                assert(m[id] <= m.dom().len());
            }
            depths.push(d);
            if d > top {
                top = d;
            }
            i = i + 1;
        }
        proof {
            assert(order.take(self.nodes@.len() as int) =~= order);
            assert(top < usize::MAX);
        }
        let mut layers_out: Vec<Vec<NodeId>> = Vec::new();
        let mut d: usize = 0;
        while d <= top
            invariant
                d <= top + 1,
                top < usize::MAX,
                top as nat == max_depth(order, m),
                order == ids(self.nodes@),
                depths@.len() == self.nodes@.len(),
                forall|k: int| 0 <= k < self.nodes@.len() ==> depths@[k] as nat == #[trigger] m[order[k]],
                layers_out@.len() == d,
                forall|e: int| 0 <= e < d ==> (#[trigger] layers_out@[e])@ == at_depth(order, m, e as nat),
            decreases top + 1 - d,
        {
            let mut layer: Vec<NodeId> = Vec::new();
            let mut k: usize = 0;
            proof {
                assert(order.take(0) =~= Seq::<NodeId>::empty());
            }
            while k < self.nodes.len()
                invariant
                    k <= self.nodes@.len(),
                    order == ids(self.nodes@),
                    depths@.len() == self.nodes@.len(),
                    forall|j: int| 0 <= j < self.nodes@.len() ==> depths@[j] as nat == #[trigger] m[order[j]],
                    layer@ == at_depth(order.take(k as int), m, d as nat),
                decreases self.nodes@.len() - k,
            {
                proof {
                    assert(order.take(k + 1).drop_last() =~= order.take(k as int));
                    assert(order.take(k + 1).last() == order[k as int]);
                    assert(depths@[k as int] as nat == m[order[k as int]]);
                    assert(order[k as int] == self.nodes@[k as int].id);
                }
                if depths[k] == d {
                    layer.push(self.nodes[k].id);
                }
                k = k + 1;
            }
            proof {
                assert(order.take(self.nodes@.len() as int) =~= order);
            }
            layers_out.push(layer);
            d = d + 1;
        }
        proof {
            assert(layers_out@.map_values(|l: Vec<NodeId>| l@) =~= layers(*self));
        }
        layers_out
    }
}

} // verus!
