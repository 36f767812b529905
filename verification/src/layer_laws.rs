//! Why layering lays a graph out left to right: in a graph without cycles,
//! every node's depth is one more than its deepest parent's, so every wire
//! runs from a shallower node to a deeper one.
use vstd::prelude::*;

use crate::graph::{has_id, ids, index_of, Graph, GraphNode};
use crate::layout::{
    all_depths, deepest_parent, depth_of, extends, lemma_parents_are_sources, lemma_universe,
    node_depths, parent_lists, parents_of, universe,
};
use crate::types::{Connection, NodeId};

verus! {

/// Whether `rank` numbers the ids so that every wire between two different
/// nodes, into a node of the graph, runs from a lower number to a higher
/// one. Such a numbering exists exactly when the graph has no cycle.
pub open spec fn ranked(g: Graph, rank: spec_fn(NodeId) -> nat) -> bool {
    forall|i: int|
        0 <= i < g.connections@.len() && (#[trigger] g.connections@[i]).from.node_id
            != g.connections@[i].to.node_id && has_id(g.nodes@, g.connections@[i].to.node_id)
            ==> rank(g.connections@[i].from.node_id) < rank(g.connections@[i].to.node_id)
}

/// One more than the deepest of `qs` in `m` (0 for none).
pub open spec fn parent_depth(qs: Seq<NodeId>, m: Map<NodeId, nat>) -> nat
    decreases qs.len(),
{
    if qs.len() == 0 {
        0
    } else {
        let r = parent_depth(qs.drop_last(), m);
        if r >= m[qs.last()] + 1 {
            r
        } else {
            m[qs.last()] + 1
        }
    }
}

/// Whether every memoised depth is final: the node's parents are memoised
/// too, and its depth is one more than the deepest of them.
pub open spec fn memo_final(nodes: Seq<GraphNode>, ps: Seq<Seq<NodeId>>, m: Map<NodeId, nat>) -> bool {
    forall|k: NodeId| #[trigger] m.contains_key(k) ==> (forall|j: int|
        0 <= j < parents_of(nodes, ps, k).len() ==> m.contains_key(
            #[trigger] parents_of(nodes, ps, k)[j],
        )) && m[k] == parent_depth(parents_of(nodes, ps, k), m)
}

/// Every parent is in the universe and ranks below its child.
pub open spec fn parents_ranked(
    nodes: Seq<GraphNode>,
    ps: Seq<Seq<NodeId>>,
    u: Set<NodeId>,
    rank: spec_fn(NodeId) -> nat,
) -> bool {
    forall|x: NodeId, j: int|
        0 <= j < parents_of(nodes, ps, x).len() ==> u.contains(#[trigger] parents_of(nodes, ps, x)[j])
            && rank(parents_of(nodes, ps, x)[j]) < rank(x)
}

/// `parent_depth` reads only the depths of `qs`.
proof fn lemma_parent_depth_agree(qs: Seq<NodeId>, m1: Map<NodeId, nat>, m2: Map<NodeId, nat>)
    requires
        forall|j: int| 0 <= j < qs.len() ==> m1.contains_key(#[trigger] qs[j]) && extends(m1, m2),
    ensures
        parent_depth(qs, m1) == parent_depth(qs, m2),
    decreases qs.len(),
{
    if qs.len() > 0 {
        lemma_parent_depth_agree(qs.drop_last(), m1, m2);
        assert(m1.contains_key(qs[qs.len() - 1]));
    }
}

/// `parent_depth` exceeds the depth of each of `qs`.
proof fn lemma_parent_depth_above(qs: Seq<NodeId>, m: Map<NodeId, nat>, j: int)
    requires
        0 <= j < qs.len(),
    ensures
        parent_depth(qs, m) >= m[qs[j]] + 1,
    decreases qs.len(),
{
    if j < qs.len() - 1 {
        lemma_parent_depth_above(qs.drop_last(), m, j);
        assert(qs.drop_last()[j] == qs[j]);
    }
}

/// A final memo stays final when a final depth is added for a new id.
proof fn lemma_memo_final_insert(
    nodes: Seq<GraphNode>,
    ps: Seq<Seq<NodeId>>,
    m: Map<NodeId, nat>,
    id: NodeId,
)
    requires
        memo_final(nodes, ps, m),
        !m.contains_key(id),
        forall|j: int| 0 <= j < parents_of(nodes, ps, id).len() ==> m.contains_key(
            #[trigger] parents_of(nodes, ps, id)[j],
        ),
    ensures
        memo_final(nodes, ps, m.insert(id, parent_depth(parents_of(nodes, ps, id), m))),
{
    let m2 = m.insert(id, parent_depth(parents_of(nodes, ps, id), m));
    assert(extends(m, m2));
    assert forall|k: NodeId| #[trigger] m2.contains_key(k) implies (forall|j: int|
        0 <= j < parents_of(nodes, ps, k).len() ==> m2.contains_key(
            #[trigger] parents_of(nodes, ps, k)[j],
        )) && m2[k] == parent_depth(parents_of(nodes, ps, k), m2) by {
        lemma_parent_depth_agree(parents_of(nodes, ps, k), m, m2);
    }
}

/// Computing a depth, in a graph whose parents are ranked, keeps the memo
/// final and memoises the id with its final depth.
proof fn lemma_depth_of_final(
    nodes: Seq<GraphNode>,
    ps: Seq<Seq<NodeId>>,
    id: NodeId,
    memo: Map<NodeId, nat>,
    visiting: Set<NodeId>,
    u: Set<NodeId>,
    rank: spec_fn(NodeId) -> nat,
)
    requires
        memo_final(nodes, ps, memo),
        memo.dom().disjoint(visiting),
        parents_ranked(nodes, ps, u, rank),
        u.finite(),
        u.contains(id),
        visiting.subset_of(u),
        forall|v: NodeId| #[trigger] visiting.contains(v) ==> rank(v) > rank(id),
    ensures
        ({
            let r = depth_of(nodes, ps, id, memo, visiting, u);
            &&& memo_final(nodes, ps, r.1)
            &&& extends(memo, r.1)
            &&& r.1.dom().disjoint(visiting)
            &&& r.1.contains_key(id)
            &&& r.0 == r.1[id]
        }),
    decreases u.len() - visiting.len(), 0nat, 0nat,
{
    if !memo.contains_key(id) {
        assert(!visiting.contains(id));
        let vis = visiting.insert(id);
        vstd::set_lib::lemma_len_subset(vis, u);
        let qs = parents_of(nodes, ps, id);
        assert forall|j: int, v: NodeId| 0 <= j < qs.len() && #[trigger] vis.contains(v) implies rank(v) > rank(
            #[trigger] qs[j],
        ) by {
            assert(rank(qs[j]) < rank(id));
        }
        lemma_deepest_parent_final(nodes, ps, qs, memo, vis, u, rank);
        let r = deepest_parent(nodes, ps, qs, memo, vis, u);
        assert(!r.1.contains_key(id));
        lemma_memo_final_insert(nodes, ps, r.1, id);
    }
}

/// Computing the depths of parents `qs` keeps the memo final, memoises
/// each of them, and gives one more than the deepest.
proof fn lemma_deepest_parent_final(
    nodes: Seq<GraphNode>,
    ps: Seq<Seq<NodeId>>,
    qs: Seq<NodeId>,
    memo: Map<NodeId, nat>,
    visiting: Set<NodeId>,
    u: Set<NodeId>,
    rank: spec_fn(NodeId) -> nat,
)
    requires
        memo_final(nodes, ps, memo),
        memo.dom().disjoint(visiting),
        parents_ranked(nodes, ps, u, rank),
        u.finite(),
        visiting.subset_of(u),
        forall|j: int| 0 <= j < qs.len() ==> u.contains(#[trigger] qs[j]),
        forall|j: int, v: NodeId| 0 <= j < qs.len() && #[trigger] visiting.contains(v) ==> rank(v) > rank(
            #[trigger] qs[j],
        ),
    ensures
        ({
            let r = deepest_parent(nodes, ps, qs, memo, visiting, u);
            &&& memo_final(nodes, ps, r.1)
            &&& extends(memo, r.1)
            &&& r.1.dom().disjoint(visiting)
            &&& forall|j: int| 0 <= j < qs.len() ==> r.1.contains_key(#[trigger] qs[j])
            &&& r.0 == parent_depth(qs, r.1)
        }),
    decreases u.len() - visiting.len(), 1nat, qs.len(),
{
    if qs.len() > 0 {
        let init = qs.drop_last();
        let last = qs.last();
        assert forall|j: int, v: NodeId| 0 <= j < init.len() && #[trigger] visiting.contains(v) implies rank(v) > rank(
            #[trigger] init[j],
        ) by {
            assert(init[j] == qs[j]);
        }
        assert forall|j: int| 0 <= j < init.len() implies u.contains(#[trigger] init[j]) by {
            assert(init[j] == qs[j]);
        }
        lemma_deepest_parent_final(nodes, ps, init, memo, visiting, u, rank);
        let r = deepest_parent(nodes, ps, init, memo, visiting, u);
        assert(u.contains(qs[qs.len() - 1]));
        assert forall|v: NodeId| #[trigger] visiting.contains(v) implies rank(v) > rank(last) by {
            assert(rank(v) > rank(qs[qs.len() - 1]));
        }
        lemma_depth_of_final(nodes, ps, last, r.1, visiting, u, rank);
        let d = depth_of(nodes, ps, last, r.1, visiting, u);
        assert forall|j: int| 0 <= j < init.len() implies r.1.contains_key(#[trigger] init[j]) by {
            assert(init[j] == qs[j]);
        }
        lemma_parent_depth_agree(init, r.1, d.1);
        assert forall|j: int| 0 <= j < qs.len() implies d.1.contains_key(#[trigger] qs[j]) by {
            if j < init.len() {
                assert(init[j] == qs[j]);
                assert(r.1.contains_key(init[j]));
            }
        }
        assert(extends(memo, d.1));
    }
}

/// Computing every depth of `order`, each from an empty path, leaves a
/// final memo that holds all of them.
proof fn lemma_all_depths_final(
    nodes: Seq<GraphNode>,
    ps: Seq<Seq<NodeId>>,
    order: Seq<NodeId>,
    u: Set<NodeId>,
    rank: spec_fn(NodeId) -> nat,
)
    requires
        parents_ranked(nodes, ps, u, rank),
        u.finite(),
        forall|k: int| 0 <= k < order.len() ==> u.contains(#[trigger] order[k]),
    ensures
        memo_final(nodes, ps, all_depths(nodes, ps, order, u)),
        forall|k: int| 0 <= k < order.len() ==> all_depths(nodes, ps, order, u).contains_key(
            #[trigger] order[k],
        ),
    decreases order.len(),
{
    if order.len() > 0 {
        let init = order.drop_last();
        assert forall|k: int| 0 <= k < init.len() implies u.contains(#[trigger] init[k]) by {
            assert(init[k] == order[k]);
        }
        lemma_all_depths_final(nodes, ps, init, u, rank);
        let m = all_depths(nodes, ps, init, u);
        assert(u.contains(order[order.len() - 1]));
        assert(m.dom().disjoint(Set::<NodeId>::empty()));
        lemma_depth_of_final(nodes, ps, order.last(), m, Set::empty(), u, rank);
        assert forall|k: int| 0 <= k < order.len() implies all_depths(nodes, ps, order, u).contains_key(
            #[trigger] order[k],
        ) by {
            if k < init.len() {
                assert(init[k] == order[k]);
            }
        }
    }
}

/// Each parent list entry is the source of a wire, between two different
/// nodes, into that node.
proof fn lemma_parent_entries(nodes: Seq<GraphNode>, conns: Seq<Connection>, k: int, j: int)
    requires
        0 <= k < nodes.len(),
        0 <= j < parent_lists(nodes, conns)[k].len(),
    ensures
        exists|i: int|
            0 <= i < conns.len() && (#[trigger] conns[i]).from.node_id == parent_lists(nodes, conns)[k][j]
                && conns[i].to.node_id == nodes[k].id && conns[i].from.node_id != conns[i].to.node_id
                && has_id(nodes, conns[i].to.node_id),
    decreases conns.len(),
{
    lemma_parents_are_sources(nodes, conns);
    if conns.len() > 0 {
        let init = conns.drop_last();
        let p = parent_lists(nodes, init);
        lemma_parents_are_sources(nodes, init);
        let a = conns.last().from.node_id;
        let b = conns.last().to.node_id;
        let q = parent_lists(nodes, conns);
        if j < p[k].len() && q[k][j] == p[k][j] {
            lemma_parent_entries(nodes, init, k, j);
            let i = choose|i: int|
                0 <= i < init.len() && (#[trigger] init[i]).from.node_id == p[k][j] && init[i].to.node_id
                    == nodes[k].id && init[i].from.node_id != init[i].to.node_id && has_id(
                    nodes,
                    init[i].to.node_id,
                );
            assert(conns[i] == init[i]);
        } else {
            let i = conns.len() - 1;
            assert(conns[i].from.node_id == a);
            assert(q[k][j] == a && nodes[k].id == b);
        }
    }
}

/// A wire between two different nodes, into a node of the graph, makes its
/// source a parent of its target.
proof fn lemma_wire_parent(nodes: Seq<GraphNode>, conns: Seq<Connection>, i: int)
    requires
        0 <= i < conns.len(),
        conns[i].from.node_id != conns[i].to.node_id,
        has_id(nodes, conns[i].to.node_id),
    ensures
        parents_of(nodes, parent_lists(nodes, conns), conns[i].to.node_id).contains(conns[i].from.node_id),
    decreases conns.len(),
{
    lemma_parents_are_sources(nodes, conns);
    let init = conns.drop_last();
    lemma_parents_are_sources(nodes, init);
    let b = conns[i].to.node_id;
    let a = conns[i].from.node_id;
    let k = index_of(nodes, b);
    let p = parent_lists(nodes, init);
    let q = parent_lists(nodes, conns);
    if i < conns.len() - 1 {
        assert(init[i] == conns[i]);
        lemma_wire_parent(nodes, init, i);
        let j = choose|j: int| 0 <= j < p[k].len() && p[k][j] == a;
        let lb = conns.last().to.node_id;
        if conns.last().from.node_id != lb && has_id(nodes, lb) && !p[index_of(nodes, lb)].contains(
            conns.last().from.node_id,
        ) {
            if index_of(nodes, lb) == k {
                assert(q[k][j] == a);
            } else {
                assert(q[k] == p[k]);
            }
        }
        assert(q[k].contains(a));
    } else {
        if !p[k].contains(a) {
            assert(q[k][p[k].len() as int] == a);
        }
    }
}

/// In a graph without cycles (one whose wires a `rank` numbering orders),
/// every wire between two different nodes, into a node of the graph, runs
/// from a shallower node to a deeper one: its target's layer lies right of
/// its source's.
pub proof fn law_wires_run_deeper(g: Graph, rank: spec_fn(NodeId) -> nat)
    requires
        ranked(g, rank),
    ensures
        forall|i: int|
            0 <= i < g.connections@.len() && (#[trigger] g.connections@[i]).from.node_id
                != g.connections@[i].to.node_id && has_id(g.nodes@, g.connections@[i].to.node_id)
                ==> node_depths(g).contains_key(g.connections@[i].from.node_id) && node_depths(g).contains_key(
                g.connections@[i].to.node_id,
            ) && node_depths(g)[g.connections@[i].from.node_id] < node_depths(g)[g.connections@[i].to.node_id],
{
    let nodes = g.nodes@;
    let conns = g.connections@;
    let ps = parent_lists(nodes, conns);
    let u = universe(nodes, conns);
    let order = ids(nodes);
    lemma_universe(nodes, conns);
    lemma_parents_are_sources(nodes, conns);
    assert forall|x: NodeId, j: int|
        0 <= j < parents_of(nodes, ps, x).len() implies u.contains(#[trigger] parents_of(nodes, ps, x)[j])
            && rank(parents_of(nodes, ps, x)[j]) < rank(x) by {
        let k = index_of(nodes, x);
        assert(has_id(nodes, x));
        lemma_parent_entries(nodes, conns, k, j);
        let i = choose|i: int|
            0 <= i < conns.len() && (#[trigger] conns[i]).from.node_id == ps[k][j] && conns[i].to.node_id
                == nodes[k].id && conns[i].from.node_id != conns[i].to.node_id && has_id(nodes, conns[i].to.node_id);
        assert(conns.map_values(|c: Connection| c.from.node_id)[i] == ps[k][j]);
    }
    assert forall|k: int| 0 <= k < order.len() implies u.contains(#[trigger] order[k]) by {
        assert(order[k] == nodes[k].id);
    }
    lemma_all_depths_final(nodes, ps, order, u, rank);
    let m = node_depths(g);
    assert forall|i: int|
        0 <= i < conns.len() && (#[trigger] conns[i]).from.node_id != conns[i].to.node_id && has_id(
            nodes,
            conns[i].to.node_id,
        ) implies m.contains_key(conns[i].from.node_id) && m.contains_key(conns[i].to.node_id)
        && m[conns[i].from.node_id] < m[conns[i].to.node_id] by {
        let b = conns[i].to.node_id;
        let a = conns[i].from.node_id;
        let kb = choose|k: int| 0 <= k < nodes.len() && nodes[k].id == b;
        assert(order[kb] == b);
        lemma_wire_parent(nodes, conns, i);
        let qs = parents_of(nodes, ps, b);
        let j = choose|j: int| 0 <= j < qs.len() && qs[j] == a;
        lemma_parent_depth_above(qs, m, j);
    }
}

} // verus!
