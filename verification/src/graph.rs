//! A node graph: nodes kept in increasing id order, and the connections
//! between their pins.
use vstd::prelude::*;

use crate::node::NodeKind;
use crate::text::{param_list, split_params, strs};
use std::collections::HashSet;
use crate::types::{Connection, NodeId, PinKind, PinRef};

verus! {

broadcast use vstd::std_specs::hash::group_hash_axioms;

/// One node of a graph.
#[derive(Debug)]
pub struct GraphNode {
    pub id: NodeId,
    pub kind: NodeKind,
}

/// Nodes and connections of one graph.
#[derive(Debug)]
pub struct Graph {
    pub nodes: Vec<GraphNode>,
    pub connections: Vec<Connection>,
}

/// Node ids strictly increase along the sequence, so each id occurs once.
pub open spec fn ids_increasing(nodes: Seq<GraphNode>) -> bool {
    forall|i: int, j: int| 0 <= i < j < nodes.len() ==> nodes[i].id < nodes[j].id
}

/// Whether a node has this id.
pub open spec fn has_id(nodes: Seq<GraphNode>, id: NodeId) -> bool {
    exists|i: int| 0 <= i < nodes.len() && nodes[i].id == id
}

/// The position of the node with this id.
pub open spec fn index_of(nodes: Seq<GraphNode>, id: NodeId) -> int {
    choose|i: int| 0 <= i < nodes.len() && nodes[i].id == id
}

/// The nodes as a map from id to kind.
pub open spec fn kind_map(nodes: Seq<GraphNode>) -> Map<NodeId, NodeKind> {
    Map::new(|id: NodeId| has_id(nodes, id), |id: NodeId| nodes[index_of(nodes, id)].kind)
}

/// The ids of the nodes, in order.
pub open spec fn ids(nodes: Seq<GraphNode>) -> Seq<NodeId> {
    nodes.map_values(|n: GraphNode| n.id)
}

/// The pin that feeds `target`: the source of the first connection that
/// ends there.
pub open spec fn first_source(conns: Seq<Connection>, target: PinRef) -> Option<PinRef>
    decreases conns.len(),
{
    if conns.len() == 0 {
        None
    } else if conns[0].to == target {
        Some(conns[0].from)
    } else {
        first_source(conns.drop_first(), target)
    }
}

/// The node that `source` leads to: the target node of the first connection
/// that starts there.
pub open spec fn first_target(conns: Seq<Connection>, source: PinRef) -> Option<NodeId>
    decreases conns.len(),
{
    if conns.len() == 0 {
        None
    } else if conns[0].from == source {
        Some(conns[0].to.node_id)
    } else {
        first_target(conns.drop_first(), source)
    }
}

/// The data input pin `index` of a node.
pub open spec fn data_input(node_id: NodeId, index: usize) -> PinRef {
    PinRef { node_id, kind: PinKind::Input, index, is_exec: false }
}

/// The exec output pin `index` of a node.
pub open spec fn exec_output(node_id: NodeId, index: usize) -> PinRef {
    PinRef { node_id, kind: PinKind::Output, index, is_exec: true }
}

/// The connections that touch neither end at `node_id`.
pub open spec fn without_node(conns: Seq<Connection>, node_id: NodeId) -> Seq<Connection>
    decreases conns.len(),
{
    if conns.len() == 0 {
        Seq::empty()
    } else {
        let rest = without_node(conns.drop_last(), node_id);
        let c = conns.last();
        if c.from.node_id != node_id && c.to.node_id != node_id {
            rest.push(c)
        } else {
            rest
        }
    }
}

/// The connections that do not end at `pin`.
pub open spec fn without_target(conns: Seq<Connection>, pin: PinRef) -> Seq<Connection>
    decreases conns.len(),
{
    if conns.len() == 0 {
        Seq::empty()
    } else {
        let rest = without_target(conns.drop_last(), pin);
        let c = conns.last();
        if c.to != pin {
            rest.push(c)
        } else {
            rest
        }
    }
}

/// The id of the first Start node (the smallest, ids being increasing).
pub open spec fn first_start(nodes: Seq<GraphNode>) -> Option<NodeId>
    decreases nodes.len(),
{
    if nodes.len() == 0 {
        None
    } else if nodes[0].kind is Start {
        Some(nodes[0].id)
    } else {
        first_start(nodes.drop_first())
    }
}

/// The ids of the Print nodes, in id order.
pub open spec fn print_ids(nodes: Seq<GraphNode>) -> Seq<NodeId>
    decreases nodes.len(),
{
    if nodes.len() == 0 {
        Seq::empty()
    } else {
        let rest = print_ids(nodes.drop_last());
        if nodes.last().kind is Print {
            rest.push(nodes.last().id)
        } else {
            rest
        }
    }
}


/// The nodes whose ids are in `sel` (`inside`) or not in it, in order.
pub open spec fn nodes_where(nodes: Seq<GraphNode>, sel: Set<NodeId>, inside: bool) -> Seq<GraphNode>
    decreases nodes.len(),
{
    if nodes.len() == 0 {
        Seq::empty()
    } else {
        let rest = nodes_where(nodes.drop_last(), sel, inside);
        if sel.contains(nodes.last().id) == inside {
            rest.push(nodes.last())
        } else {
            rest
        }
    }
}

/// Appending a node with an id above all others adds it to the kind map.
pub proof fn lemma_kind_map_push(nodes: Seq<GraphNode>, x: GraphNode)
    requires
        ids_increasing(nodes.push(x)),
    ensures
        kind_map(nodes.push(x)) == kind_map(nodes).insert(x.id, x.kind),
        ids_increasing(nodes),
{
    let n = nodes.push(x);
    assert forall|i: int, j: int| 0 <= i < j < nodes.len() implies nodes[i].id < nodes[j].id by {
        assert(n[i] == nodes[i] && n[j] == nodes[j]);
    }
    assert forall|k: NodeId| #[trigger] kind_map(n).contains_key(k) == kind_map(nodes).insert(
        x.id,
        x.kind,
    ).contains_key(k) by {
        if has_id(nodes, k) {
            let i = choose|i: int| 0 <= i < nodes.len() && nodes[i].id == k;
            assert(n[i].id == k);
        }
        if has_id(n, k) {
            let i = choose|i: int| 0 <= i < n.len() && n[i].id == k;
            if i < nodes.len() {
                assert(nodes[i].id == k);
            }
        }
        if k == x.id {
            assert(n[nodes.len() as int].id == k);
        }
    }
    assert forall|k: NodeId| #[trigger] kind_map(n).contains_key(k) implies kind_map(n)[k]
        == kind_map(nodes).insert(x.id, x.kind)[k] by {
        let i = index_of(n, k);
        let last = nodes.len() as int;
        if k == x.id {
            if i != last {
                assert(n[i].id < n[last].id);
            }
        } else {
            assert(i != last);
            assert(n[i] == nodes[i]);
            let j = index_of(nodes, k);
            if i != j {
                if i < j {
                    assert(n[i].id < n[j].id);
                } else {
                    assert(n[j].id < n[i].id);
                }
            }
        }
    }
    assert(kind_map(n) =~= kind_map(nodes).insert(x.id, x.kind));
}

/// Selecting nodes by id keeps increasing ids, and keeps exactly the kinds
/// of the selected (or unselected) ids.
pub proof fn lemma_nodes_where(nodes: Seq<GraphNode>, sel: Set<NodeId>, inside: bool)
    requires
        ids_increasing(nodes),
    ensures
        ids_increasing(nodes_where(nodes, sel, inside)),
        kind_map(nodes_where(nodes, sel, inside)) == (if inside {
            kind_map(nodes).restrict(sel)
        } else {
            kind_map(nodes).remove_keys(sel)
        }),
        forall|i: int|
            0 <= i < nodes_where(nodes, sel, inside).len() ==> exists|j: int|
                0 <= j < nodes.len() && nodes[j] == #[trigger] nodes_where(nodes, sel, inside)[i],
    decreases nodes.len(),
{
    if nodes.len() == 0 {
        assert(kind_map(nodes) =~= Map::empty());
        assert(kind_map(nodes_where(nodes, sel, inside)) =~= Map::empty());
        if inside {
            assert(kind_map(nodes).restrict(sel) =~= Map::empty());
        } else {
            assert(kind_map(nodes).remove_keys(sel) =~= Map::empty());
        }
    } else {
        let init = nodes.drop_last();
        let x = nodes.last();
        assert(nodes =~= init.push(x));
        lemma_kind_map_push(init, x);
        lemma_nodes_where(init, sel, inside);
        let rest = nodes_where(init, sel, inside);
        assert forall|i: int| 0 <= i < rest.len() implies exists|j: int|
            0 <= j < nodes.len() && nodes[j] == #[trigger] rest[i] by {
            let j = choose|j: int| 0 <= j < init.len() && init[j] == rest[i];
            assert(nodes[j] == init[j]);
        }
        if sel.contains(x.id) == inside {
            let r = rest.push(x);
            assert forall|i: int, j: int| 0 <= i < j < r.len() implies r[i].id < r[j].id by {
                if j < rest.len() {
                    assert(r[i] == rest[i] && r[j] == rest[j]);
                } else {
                    assert(r[i] == rest[i]);
                    let k = choose|k: int| 0 <= k < init.len() && init[k] == rest[i];
                    assert(nodes[k].id < nodes[nodes.len() - 1].id);
                }
            }
            lemma_kind_map_push(rest, x);
            assert forall|i: int| 0 <= i < r.len() implies exists|j: int|
                0 <= j < nodes.len() && nodes[j] == #[trigger] r[i] by {
                if i < rest.len() {
                    assert(r[i] == rest[i]);
                } else {
                    assert(nodes[nodes.len() - 1] == r[i]);
                }
            }
            if inside {
                assert(kind_map(r) =~= kind_map(nodes).restrict(sel));
            } else {
                assert(kind_map(r) =~= kind_map(nodes).remove_keys(sel));
            }
        } else {
            if inside {
                assert(kind_map(rest) =~= kind_map(nodes).restrict(sel));
            } else {
                assert(kind_map(rest) =~= kind_map(nodes).remove_keys(sel));
            }
        }
    }
}

/// One user function of a graph: its name, parameter names, and the first
/// node of its body.
#[derive(Debug)]
pub struct FunctionEntry {
    pub name: String,
    pub params: Vec<String>,
    pub body_start: Option<NodeId>,
}

/// The contents of a graph: its nodes in id order and its connections.
pub struct GraphView {
    pub nodes: Seq<GraphNode>,
    pub connections: Seq<Connection>,
}

/// A graph with no nodes and no connections.
pub open spec fn empty_graph() -> GraphView {
    GraphView { nodes: Seq::empty(), connections: Seq::empty() }
}

impl View for Graph {
    type V = GraphView;

    open spec fn view(&self) -> GraphView {
        GraphView { nodes: self.nodes@, connections: self.connections@ }
    }
}


/// A function entry as (name, parameter names, first body node).
pub open spec fn entry_view(e: FunctionEntry) -> (Seq<char>, Seq<Seq<char>>, Option<NodeId>) {
    (e.name@, strs(e.params@), e.body_start)
}

/// The function definitions among the nodes, in id order: name, parameter
/// names, and the node after exec output 0.
pub open spec fn function_entries(nodes: Seq<GraphNode>, conns: Seq<Connection>) -> Seq<
    (Seq<char>, Seq<Seq<char>>, Option<NodeId>),
>
    decreases nodes.len(),
{
    if nodes.len() == 0 {
        Seq::empty()
    } else {
        let r = function_entries(nodes.drop_last(), conns);
        match nodes.last().kind {
            NodeKind::FunctionDef { name, params } => r.push(
                (name@, param_list(params@), first_target(conns, exec_output(nodes.last().id, 0))),
            ),
            _ => r,
        }
    }
}


/// The kinds that inserting these (id, kind) entries in order leaves: a
/// later entry for an id replaces an earlier one.
pub open spec fn entries_map(entries: Seq<(NodeId, NodeKind)>) -> Map<NodeId, NodeKind>
    decreases entries.len(),
{
    if entries.len() == 0 {
        Map::empty()
    } else {
        entries_map(entries.drop_last()).insert(entries.last().0, entries.last().1)
    }
}

impl Graph {
    /// Nodes are kept in strictly increasing id order.
    pub open spec fn wf(&self) -> bool {
        ids_increasing(self.nodes@)
    }

    /// The nodes as a map from id to kind.
    pub open spec fn kinds(&self) -> Map<NodeId, NodeKind> {
        kind_map(self.nodes@)
    }

    /// An empty graph.
    pub fn new() -> (g: Graph)
        ensures
            g.wf(),
            g.nodes@.len() == 0,
            g.connections@.len() == 0,
            g@ == empty_graph(),
            g.kinds() == Map::<NodeId, NodeKind>::empty(),
    {
        let g = Graph { nodes: Vec::new(), connections: Vec::new() };
        proof {
            assert(g.kinds() =~= Map::<NodeId, NodeKind>::empty());
            assert(g@.nodes =~= empty_graph().nodes);
            assert(g@.connections =~= empty_graph().connections);
        }
        g
    }

    /// The position of the node with `id`.
    pub fn position_of(&self, id: NodeId) -> (r: Option<usize>)
        requires
            self.wf(),
        ensures
            match r {
                Some(k) => k < self.nodes@.len() && self.nodes@[k as int].id == id
                    && has_id(self.nodes@, id) && index_of(self.nodes@, id) == k,
                None => !has_id(self.nodes@, id),
            },
    {
        let mut i: usize = 0;
        while i < self.nodes.len()
            invariant
                i <= self.nodes@.len(),
                self.wf(),
                forall|j: int| 0 <= j < i ==> self.nodes@[j].id != id,
            decreases self.nodes@.len() - i,
        {
            if self.nodes[i].id == id {
                proof {
                    assert(self.nodes@[i as int].id == id);
                    assert(has_id(self.nodes@, id));
                    let k = index_of(self.nodes@, id);
                    assert(self.nodes@[k].id == id);
                    if k != i {
                        if k < i {
                            assert(self.nodes@[k].id < self.nodes@[i as int].id);
                        } else {
                            assert(self.nodes@[i as int].id < self.nodes@[k].id);
                        }
                    }
                }
                return Some(i);
            }
            i = i + 1;
        }
        None
    }

    /// The kind of the node with `id`.
    pub fn get(&self, id: NodeId) -> (r: Option<&NodeKind>)
        requires
            self.wf(),
        ensures
            match r {
                Some(k) => self.kinds().contains_key(id) && *k == self.kinds()[id],
                None => !self.kinds().contains_key(id),
            },
    {
        match self.position_of(id) {
            Some(k) => Some(&self.nodes[k].kind),
            None => None,
        }
    }

    /// The pin feeding data input `input_index` of `node_id`.
    pub fn find_source_for_input(&self, node_id: NodeId, input_index: usize) -> (r: Option<PinRef>)
        ensures
            r == first_source(self.connections@, data_input(node_id, input_index)),
    {
        let target = PinRef { node_id, kind: PinKind::Input, index: input_index, is_exec: false };
        let mut i: usize = 0;
        proof {
            assert(self.connections@.skip(0) =~= self.connections@);
        }
        while i < self.connections.len()
            invariant
                i <= self.connections@.len(),
                target == data_input(node_id, input_index),
                first_source(self.connections@, target) == first_source(
                    self.connections@.skip(i as int),
                    target,
                ),
            decreases self.connections@.len() - i,
        {
            proof {
                assert(self.connections@.skip(i as int).drop_first() =~= self.connections@.skip(
                    i + 1,
                ));
            }
            if self.connections[i].to == target {
                proof {
                    let rest = self.connections@.skip(i as int);
                    assert(rest[0] == self.connections@[i as int]);
                    assert(rest[0].to == target);
                    assert(first_source(rest, target) == Some(rest[0].from));
                }
                return Some(self.connections[i].from);
            }
            i = i + 1;
        }
        None
    }

    /// The node that exec output `output_index` of `node_id` leads to.
    pub fn find_exec_target(&self, node_id: NodeId, output_index: usize) -> (r: Option<NodeId>)
        ensures
            r == first_target(self.connections@, exec_output(node_id, output_index)),
    {
        let source = PinRef { node_id, kind: PinKind::Output, index: output_index, is_exec: true };
        let mut i: usize = 0;
        proof {
            assert(self.connections@.skip(0) =~= self.connections@);
        }
        while i < self.connections.len()
            invariant
                i <= self.connections@.len(),
                source == exec_output(node_id, output_index),
                first_target(self.connections@, source) == first_target(
                    self.connections@.skip(i as int),
                    source,
                ),
            decreases self.connections@.len() - i,
        {
            proof {
                assert(self.connections@.skip(i as int).drop_first() =~= self.connections@.skip(
                    i + 1,
                ));
            }
            if self.connections[i].from == source {
                proof {
                    let rest = self.connections@.skip(i as int);
                    assert(rest[0] == self.connections@[i as int]);
                    assert(rest[0].from == source);
                    assert(first_target(rest, source) == Some(rest[0].to.node_id));
                }
                return Some(self.connections[i].to.node_id);
            }
            i = i + 1;
        }
        None
    }

    /// The Start node with the smallest id.
    pub fn find_start_node(&self) -> (r: Option<NodeId>)
        ensures
            r == first_start(self.nodes@),
    {
        let mut i: usize = 0;
        proof {
            assert(self.nodes@.skip(0) =~= self.nodes@);
        }
        while i < self.nodes.len()
            invariant
                i <= self.nodes@.len(),
                first_start(self.nodes@) == first_start(self.nodes@.skip(i as int)),
            decreases self.nodes@.len() - i,
        {
            proof {
                assert(self.nodes@.skip(i as int).drop_first() =~= self.nodes@.skip(i + 1));
            }
            if let NodeKind::Start = self.nodes[i].kind {
                proof {
                    assert(self.nodes@.skip(i as int)[0] == self.nodes@[i as int]);
                }
                return Some(self.nodes[i].id);
            }
            i = i + 1;
        }
        None
    }

    /// The ids of the Print nodes, in increasing order.
    pub fn print_node_ids(&self) -> (r: Vec<NodeId>)
        ensures
            r@ == print_ids(self.nodes@),
    {
        let mut r: Vec<NodeId> = Vec::new();
        let mut i: usize = 0;
        proof {
            assert(self.nodes@.take(0) =~= Seq::<GraphNode>::empty());
        }
        while i < self.nodes.len()
            invariant
                i <= self.nodes@.len(),
                r@ == print_ids(self.nodes@.take(i as int)),
            decreases self.nodes@.len() - i,
        {
            proof {
                assert(self.nodes@.take(i + 1).drop_last() =~= self.nodes@.take(i as int));
            }
            if let NodeKind::Print = self.nodes[i].kind {
                r.push(self.nodes[i].id);
            }
            i = i + 1;
        }
        proof {
            assert(self.nodes@.take(self.nodes@.len() as int) =~= self.nodes@);
        }
        r
    }

    /// The function definitions of the graph, in id order.
    pub fn collect_functions(&self) -> (r: Vec<FunctionEntry>)
        ensures
            r@.map_values(|e: FunctionEntry| entry_view(e)) == function_entries(
                self.nodes@,
                self.connections@,
            ),
    {
        let mut r: Vec<FunctionEntry> = Vec::new();
        let mut i: usize = 0;
        proof {
            assert(self.nodes@.take(0) =~= Seq::<GraphNode>::empty());
            assert(r@.map_values(|e: FunctionEntry| entry_view(e)) =~= Seq::empty());
        }
        while i < self.nodes.len()
            invariant
                i <= self.nodes@.len(),
                r@.map_values(|e: FunctionEntry| entry_view(e)) == function_entries(
                    self.nodes@.take(i as int),
                    self.connections@,
                ),
            decreases self.nodes@.len() - i,
        {
            proof {
                assert(self.nodes@.take(i + 1).drop_last() =~= self.nodes@.take(i as int));
                assert(self.nodes@.take(i + 1).last() == self.nodes@[i as int]);
            }
            match &self.nodes[i].kind {
                NodeKind::FunctionDef { name, params } => {
                    let plist = split_params(params.as_str());
                    let start = self.find_exec_target(self.nodes[i].id, 0);
                    let ghost r0 = r@;
                    r.push(FunctionEntry { name: name.clone(), params: plist, body_start: start });
                    proof {
                        assert(r@.map_values(|e: FunctionEntry| entry_view(e)) =~= r0.map_values(
                            |e: FunctionEntry| entry_view(e),
                        ).push(entry_view(r@.last())));
                    }
                },
                _ => {},
            }
            i = i + 1;
        }
        proof {
            assert(self.nodes@.take(self.nodes@.len() as int) =~= self.nodes@);
        }
        r
    }

    /// A graph of the given nodes (inserted in order, so a later entry for
    /// an id replaces an earlier one) and connections.
    pub fn from_entries(entries: Vec<(NodeId, NodeKind)>, connections: Vec<Connection>) -> (g: Graph)
        ensures
            g.wf(),
            g.kinds() == entries_map(entries@),
            g.connections@ == connections@,
    {
        let mut g = Graph { nodes: Vec::new(), connections };
        let mut rest = entries;
        let ghost all = rest@;
        let ghost mut i: int = 0;
        proof {
            assert(g.kinds() =~= Map::<NodeId, NodeKind>::empty());
            assert(all.take(0) =~= Seq::<(NodeId, NodeKind)>::empty());
            assert(all.skip(0) =~= all);
        }
        while rest.len() > 0
            invariant
                0 <= i <= all.len(),
                rest@ == all.skip(i),
                g.wf(),
                g.kinds() == entries_map(all.take(i)),
                g.connections@ == connections@,
            decreases rest@.len(),
        {
            let (id, kind) = rest.remove(0);
            g.insert_node(id, kind);
            proof {
                assert(all.take(i + 1).drop_last() =~= all.take(i));
                assert(all.take(i + 1).last() == all[i]);
                assert(rest@ =~= all.skip(i + 1));
                i = i + 1;
            }
        }
        proof {
            assert(all.take(i) =~= all);
        }
        g
    }

    /// Whether some connection ends at `pin`.
    pub fn is_input_connected(&self, pin: PinRef) -> (b: bool)
        ensures
            b == exists|i: int| 0 <= i < self.connections@.len() && (#[trigger] self.connections@[i]).to == pin,
    {
        crate::types::is_input_connected(self.connections.as_slice(), pin)
    }

    /// Removes every connection that touches `node_id`.
    pub fn remove_connections_for(&mut self, node_id: NodeId)
        ensures
            final(self).connections@ == without_node(old(self).connections@, node_id),
            final(self).nodes@ == old(self).nodes@,
    {
        let mut kept: Vec<Connection> = Vec::new();
        let mut i: usize = 0;
        proof {
            assert(self.connections@.take(0) =~= Seq::<Connection>::empty());
        }
        while i < self.connections.len()
            invariant
                i <= self.connections@.len(),
                kept@ == without_node(self.connections@.take(i as int), node_id),
            decreases self.connections@.len() - i,
        {
            proof {
                assert(self.connections@.take(i + 1).drop_last() =~= self.connections@.take(i as int));
            }
            let c = self.connections[i];
            if c.from.node_id != node_id && c.to.node_id != node_id {
                kept.push(c);
            }
            i = i + 1;
        }
        proof {
            assert(self.connections@.take(self.connections@.len() as int) =~= self.connections@);
        }
        self.connections = kept;
    }

    /// Wires `conn`, replacing whatever fed its input pin before: every
    /// input pin has at most one incoming connection.
    pub fn connect(&mut self, conn: Connection)
        ensures
            final(self).connections@ == without_target(old(self).connections@, conn.to).push(conn),
            final(self).nodes@ == old(self).nodes@,
    {
        let mut kept: Vec<Connection> = Vec::new();
        let mut i: usize = 0;
        proof {
            assert(self.connections@.take(0) =~= Seq::<Connection>::empty());
        }
        while i < self.connections.len()
            invariant
                i <= self.connections@.len(),
                kept@ == without_target(self.connections@.take(i as int), conn.to),
            decreases self.connections@.len() - i,
        {
            proof {
                assert(self.connections@.take(i + 1).drop_last() =~= self.connections@.take(i as int));
            }
            let c = self.connections[i];
            if c.to != conn.to {
                kept.push(c);
            }
            i = i + 1;
        }
        proof {
            assert(self.connections@.take(self.connections@.len() as int) =~= self.connections@);
        }
        kept.push(conn);
        self.connections = kept;
    }


    /// Moves the nodes whose ids are in `sel` out into a new graph without
    /// connections; the others stay, in order, with all connections.
    pub fn take_selected(&mut self, sel: &HashSet<NodeId>) -> (inner: Graph)
        ensures
            final(self).nodes@ == nodes_where(old(self).nodes@, sel@, false),
            final(self).connections@ == old(self).connections@,
            inner.nodes@ == nodes_where(old(self).nodes@, sel@, true),
            inner.connections@.len() == 0,
    {
        let mut rest: Vec<GraphNode> = Vec::new();
        std::mem::swap(&mut rest, &mut self.nodes);
        let ghost orig = rest@;
        let ghost mut i: int = 0;
        let mut kept: Vec<GraphNode> = Vec::new();
        let mut taken: Vec<GraphNode> = Vec::new();
        proof {
            assert(orig.take(0) =~= Seq::<GraphNode>::empty());
            assert(orig.skip(0) =~= orig);
        }
        while rest.len() > 0
            invariant
                0 <= i <= orig.len(),
                rest@ == orig.skip(i),
                kept@ == nodes_where(orig.take(i), sel@, false),
                taken@ == nodes_where(orig.take(i), sel@, true),
                self.connections@ == old(self).connections@,
                orig == old(self).nodes@,
            decreases rest@.len(),
        {
            let n = rest.remove(0);
            proof {
                assert(orig.take(i + 1).drop_last() =~= orig.take(i));
                assert(orig.take(i + 1).last() == orig[i]);
                assert(rest@ =~= orig.skip(i + 1));
                i = i + 1;
            }
            if sel.contains(&n.id) {
                taken.push(n);
            } else {
                kept.push(n);
            }
        }
        proof {
            assert(orig.take(i) =~= orig);
        }
        self.nodes = kept;
        Graph { nodes: taken, connections: Vec::new() }
    }

    /// Adds a node, or replaces the kind of the node that has `id` already,
    /// keeping ids in increasing order.
    pub fn insert_node(&mut self, id: NodeId, kind: NodeKind)
        requires
            old(self).wf(),
        ensures
            final(self).wf(),
            final(self).kinds() == old(self).kinds().insert(id, kind),
            final(self).connections@ == old(self).connections@,
    {
        let ghost old_nodes = self.nodes@;
        let mut pos: usize = 0;
        while pos < self.nodes.len() && self.nodes[pos].id < id
            invariant
                pos <= self.nodes@.len(),
                self.nodes@ == old_nodes,
                forall|j: int| 0 <= j < pos ==> self.nodes@[j].id < id,
            decreases self.nodes@.len() - pos,
        {
            pos = pos + 1;
        }
        if pos < self.nodes.len() && self.nodes[pos].id == id {
            let mut tail = self.nodes.split_off(pos);
            let _replaced = tail.remove(0);
            self.nodes.push(GraphNode { id, kind });
            self.nodes.append(&mut tail);
            proof {
                let n = self.nodes@;
                assert(n =~= old_nodes.update(pos as int, GraphNode { id, kind }));
                assert forall|i: int, j: int| 0 <= i < j < n.len() implies n[i].id < n[j].id by {
                    assert(old_nodes[i].id < old_nodes[j].id || (i != pos && j != pos) || true);
                    if i == pos {
                        assert(old_nodes[pos as int].id < old_nodes[j].id);
                    } else if j == pos {
                        assert(old_nodes[i].id < old_nodes[pos as int].id);
                    } else {
                        assert(old_nodes[i].id < old_nodes[j].id);
                    }
                }
                assert forall|k: NodeId| #[trigger] kind_map(n).contains_key(k) == kind_map(
                    old_nodes,
                ).insert(id, kind).contains_key(k) by {
                    if has_id(old_nodes, k) {
                        let x = choose|x: int| 0 <= x < old_nodes.len() && old_nodes[x].id == k;
                        assert(n[x].id == k);
                    }
                    if has_id(n, k) {
                        let x = choose|x: int| 0 <= x < n.len() && n[x].id == k;
                        assert(x == pos || old_nodes[x].id == k);
                    }
                }
                assert forall|k: NodeId| #[trigger] kind_map(n).contains_key(k) implies kind_map(
                    n,
                )[k] == kind_map(old_nodes).insert(id, kind)[k] by {
                    let x = index_of(n, k);
                    if k == id {
                        assert(n[pos as int].id == id);
                        if x != pos {
                            if x < pos {
                                assert(n[x].id < n[pos as int].id);
                            } else {
                                assert(n[pos as int].id < n[x].id);
                            }
                        }
                    } else {
                        let y = index_of(old_nodes, k);
                        assert(x != pos);
                        assert(n[x] == old_nodes[x]);
                        if x != y {
                            if x < y {
                                assert(old_nodes[x].id < old_nodes[y].id);
                            } else {
                                assert(old_nodes[y].id < old_nodes[x].id);
                            }
                        }
                    }
                }
                assert(kind_map(n) =~= kind_map(old_nodes).insert(id, kind));
            }
        } else {
            self.nodes.insert(pos, GraphNode { id, kind });
            proof {
                let n = self.nodes@;
                let g = GraphNode { id, kind };
                assert(n =~= old_nodes.insert(pos as int, g));
                assert forall|j: int| pos <= j < old_nodes.len() implies id < #[trigger] old_nodes[j].id by {
                    if j > pos {
                        assert(old_nodes[pos as int].id < old_nodes[j].id);
                    }
                }
                assert forall|i: int, j: int| 0 <= i < j < n.len() implies n[i].id < n[j].id by {
                    if j < pos {
                        assert(old_nodes[i].id < old_nodes[j].id);
                    } else if j == pos {
                    } else if i < pos {
                        assert(n[j] == old_nodes[j - 1]);
                    } else if i == pos {
                        assert(n[j] == old_nodes[j - 1]);
                    } else {
                        assert(old_nodes[i - 1].id < old_nodes[j - 1].id);
                    }
                }
                assert forall|k: NodeId| #[trigger] kind_map(n).contains_key(k) == kind_map(
                    old_nodes,
                ).insert(id, kind).contains_key(k) by {
                    if has_id(old_nodes, k) {
                        let x = choose|x: int| 0 <= x < old_nodes.len() && old_nodes[x].id == k;
                        if x < pos {
                            assert(n[x].id == k);
                        } else {
                            assert(n[x + 1].id == k);
                        }
                    }
                    if has_id(n, k) {
                        let x = choose|x: int| 0 <= x < n.len() && n[x].id == k;
                        if x < pos {
                            assert(old_nodes[x].id == k);
                        } else if x > pos {
                            assert(old_nodes[x - 1].id == k);
                        }
                    }
                    if k == id {
                        assert(n[pos as int].id == id);
                    }
                }
                assert forall|k: NodeId| #[trigger] kind_map(n).contains_key(k) implies kind_map(
                    n,
                )[k] == kind_map(old_nodes).insert(id, kind)[k] by {
                    let x = index_of(n, k);
                    if k == id {
                        assert(n[pos as int].id == id);
                        if x != pos {
                            if x < pos {
                                assert(n[x].id < n[pos as int].id);
                            } else {
                                assert(n[pos as int].id < n[x].id);
                            }
                        }
                    } else {
                        let y = index_of(old_nodes, k);
                        let xo = if x < pos {
                            x
                        } else {
                            x - 1
                        };
                        assert(x != pos);
                        assert(n[x] == old_nodes[xo]);
                        if xo != y {
                            if xo < y {
                                assert(old_nodes[xo].id < old_nodes[y].id);
                            } else {
                                assert(old_nodes[y].id < old_nodes[xo].id);
                            }
                        }
                    }
                }
                assert(kind_map(n) =~= kind_map(old_nodes).insert(id, kind));
            }
        }
    }
}

} // verus!
