//! The editing workspace: the open graph, the sub-graphs parked while
//! another graph is open, the breadcrumb stack, reusable functions, node
//! id allocation and the selection.
use std::collections::{HashMap, HashSet};
use vstd::prelude::*;

use crate::graph::{empty_graph, GraphView, Graph};
use crate::compile::lemma_kind_at;
use crate::node::{pair_labels, pair_types, NodeKind};
use crate::text::{owned, strs};
use crate::types::{BoundaryPin, GraphId, GraphKind, NodeId, PinDataType, ROOT_GRAPH_ID};

verus! {

broadcast use vstd::std_specs::hash::group_hash_axioms;

/// An interface pin with its label as a character sequence.
pub struct BoundaryPinV {
    pub label: Seq<char>,
    pub is_exec: bool,
    pub data_type: PinDataType,
}

/// Interface pins as views.
pub open spec fn boundary_views(v: Seq<BoundaryPin>) -> Seq<BoundaryPinV> {
    v.map_values(
        |p: BoundaryPin| BoundaryPinV { label: p.label@, is_exec: p.is_exec, data_type: p.data_type },
    )
}

/// Labels of the exec pins, in order.
pub open spec fn exec_labels(pins: Seq<BoundaryPinV>) -> Seq<Seq<char>>
    decreases pins.len(),
{
    if pins.len() == 0 {
        Seq::empty()
    } else {
        let r = exec_labels(pins.drop_last());
        if pins.last().is_exec {
            r.push(pins.last().label)
        } else {
            r
        }
    }
}

/// Labels of the data pins, in order.
pub open spec fn data_labels(pins: Seq<BoundaryPinV>) -> Seq<Seq<char>>
    decreases pins.len(),
{
    if pins.len() == 0 {
        Seq::empty()
    } else {
        let r = data_labels(pins.drop_last());
        if !pins.last().is_exec {
            r.push(pins.last().label)
        } else {
            r
        }
    }
}

/// Types of the data pins, in order.
pub open spec fn data_types(pins: Seq<BoundaryPinV>) -> Seq<PinDataType>
    decreases pins.len(),
{
    if pins.len() == 0 {
        Seq::empty()
    } else {
        let r = data_types(pins.drop_last());
        if !pins.last().is_exec {
            r.push(pins.last().data_type)
        } else {
            r
        }
    }
}

/// Whether `k` is a node calling sub-graph `graph_id` under `name`, with
/// the pin layout of the interface `inputs`/`outputs`.
pub open spec fn is_call_node(
    k: NodeKind,
    graph_id: GraphId,
    name: Seq<char>,
    inputs: Seq<BoundaryPinV>,
    outputs: Seq<BoundaryPinV>,
) -> bool {
    match k {
        NodeKind::GroupNode { graph_id: g, name: n, exec_in, exec_out, data_in, data_out } => {
            &&& g == graph_id
            &&& n@ == name
            &&& strs(exec_in@) == exec_labels(inputs)
            &&& strs(exec_out@) == exec_labels(outputs)
            &&& pair_labels(data_in@) == data_labels(inputs)
            &&& pair_types(data_in@) == data_types(inputs)
            &&& pair_labels(data_out@) == data_labels(outputs)
            &&& pair_types(data_out@) == data_types(outputs)
        },
        _ => false,
    }
}

/// A copy of interface pins.
pub fn copy_boundary(v: &Vec<BoundaryPin>) -> (r: Vec<BoundaryPin>)
    ensures
        boundary_views(r@) == boundary_views(v@),
{
    let mut r: Vec<BoundaryPin> = Vec::new();
    let mut i: usize = 0;
    while i < v.len()
        invariant
            i <= v@.len(),
            boundary_views(r@) == boundary_views(v@.take(i as int)),
        decreases v@.len() - i,
    {
        let p = &v[i];
        let ghost r0 = r@;
        let label = p.label.clone();
        r.push(BoundaryPin { label, is_exec: p.is_exec, data_type: p.data_type });
        proof {
            assert(v@.take(i + 1) =~= v@.take(i as int).push(v@[i as int]));
            assert(boundary_views(r@) =~= boundary_views(r0).push(boundary_views(v@.take(i + 1)).last()));
            assert(boundary_views(r@) =~= boundary_views(v@.take(i + 1)));
        }
        i = i + 1;
    }
    proof {
        assert(v@.take(v@.len() as int) =~= v@);
    }
    r
}

/// The labels of the exec pins.
fn exec_labels_of(pins: &Vec<BoundaryPin>) -> (r: Vec<String>)
    ensures
        strs(r@) == exec_labels(boundary_views(pins@)),
{
    let ghost all = boundary_views(pins@);
    let mut r: Vec<String> = Vec::new();
    let mut i: usize = 0;
    while i < pins.len()
        invariant
            i <= pins@.len(),
            all == boundary_views(pins@),
            strs(r@) == exec_labels(all.take(i as int)),
        decreases pins@.len() - i,
    {
        proof {
            assert(all.take(i + 1).drop_last() =~= all.take(i as int));
        }
        if pins[i].is_exec {
            let ghost r0 = r@;
            r.push(pins[i].label.clone());
            proof {
                assert(strs(r@) =~= strs(r0).push(pins@[i as int].label@));
            }
        }
        i = i + 1;
    }
    proof {
        assert(all.take(pins@.len() as int) =~= all);
    }
    r
}

/// The labels and types of the data pins.
fn data_pins_of(pins: &Vec<BoundaryPin>) -> (r: Vec<(String, PinDataType)>)
    ensures
        pair_labels(r@) == data_labels(boundary_views(pins@)),
        pair_types(r@) == data_types(boundary_views(pins@)),
{
    let ghost all = boundary_views(pins@);
    let mut r: Vec<(String, PinDataType)> = Vec::new();
    let mut i: usize = 0;
    while i < pins.len()
        invariant
            i <= pins@.len(),
            all == boundary_views(pins@),
            pair_labels(r@) == data_labels(all.take(i as int)),
            pair_types(r@) == data_types(all.take(i as int)),
        decreases pins@.len() - i,
    {
        proof {
            assert(all.take(i + 1).drop_last() =~= all.take(i as int));
        }
        if !pins[i].is_exec {
            let ghost r0 = r@;
            r.push((pins[i].label.clone(), pins[i].data_type));
            proof {
                assert(pair_labels(r@) =~= pair_labels(r0).push(pins@[i as int].label@));
                assert(pair_types(r@) =~= pair_types(r0).push(pins@[i as int].data_type));
            }
        }
        i = i + 1;
    }
    proof {
        assert(all.take(pins@.len() as int) =~= all);
    }
    r
}

/// A node that calls sub-graph `graph_id` under `name`, with the pins of
/// the interface `inputs`/`outputs`.
pub fn call_node_kind(
    graph_id: GraphId,
    name: String,
    inputs: &Vec<BoundaryPin>,
    outputs: &Vec<BoundaryPin>,
) -> (k: NodeKind)
    ensures
        is_call_node(k, graph_id, name@, boundary_views(inputs@), boundary_views(outputs@)),
{
    NodeKind::GroupNode {
        graph_id,
        name,
        exec_in: exec_labels_of(inputs),
        exec_out: exec_labels_of(outputs),
        data_in: data_pins_of(inputs),
        data_out: data_pins_of(outputs),
    }
}

/// The interface of a sub-graph: its input pins and its output pins.
pub type Boundary = (Vec<BoundaryPin>, Vec<BoundaryPin>);

/// The editing workspace.
pub struct Workspace {
    /// The graph open for editing.
    pub graph: Graph,
    /// Graphs parked while another one is open, by id.
    pub subgraphs: HashMap<GraphId, Graph>,
    pub graph_names: HashMap<GraphId, String>,
    pub graph_kinds: HashMap<GraphId, GraphKind>,
    pub graph_boundary: HashMap<GraphId, Boundary>,
    /// Breadcrumbs from the root graph to the open one.
    pub graph_stack: Vec<GraphId>,
    /// The id that the next node gets.
    pub next_id: NodeId,
    /// The id that the next sub-graph gets.
    pub next_graph_id: GraphId,
    pub selection: HashSet<NodeId>,
}

/// The parked graphs as views.
pub open spec fn parked_views(m: Map<GraphId, Graph>) -> Map<GraphId, GraphView> {
    m.map_values(|g: Graph| g@)
}

/// The graph parked under `id`, or an empty one.
pub open spec fn parked_or_empty(m: Map<GraphId, GraphView>, id: GraphId) -> GraphView {
    if m.contains_key(id) {
        m[id]
    } else {
        empty_graph()
    }
}

/// Going back along the breadcrumbs until `index` is the last one: each
/// step parks the open graph under its id and opens the one before it.
pub open spec fn breadcrumb_back(
    stack: Seq<GraphId>,
    open: GraphView,
    parked: Map<GraphId, GraphView>,
    index: nat,
) -> (Seq<GraphId>, GraphView, Map<GraphId, GraphView>)
    decreases stack.len(),
{
    if stack.len() > index + 1 {
        let target = stack[stack.len() - 2];
        let p = parked.insert(stack.last(), open);
        breadcrumb_back(stack.drop_last(), parked_or_empty(p, target), p.remove(target), index)
    } else {
        (stack, open, parked)
    }
}

impl Workspace {
    /// The open graph and every parked graph keep their nodes in id order.
    pub open spec fn wf(&self) -> bool {
        &&& self.graph.wf()
        &&& forall|k: GraphId| #[trigger]
            self.subgraphs@.contains_key(k) ==> self.subgraphs@[k].wf()
    }

    /// The id of the open graph: the last breadcrumb, or the root.
    pub open spec fn active_id(&self) -> GraphId {
        if self.graph_stack@.len() == 0 {
            ROOT_GRAPH_ID
        } else {
            self.graph_stack@.last()
        }
    }

    /// Whether `k` is a node calling sub-graph `graph_id`, named after it
    /// ("Function" if unnamed) and laid out for its interface (none if it
    /// has none).
    pub open spec fn is_call_of(&self, k: NodeKind, graph_id: GraphId) -> bool {
        is_call_node(
            k,
            graph_id,
            if self.graph_names@.contains_key(graph_id) {
                self.graph_names@[graph_id]@
            } else {
                "Function"@
            },
            if self.graph_boundary@.contains_key(graph_id) {
                boundaries_view(self.graph_boundary@)[graph_id].0
            } else {
                Seq::empty()
            },
            if self.graph_boundary@.contains_key(graph_id) {
                boundaries_view(self.graph_boundary@)[graph_id].1
            } else {
                Seq::empty()
            },
        )
    }

    /// A fresh workspace: the empty root graph "Main" is open.
    pub fn new() -> (w: Workspace)
        ensures
            w.wf(),
            w.graph@ == empty_graph(),
            w.subgraphs@ == Map::<GraphId, Graph>::empty(),
            w.graph_names@.dom() == set![ROOT_GRAPH_ID],
            w.graph_names@[ROOT_GRAPH_ID]@ == "Main"@,
            w.graph_kinds@ == Map::<GraphId, GraphKind>::empty(),
            w.graph_boundary@ == Map::<GraphId, Boundary>::empty(),
            w.graph_stack@ == seq![ROOT_GRAPH_ID],
            w.next_id == 0,
            w.next_graph_id == ROOT_GRAPH_ID + 1,
            w.selection@ == Set::<NodeId>::empty(),
    {
        let mut graph_names: HashMap<GraphId, String> = HashMap::new();
        graph_names.insert(ROOT_GRAPH_ID, owned("Main"));
        let w = Workspace {
            graph: Graph::new(),
            subgraphs: HashMap::new(),
            graph_names,
            graph_kinds: HashMap::new(),
            graph_boundary: HashMap::new(),
            graph_stack: vec![ROOT_GRAPH_ID],
            next_id: 0,
            next_graph_id: ROOT_GRAPH_ID + 1,
            selection: HashSet::new(),
        };
        proof {
            assert(w.graph_names@.dom() =~= set![ROOT_GRAPH_ID]);
        }
        w
    }

    /// The id of the open graph.
    pub fn active_graph_id(&self) -> (id: GraphId)
        ensures
            id == self.active_id(),
    {
        if self.graph_stack.len() == 0 {
            ROOT_GRAPH_ID
        } else {
            self.graph_stack[self.graph_stack.len() - 1]
        }
    }

    /// Parks the open graph under its id and opens `target` (an empty graph
    /// if nothing is parked under it); the selection is cleared.
    pub fn enter_subgraph(&mut self, target: GraphId)
        requires
            old(self).wf(),
        ensures
            final(self).wf(),
            ({
                let p = parked_views(old(self).subgraphs@).insert(old(self).active_id(), old(self).graph@);
                &&& final(self).graph@ == parked_or_empty(p, target)
                &&& parked_views(final(self).subgraphs@) == p.remove(target)
            }),
            final(self).graph_stack@ == old(self).graph_stack@.push(target),
            final(self).selection@ == Set::<NodeId>::empty(),
            final(self).graph_names@ == old(self).graph_names@,
            final(self).graph_kinds@ == old(self).graph_kinds@,
            final(self).graph_boundary@ == old(self).graph_boundary@,
            final(self).next_id == old(self).next_id,
            final(self).next_graph_id == old(self).next_graph_id,
    {
        let current = self.active_graph_id();
        let mut parked = Graph::new();
        std::mem::swap(&mut parked, &mut self.graph);
        self.subgraphs.insert(current, parked);
        let ghost p = parked_views(self.subgraphs@);
        match self.subgraphs.remove(&target) {
            Some(g) => {
                self.graph = g;
            },
            None => {},
        }
        self.selection.clear();
        self.graph_stack.push(target);
        proof {
            assert(p =~= parked_views(old(self).subgraphs@).insert(old(self).active_id(), old(self).graph@));
            assert(parked_views(self.subgraphs@) =~= p.remove(target));
        }
    }

    /// Goes back along the breadcrumbs until breadcrumb `index` is the open
    /// graph (nothing happens for an index at or past the last one); the
    /// selection is cleared.
    pub fn navigate_to_breadcrumb(&mut self, index: usize)
        requires
            old(self).wf(),
            index < usize::MAX,
        ensures
            final(self).wf(),
            ({
                let b = breadcrumb_back(
                    old(self).graph_stack@,
                    old(self).graph@,
                    parked_views(old(self).subgraphs@),
                    index as nat,
                );
                &&& final(self).graph_stack@ == b.0
                &&& final(self).graph@ == b.1
                &&& parked_views(final(self).subgraphs@) == b.2
            }),
            final(self).selection@ == Set::<NodeId>::empty(),
            final(self).graph_names@ == old(self).graph_names@,
            final(self).graph_kinds@ == old(self).graph_kinds@,
            final(self).graph_boundary@ == old(self).graph_boundary@,
            final(self).next_id == old(self).next_id,
            final(self).next_graph_id == old(self).next_graph_id,
    {
        let ghost goal = breadcrumb_back(
            self.graph_stack@,
            self.graph@,
            parked_views(self.subgraphs@),
            index as nat,
        );
        while self.graph_stack.len() > index + 1
            invariant
                self.wf(),
                index < usize::MAX,
                breadcrumb_back(self.graph_stack@, self.graph@, parked_views(self.subgraphs@), index as nat)
                    == goal,
                self.graph_names@ == old(self).graph_names@,
                self.graph_kinds@ == old(self).graph_kinds@,
                self.graph_boundary@ == old(self).graph_boundary@,
                self.next_id == old(self).next_id,
                self.next_graph_id == old(self).next_graph_id,
            decreases self.graph_stack@.len(),
        {
            let n = self.graph_stack.len();
            let popped_target = self.graph_stack[n - 2];
            let current_id = self.graph_stack[n - 1];
            let ghost s0 = self.graph_stack@;
            let ghost open0 = self.graph@;
            let ghost p = parked_views(self.subgraphs@).insert(current_id, open0);
            let mut parked = Graph::new();
            std::mem::swap(&mut parked, &mut self.graph);
            self.subgraphs.insert(current_id, parked);
            match self.subgraphs.remove(&popped_target) {
                Some(g) => {
                    self.graph = g;
                },
                None => {},
            }
            self.graph_stack.pop();
            proof {
                assert(parked_views(self.subgraphs@) =~= p.remove(popped_target));
                assert(self.graph_stack@ =~= s0.drop_last());
            }
        }
        self.selection.clear();
    }
}


/// Whether node kind `new_k` is `old_k` with a call of sub-graph `g`
/// re-laid out for the interface `inputs`/`outputs` (other kinds stay).
pub open spec fn synced(
    old_k: NodeKind,
    new_k: NodeKind,
    g: GraphId,
    inputs: Seq<BoundaryPinV>,
    outputs: Seq<BoundaryPinV>,
) -> bool {
    match old_k {
        NodeKind::GroupNode { graph_id, name, .. } => if graph_id == g {
            is_call_node(new_k, g, name@, inputs, outputs)
        } else {
            new_k == old_k
        },
        _ => new_k == old_k,
    }
}

/// Whether `after` is `before` with every call of sub-graph `g` re-laid
/// out for the interface `inputs`/`outputs`, and nothing else changed.
pub open spec fn calls_synced(
    before: Graph,
    after: Graph,
    g: GraphId,
    inputs: Seq<BoundaryPinV>,
    outputs: Seq<BoundaryPinV>,
) -> bool {
    &&& after.connections@ == before.connections@
    &&& after.kinds().dom() == before.kinds().dom()
    &&& forall|id: NodeId| #[trigger]
        before.kinds().contains_key(id) ==> synced(before.kinds()[id], after.kinds()[id], g, inputs, outputs)
}

/// Whether every parked graph of `after` is the one of `before` with the
/// calls of sub-graph `g` re-laid out, and no graph was parked or taken.
pub open spec fn parked_synced(
    before: Map<GraphId, Graph>,
    after: Map<GraphId, Graph>,
    g: GraphId,
    inputs: Seq<BoundaryPinV>,
    outputs: Seq<BoundaryPinV>,
) -> bool {
    &&& after.dom() == before.dom()
    &&& forall|k: GraphId| #[trigger]
        before.contains_key(k) ==> calls_synced(before[k], after[k], g, inputs, outputs)
}

/// Re-laying out twice is re-laying out once.
proof fn lemma_calls_synced_trans(
    a: Graph,
    b: Graph,
    c: Graph,
    g: GraphId,
    inputs: Seq<BoundaryPinV>,
    outputs: Seq<BoundaryPinV>,
)
    requires
        calls_synced(a, b, g, inputs, outputs),
        calls_synced(b, c, g, inputs, outputs),
    ensures
        calls_synced(a, c, g, inputs, outputs),
{
    assert forall|id: NodeId| #[trigger] a.kinds().contains_key(id) implies synced(
        a.kinds()[id],
        c.kinds()[id],
        g,
        inputs,
        outputs,
    ) by {
        assert(b.kinds().contains_key(id));
    }
}

impl Graph {
    /// Re-lays out every call of sub-graph `graph_id` for the interface
    /// `inputs`/`outputs`.
    pub fn sync_calls(&mut self, graph_id: GraphId, inputs: &Vec<BoundaryPin>, outputs: &Vec<BoundaryPin>)
        requires
            old(self).wf(),
        ensures
            final(self).wf(),
            calls_synced(*old(self), *final(self), graph_id, boundary_views(inputs@), boundary_views(outputs@)),
    {
        let ghost old_nodes = self.nodes@;
        let ghost ins = boundary_views(inputs@);
        let ghost outs = boundary_views(outputs@);
        let mut i: usize = 0;
        while i < self.nodes.len()
            invariant
                i <= self.nodes@.len(),
                self.nodes@.len() == old_nodes.len(),
                old_nodes == old(self).nodes@,
                ins == boundary_views(inputs@),
                outs == boundary_views(outputs@),
                forall|j: int| 0 <= j < old_nodes.len() ==> #[trigger] self.nodes@[j].id == old_nodes[j].id,
                forall|j: int| 0 <= j < i ==> synced(old_nodes[j].kind, #[trigger] self.nodes@[j].kind, graph_id, ins, outs),
                forall|j: int| i <= j < old_nodes.len() ==> #[trigger] self.nodes@[j] == old_nodes[j],
                self.connections@ == old(self).connections@,
            decreases old_nodes.len() - i,
        {
            let id = self.nodes[i].id;
            let replacement = match &self.nodes[i].kind {
                NodeKind::GroupNode { graph_id: g, name, .. } => {
                    if *g == graph_id {
                        Some(call_node_kind(graph_id, name.clone(), inputs, outputs))
                    } else {
                        None
                    }
                },
                _ => None,
            };
            match replacement {
                Some(k) => {
                    self.nodes.set(i, crate::graph::GraphNode { id, kind: k });
                },
                None => {},
            }
            i = i + 1;
        }
        proof {
            assert(self.wf()) by {
                assert forall|a: int, b: int| 0 <= a < b < self.nodes@.len() implies self.nodes@[a].id
                    < self.nodes@[b].id by {
                    assert(self.nodes@[a].id == old_nodes[a].id);
                    assert(self.nodes@[b].id == old_nodes[b].id);
                }
            }
            assert forall|id: NodeId| #[trigger] self.kinds().contains_key(id) == old(self).kinds().contains_key(id) by {
                if old(self).kinds().contains_key(id) {
                    let j = choose|j: int| 0 <= j < old_nodes.len() && old_nodes[j].id == id;
                    assert(self.nodes@[j].id == id);
                }
                if self.kinds().contains_key(id) {
                    let j = choose|j: int| 0 <= j < self.nodes@.len() && self.nodes@[j].id == id;
                    assert(old_nodes[j].id == id);
                }
            }
            assert(self.kinds().dom() =~= old(self).kinds().dom());
            assert forall|id: NodeId| #[trigger] old(self).kinds().contains_key(id) implies synced(
                old(self).kinds()[id],
                self.kinds()[id],
                graph_id,
                ins,
                outs,
            ) by {
                let j = choose|j: int| 0 <= j < old_nodes.len() && old_nodes[j].id == id;
                lemma_kind_at(*old(self), j);
                assert(self.nodes@[j].id == id);
                lemma_kind_at(*self, j);
            }
        }
    }
}

/// The interfaces as views.
pub open spec fn boundaries_view(m: Map<GraphId, Boundary>) -> Map<
    GraphId,
    (Seq<BoundaryPinV>, Seq<BoundaryPinV>),
> {
    m.map_values(|b: Boundary| (boundary_views(b.0@), boundary_views(b.1@)))
}

/// The single output pin of a new function.
pub open spec fn result_pin() -> BoundaryPinV {
    BoundaryPinV { label: "Result"@, is_exec: false, data_type: PinDataType::Number }
}

/// The selection with `id` added, or removed if it was in it.
pub open spec fn toggled(sel: Set<NodeId>, id: NodeId) -> Set<NodeId> {
    if sel.contains(id) {
        sel.remove(id)
    } else {
        sel.insert(id)
    }
}

/// The interface pin of a Number parameter.
pub open spec fn param_pin(label: Seq<char>) -> BoundaryPinV {
    BoundaryPinV { label, is_exec: false, data_type: PinDataType::Number }
}

/// Whether `k` is the node of Number parameter `slot` named `label`.
pub open spec fn is_param_node(k: NodeKind, slot: nat, label: Seq<char>) -> bool {
    k matches NodeKind::GroupInput { slot: s, label: l, is_exec, data_type } && s == slot && l@
        == label && !is_exec && data_type == PinDataType::Number
}

impl Workspace {
    /// Whether the open graph is a function.
    pub open spec fn function_open(&self) -> bool {
        self.graph_kinds@.contains_key(self.active_id()) && self.graph_kinds@[self.active_id()]
            == GraphKind::Function
    }

    /// The interface of the open graph (none if it has none).
    pub open spec fn open_boundary(&self) -> (Seq<BoundaryPinV>, Seq<BoundaryPinV>) {
        if self.graph_boundary@.contains_key(self.active_id()) {
            boundaries_view(self.graph_boundary@)[self.active_id()]
        } else {
            (Seq::empty(), Seq::empty())
        }
    }

    /// Adds `node_id` to the selection or removes it (`additive`), or makes
    /// it the whole selection.
    pub fn toggle_selection(&mut self, node_id: NodeId, additive: bool)
        ensures
            final(self).selection@ == if additive {
                toggled(old(self).selection@, node_id)
            } else {
                set![node_id]
            },
            final(self).graph == old(self).graph,
            final(self).subgraphs == old(self).subgraphs,
            final(self).graph_names == old(self).graph_names,
            final(self).graph_kinds == old(self).graph_kinds,
            final(self).graph_boundary == old(self).graph_boundary,
            final(self).graph_stack == old(self).graph_stack,
            final(self).next_id == old(self).next_id,
            final(self).next_graph_id == old(self).next_graph_id,
    {
        if additive {
            if !self.selection.remove(&node_id) {
                self.selection.insert(node_id);
            }
        } else {
            self.selection.clear();
            self.selection.insert(node_id);
            proof {
                assert(self.selection@ =~= set![node_id]);
            }
        }
    }

    /// Adds a node with a fresh id to the open graph and returns the id.
    pub fn add_node(&mut self, kind: NodeKind) -> (id: NodeId)
        requires
            old(self).wf(),
            old(self).next_id < u64::MAX,
        ensures
            final(self).wf(),
            id == old(self).next_id,
            final(self).next_id == old(self).next_id + 1,
            final(self).graph.kinds() == old(self).graph.kinds().insert(id, kind),
            final(self).graph.connections@ == old(self).graph.connections@,
            final(self).subgraphs == old(self).subgraphs,
            final(self).graph_stack == old(self).graph_stack,
            final(self).selection == old(self).selection,
    {
        let id = self.next_id;
        self.next_id = self.next_id + 1;
        self.graph.insert_node(id, kind);
        id
    }

    /// Re-lays out every call of sub-graph `graph_id`, in the open graph and
    /// in every parked graph, for its current interface (nothing happens if
    /// it has none).
    pub fn sync_group_call_sites(&mut self, graph_id: GraphId)
        requires
            old(self).wf(),
        ensures
            final(self).wf(),
            !old(self).graph_boundary@.contains_key(graph_id) ==> *final(self) == *old(self),
            old(self).graph_boundary@.contains_key(graph_id) ==> ({
                let b = boundaries_view(old(self).graph_boundary@)[graph_id];
                &&& calls_synced(old(self).graph, final(self).graph, graph_id, b.0, b.1)
                &&& parked_synced(old(self).subgraphs@, final(self).subgraphs@, graph_id, b.0, b.1)
            }),
            final(self).graph_names == old(self).graph_names,
            final(self).graph_kinds == old(self).graph_kinds,
            final(self).graph_boundary == old(self).graph_boundary,
            final(self).graph_stack == old(self).graph_stack,
            final(self).next_id == old(self).next_id,
            final(self).next_graph_id == old(self).next_graph_id,
            final(self).selection == old(self).selection,
    {
        let (inputs, outputs) = match self.graph_boundary.get(&graph_id) {
            Some(b) => (copy_boundary(&b.0), copy_boundary(&b.1)),
            None => {
                return;
            },
        };
        let ghost ins = boundary_views(inputs@);
        let ghost outs = boundary_views(outputs@);
        self.graph.sync_calls(graph_id, &inputs, &outputs);
        let ghost old_sub = self.subgraphs@;
        let mut keys: Vec<GraphId> = Vec::new();
        for item in it: self.subgraphs.iter()
            invariant
                forall|j: int| 0 <= j < it.index() ==> keys@.contains(*(#[trigger] it.seq()[j]).0),
        {
            let ghost k0 = keys@;
            keys.push(*item.0);
            proof {
                assert(item == it.seq()[it.index() as int]);
                assert forall|j: int| 0 <= j < it.index() + 1 implies keys@.contains(*(#[trigger] it.seq()[j]).0) by {
                    if j < it.index() {
                        let m = choose|m: int| 0 <= m < k0.len() && k0[m] == *it.seq()[j].0;
                        assert(keys@[m] == k0[m]);
                    } else {
                        assert(keys@[k0.len() as int] == *it.seq()[j].0);
                    }
                }
            }
        }
        proof {
            assert forall|k: GraphId| #[trigger] old_sub.contains_key(k) implies keys@.contains(k) by {
                assert(self.subgraphs@.contains_key(k));
            }
        }
        let mut i: usize = 0;
        while i < keys.len()
            invariant
                i <= keys@.len(),
                forall|k: GraphId| #[trigger] old_sub.contains_key(k) ==> keys@.contains(k),
                old_sub == old(self).subgraphs@,
                ins == boundaries_view(old(self).graph_boundary@)[graph_id].0,
                outs == boundaries_view(old(self).graph_boundary@)[graph_id].1,
                ins == boundary_views(inputs@),
                outs == boundary_views(outputs@),
                self.graph.wf(),
                calls_synced(old(self).graph, self.graph, graph_id, ins, outs),
                self.subgraphs@.dom() == old_sub.dom(),
                forall|k: GraphId| #[trigger] self.subgraphs@.contains_key(k) ==> self.subgraphs@[k].wf(),
                forall|k: GraphId| #[trigger] old_sub.contains_key(k) ==> if keys@.take(i as int).contains(k) {
                    calls_synced(old_sub[k], self.subgraphs@[k], graph_id, ins, outs)
                } else {
                    self.subgraphs@[k] == old_sub[k]
                },
                self.graph_names == old(self).graph_names,
                self.graph_kinds == old(self).graph_kinds,
                self.graph_boundary == old(self).graph_boundary,
                self.graph_stack == old(self).graph_stack,
                self.next_id == old(self).next_id,
                self.next_graph_id == old(self).next_graph_id,
                self.selection == old(self).selection,
            decreases keys@.len() - i,
        {
            let k = keys[i];
            let ghost before = self.subgraphs@;
            match self.subgraphs.remove(&k) {
                Some(g) => {
                    let mut g = g;
                    let ghost g0 = g;
                    g.sync_calls(graph_id, &inputs, &outputs);
                    self.subgraphs.insert(k, g);
                    proof {
                        if keys@.take(i as int).contains(k) {
                            lemma_calls_synced_trans(old_sub[k], g0, self.subgraphs@[k], graph_id, ins, outs);
                        }
                    }
                },
                None => {},
            }
            proof {
                assert forall|x: GraphId| #[trigger] old_sub.contains_key(x) implies if keys@.take(i + 1).contains(x) {
                    calls_synced(old_sub[x], self.subgraphs@[x], graph_id, ins, outs)
                } else {
                    self.subgraphs@[x] == old_sub[x]
                } by {
                    if x == k {
                        assert(keys@.take(i + 1)[i as int] == k);
                    } else {
                        assert(self.subgraphs@[x] == before[x]);
                        if keys@.take(i + 1).contains(x) {
                            let m = choose|m: int| 0 <= m < i + 1 && #[trigger] keys@.take(i + 1)[m] == x;
                            assert(m < i);
                            assert(keys@.take(i as int)[m] == x);
                        } else {
                            if keys@.take(i as int).contains(x) {
                                let m = choose|m: int| 0 <= m < i && #[trigger] keys@.take(i as int)[m] == x;
                                assert(keys@.take(i + 1)[m] == x);
                            }
                        }
                    }
                }
                assert(self.subgraphs@.dom() =~= old_sub.dom());
            }
            i = i + 1;
        }
        proof {
            assert(keys@.take(keys@.len() as int) =~= keys@);
        }
    }

    /// Registers a new, empty function sub-graph named `name` with no
    /// parameters and one Number output "Result", and opens it.
    pub fn create_function(&mut self, name: String) -> (id: GraphId)
        requires
            old(self).wf(),
            old(self).next_graph_id < u64::MAX,
        ensures
            final(self).wf(),
            id == old(self).next_graph_id,
            final(self).next_graph_id == old(self).next_graph_id + 1,
            final(self).graph_names@ == old(self).graph_names@.insert(id, name),
            final(self).graph_kinds@ == old(self).graph_kinds@.insert(id, GraphKind::Function),
            boundaries_view(final(self).graph_boundary@) == boundaries_view(
                old(self).graph_boundary@,
            ).insert(id, (Seq::empty(), seq![result_pin()])),
            ({
                let p = parked_views(old(self).subgraphs@).insert(id, empty_graph()).insert(
                    old(self).active_id(),
                    old(self).graph@,
                );
                &&& final(self).graph@ == parked_or_empty(p, id)
                &&& parked_views(final(self).subgraphs@) == p.remove(id)
            }),
            final(self).graph_stack@ == old(self).graph_stack@.push(id),
            final(self).selection@ == Set::<NodeId>::empty(),
            final(self).next_id == old(self).next_id,
    {
        let id = self.next_graph_id;
        self.next_graph_id = self.next_graph_id + 1;
        self.subgraphs.insert(id, Graph::new());
        self.graph_names.insert(id, name);
        self.graph_kinds.insert(id, GraphKind::Function);
        let outputs = vec![BoundaryPin { label: owned("Result"), is_exec: false, data_type: PinDataType::Number }];
        let inputs: Vec<BoundaryPin> = Vec::new();
        proof {
            assert(boundary_views(outputs@) =~= seq![result_pin()]);
            assert(boundary_views(inputs@) =~= Seq::<BoundaryPinV>::empty());
        }
        let ghost bv = boundaries_view(self.graph_boundary@);
        self.graph_boundary.insert(id, (inputs, outputs));
        proof {
            assert(boundaries_view(self.graph_boundary@) =~= bv.insert(id, (Seq::empty(), seq![result_pin()])));
            assert(parked_views(self.subgraphs@) =~= parked_views(old(self).subgraphs@).insert(id, empty_graph()));
        }
        self.enter_subgraph(id);
        id
    }

    /// Adds a Number parameter named `label` to the function that is open:
    /// a new interface input (with a `GroupInput` node in the open graph),
    /// after which every call of it, in the open graph and in every parked
    /// graph, is re-laid out.
    /// Returns the new node's id and slot, or `None` (and changes nothing)
    /// when the open graph is not a function.
    pub fn add_function_param(&mut self, label: String) -> (r: Option<(NodeId, usize)>)
        requires
            old(self).wf(),
            old(self).next_id < u64::MAX,
        ensures
            final(self).wf(),
            !old(self).function_open() ==> r is None && *final(self) == *old(self),
            old(self).function_open() ==> r == Some(
                (old(self).next_id, old(self).open_boundary().0.len() as usize),
            ),
            old(self).function_open() ==> boundaries_view(final(self).graph_boundary@)
                == boundaries_view(old(self).graph_boundary@).insert(
                old(self).active_id(),
                (old(self).open_boundary().0.push(param_pin(label@)), old(self).open_boundary().1),
            ),
            old(self).function_open() ==> final(self).next_id == old(self).next_id + 1,
            old(self).function_open() ==> final(self).graph.kinds().dom() == old(
                self,
            ).graph.kinds().dom().insert(old(self).next_id),
            old(self).function_open() ==> is_param_node(
                final(self).graph.kinds()[old(self).next_id],
                old(self).open_boundary().0.len(),
                label@,
            ),
            old(self).function_open() ==> forall|id: NodeId| #[trigger]
                old(self).graph.kinds().contains_key(id) && id != old(self).next_id ==> synced(
                    old(self).graph.kinds()[id],
                    final(self).graph.kinds()[id],
                    old(self).active_id(),
                    old(self).open_boundary().0.push(param_pin(label@)),
                    old(self).open_boundary().1,
                ),
            old(self).function_open() ==> parked_synced(
                old(self).subgraphs@,
                final(self).subgraphs@,
                old(self).active_id(),
                old(self).open_boundary().0.push(param_pin(label@)),
                old(self).open_boundary().1,
            ),
            final(self).graph.connections@ == old(self).graph.connections@,
            final(self).graph_names == old(self).graph_names,
            final(self).graph_kinds == old(self).graph_kinds,
            final(self).graph_stack == old(self).graph_stack,
            final(self).next_graph_id == old(self).next_graph_id,
            final(self).selection == old(self).selection,
    {
        let graph_id = self.active_graph_id();
        match self.graph_kinds.get(&graph_id) {
            Some(GraphKind::Function) => {},
            _ => {
                return None;
            },
        }
        let ghost bv = boundaries_view(self.graph_boundary@);
        let (mut inputs, outputs) = match self.graph_boundary.remove(&graph_id) {
            Some(b) => b,
            None => {
                let e1: Vec<BoundaryPin> = Vec::new();
                let e2: Vec<BoundaryPin> = Vec::new();
                proof {
                    assert(boundary_views(e1@) =~= Seq::<BoundaryPinV>::empty());
                    assert(boundary_views(e2@) =~= Seq::<BoundaryPinV>::empty());
                }
                (e1, e2)
            },
        };
        let slot = inputs.len();
        let ghost in0 = boundary_views(inputs@);
        inputs.push(BoundaryPin { label: label.clone(), is_exec: false, data_type: PinDataType::Number });
        proof {
            assert(boundary_views(inputs@) =~= in0.push(
                BoundaryPinV { label: label@, is_exec: false, data_type: PinDataType::Number },
            ));
        }
        let ghost new_b = (boundary_views(inputs@), boundary_views(outputs@));
        self.graph_boundary.insert(graph_id, (inputs, outputs));
        proof {
            assert(boundaries_view(self.graph_boundary@) =~= bv.insert(graph_id, new_b));
        }
        let iface_id = self.next_id;
        self.next_id = self.next_id + 1;
        self.graph.insert_node(
            iface_id,
            NodeKind::GroupInput { slot, label, is_exec: false, data_type: PinDataType::Number },
        );
        let ghost mid = self.graph.kinds();
        self.sync_group_call_sites(graph_id);
        proof {
            assert(!(mid[iface_id] is GroupNode));
            assert(mid.contains_key(iface_id));
            assert(new_b == (old(self).open_boundary().0.push(param_pin(label@)), old(self).open_boundary().1));
            assert forall|id: NodeId| #[trigger] old(self).graph.kinds().contains_key(id) && id != iface_id implies synced(
                old(self).graph.kinds()[id],
                self.graph.kinds()[id],
                graph_id,
                new_b.0,
                new_b.1,
            ) by {
                assert(mid.contains_key(id));
                assert(mid[id] == old(self).graph.kinds()[id]);
            }
        }
        Some((iface_id, slot))
    }

    /// A node that calls sub-graph `graph_id`, laid out for its interface
    /// (none if it has none) and named after it ("Function" if unnamed).
    pub fn build_function_call_node(&self, graph_id: GraphId) -> (k: NodeKind)
        ensures
            self.is_call_of(k, graph_id),
    {
        let name = match self.graph_names.get(&graph_id) {
            Some(n) => n.clone(),
            None => owned("Function"),
        };
        match self.graph_boundary.get(&graph_id) {
            Some(b) => call_node_kind(graph_id, name, &b.0, &b.1),
            None => {
                let none: Vec<BoundaryPin> = Vec::new();
                proof {
                    assert(boundary_views(none@) =~= Seq::<BoundaryPinV>::empty());
                }
                call_node_kind(graph_id, name, &none, &none)
            },
        }
    }
}


impl Workspace {
    /// Replaces the open graph with loaded nodes and connections and sets
    /// the next node id.
    pub fn load_graph(
        &mut self,
        entries: Vec<(NodeId, NodeKind)>,
        connections: Vec<crate::types::Connection>,
        next_id: NodeId,
    )
        requires
            old(self).wf(),
        ensures
            final(self).wf(),
            final(self).graph.kinds() == crate::graph::entries_map(entries@),
            final(self).graph.connections@ == connections@,
            final(self).next_id == next_id,
            final(self).subgraphs == old(self).subgraphs,
            final(self).graph_names == old(self).graph_names,
            final(self).graph_kinds == old(self).graph_kinds,
            final(self).graph_boundary == old(self).graph_boundary,
            final(self).graph_stack == old(self).graph_stack,
            final(self).next_graph_id == old(self).next_graph_id,
            final(self).selection == old(self).selection,
    {
        self.graph = Graph::from_entries(entries, connections);
        self.next_id = next_id;
    }
}


/// The name registered for a graph, or an empty one.
pub open spec fn name_or_empty(names: Map<GraphId, String>, id: GraphId) -> Seq<char> {
    if names.contains_key(id) {
        names[id]@
    } else {
        Seq::empty()
    }
}

impl Workspace {
    /// Every function sub-graph with its name, ordered by name (functions
    /// with equal names in no particular order).
    pub fn function_definitions(&self) -> (r: Vec<(GraphId, String)>)
        ensures
            forall|k: int|
                0 <= k < r@.len() ==> self.graph_kinds@.contains_key(#[trigger] r@[k].0)
                    && self.graph_kinds@[r@[k].0] == GraphKind::Function && r@[k].1@
                    == name_or_empty(self.graph_names@, r@[k].0),
            forall|id: GraphId|
                #[trigger] self.graph_kinds@.contains_key(id) && self.graph_kinds@[id]
                    == GraphKind::Function ==> exists|k: int| 0 <= k < r@.len() && r@[k].0 == id,
            forall|a: int, b: int|
                0 <= a < b < r@.len() ==> !crate::search::text_lt(r@[b].1@, r@[a].1@),
            forall|a: int, b: int| 0 <= a < b < r@.len() ==> r@[a].0 != r@[b].0,
    {
        let mut found: Vec<(GraphId, String)> = Vec::new();
        for item in it: self.graph_kinds.iter()
            invariant
                forall|k: int|
                    0 <= k < found@.len() ==> self.graph_kinds@.contains_key(#[trigger] found@[k].0)
                        && self.graph_kinds@[found@[k].0] == GraphKind::Function && found@[k].1@
                        == name_or_empty(self.graph_names@, found@[k].0),
                forall|j: int|
                    0 <= j < it.index() && *it.seq()[j].1 == GraphKind::Function ==> exists|k: int|
                        0 <= k < found@.len() && found@[k].0 == *it.seq()[j].0,
                forall|a: int, b: int|
                    0 <= a < b < found@.len() ==> !crate::search::text_lt(found@[b].1@, found@[a].1@),
                forall|a: int, b: int| 0 <= a < b < found@.len() ==> found@[a].0 != found@[b].0,
        {
            let (id, kind) = item;
            proof {
                assert(item == it.seq()[it.index() as int]);
            }
            let mut listed = false;
            let mut q: usize = 0;
            while q < found.len()
                invariant
                    q <= found@.len(),
                    listed == exists|k: int| 0 <= k < q && found@[k].0 == *id,
                decreases found@.len() - q,
            {
                if found[q].0 == *id {
                    listed = true;
                }
                q = q + 1;
            }
            if *kind == GraphKind::Function && !listed {
                let name = match self.graph_names.get(id) {
                    Some(n) => n.clone(),
                    None => String::new(),
                };
                let mut p: usize = 0;
                while p < found.len() && !crate::search::text_less(name.as_str(), found[p].1.as_str())
                    invariant
                        p <= found@.len(),
                        forall|k: int| 0 <= k < p ==> !crate::search::text_lt(name@, found@[k].1@),
                    decreases found@.len() - p,
                {
                    p = p + 1;
                }
                let ghost f0 = found@;
                let ghost nm = name@;
                found.insert(p, (*id, name));
                proof {
                    assert(found@ =~= f0.insert(p as int, (*id, name)));
                    assert forall|a: int, b: int|
                        0 <= a < b < found@.len() implies !crate::search::text_lt(found@[b].1@, found@[a].1@) by {
                        if b < p {
                            assert(found@[a] == f0[a] && found@[b] == f0[b]);
                        } else if b == p {
                            assert(found@[a] == f0[a]);
                        } else if a < p {
                            assert(found@[a] == f0[a] && found@[b] == f0[b - 1]);
                        } else if a == p {
                            assert(found@[b] == f0[b - 1]);
                            assert(crate::search::text_lt(nm, f0[p as int].1@));
                            crate::search::lemma_text_order(f0[b - 1].1@, nm, f0[p as int].1@);
                            crate::search::lemma_text_order(f0[p as int].1@, nm, nm);
                            if b - 1 > p {
                                assert(!crate::search::text_lt(f0[b - 1].1@, f0[p as int].1@));
                            }
                        } else {
                            assert(found@[a] == f0[a - 1] && found@[b] == f0[b - 1]);
                        }
                    }
                    assert forall|k: int|
                        0 <= k < found@.len() implies self.graph_kinds@.contains_key(#[trigger] found@[k].0)
                            && self.graph_kinds@[found@[k].0] == GraphKind::Function && found@[k].1@
                            == name_or_empty(self.graph_names@, found@[k].0) by {
                        if k < p {
                            assert(found@[k] == f0[k]);
                        } else if k > p {
                            assert(found@[k] == f0[k - 1]);
                        }
                    }
                    assert forall|j: int|
                        0 <= j < it.index() + 1 && *(#[trigger] it.seq()[j]).1 == GraphKind::Function implies exists|k: int|
                            0 <= k < found@.len() && found@[k].0 == *it.seq()[j].0 by {
                        if j < it.index() {
                            let k = choose|k: int| 0 <= k < f0.len() && f0[k].0 == *it.seq()[j].0;
                            if k < p {
                                assert(found@[k] == f0[k]);
                            } else {
                                assert(found@[k + 1] == f0[k]);
                            }
                        } else {
                            assert(found@[p as int].0 == *it.seq()[j].0);
                        }
                    }
                    assert(found@[p as int].0 == *id);
                    assert forall|a: int, b: int| 0 <= a < b < found@.len() implies found@[a].0 != found@[b].0 by {
                        if b < p {
                            assert(found@[a] == f0[a] && found@[b] == f0[b]);
                        } else if b == p {
                            assert(found@[a] == f0[a]);
                        } else if a < p {
                            assert(found@[a] == f0[a] && found@[b] == f0[b - 1]);
                        } else if a == p {
                            assert(found@[b] == f0[b - 1]);
                        } else {
                            assert(found@[a] == f0[a - 1] && found@[b] == f0[b - 1]);
                        }
                    }
                }
            }
        }
        found
    }
}

} // verus!
