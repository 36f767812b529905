//! Grouping selected nodes into a sub-graph: every wire that crosses the
//! selection's edge becomes an interface pin, the selected nodes move into
//! a new sub-graph, and one group node takes their place.
use vstd::prelude::*;

use std::collections::HashSet;

use crate::graph::{lemma_nodes_where, Graph};
use crate::node::{spec_input_types, spec_output_types, NodeKind};
use crate::text::{decimal, owned, push_str, usize_to_decimal};
use crate::types::{BoundaryPin, Connection, GraphId, GraphKind, NodeId, PinDataType, PinKind, PinRef};
use crate::workspace::{
    boundary_views, call_node_kind, is_call_node, parked_views, BoundaryPinV, Workspace,
};

verus! {

/// A wire with one end inside the selection: its outside end, its inside
/// end, and whether it leads into the selection.
#[derive(Clone, Copy, PartialEq, Eq, Structural, Debug)]
pub struct Crossing {
    pub external: PinRef,
    pub internal: PinRef,
    pub into_selection: bool,
}

/// Splits wires by the selection, in order: those inside it, those that
/// cross its edge, and those outside it.
pub open spec fn partition(conns: Seq<Connection>, sel: Set<NodeId>) -> (
    Seq<Connection>,
    Seq<Crossing>,
    Seq<Connection>,
)
    decreases conns.len(),
{
    if conns.len() == 0 {
        (Seq::empty(), Seq::empty(), Seq::empty())
    } else {
        let (a, b, c) = partition(conns.drop_last(), sel);
        let conn = conns.last();
        let f = sel.contains(conn.from.node_id);
        let t = sel.contains(conn.to.node_id);
        if f && t {
            (a.push(conn), b, c)
        } else if t {
            (a, b.push(Crossing { external: conn.from, internal: conn.to, into_selection: true }), c)
        } else if f {
            (a, b.push(Crossing { external: conn.to, internal: conn.from, into_selection: false }), c)
        } else {
            (a, b, c.push(conn))
        }
    }
}

/// An interface node made for one crossing.
pub struct IfaceV {
    pub id: NodeId,
    pub slot: usize,
    pub label: Seq<char>,
    pub is_exec: bool,
    pub data_type: PinDataType,
    /// An input of the group (a `GroupInput` node) rather than an output.
    pub into: bool,
}

/// The data pin types on one side of an interface node.
pub open spec fn iface_types(f: IfaceV, side: PinKind) -> Seq<PinDataType> {
    if (f.into && side == PinKind::Output) || (!f.into && side == PinKind::Input) {
        if f.is_exec {
            Seq::empty()
        } else {
            seq![f.data_type]
        }
    } else {
        Seq::empty()
    }
}

/// The type at `index`, `Any` past the end.
pub open spec fn types_at(types: Seq<PinDataType>, index: usize) -> PinDataType {
    if index < types.len() {
        types[index as int]
    } else {
        PinDataType::Any
    }
}

/// The data type of a pin of a node of kind `k`.
pub open spec fn kind_pin_type(k: NodeKind, pin: PinRef) -> PinDataType {
    types_at(
        if pin.kind == PinKind::Output {
            spec_output_types(k)
        } else {
            spec_input_types(k)
        },
        pin.index,
    )
}

/// The data type of a pin in a graph with these kinds (`Any` for a pin of
/// a missing node).
pub open spec fn pin_type_in(kinds: Map<NodeId, NodeKind>, pin: PinRef) -> PinDataType {
    if kinds.contains_key(pin.node_id) {
        kind_pin_type(kinds[pin.node_id], pin)
    } else {
        PinDataType::Any
    }
}

/// The data type of a pin among the selected nodes and the interface nodes
/// made so far (a later node wins over an earlier one with its id).
pub open spec fn inner_pin_type(
    sel_kinds: Map<NodeId, NodeKind>,
    ifaces: Seq<IfaceV>,
    pin: PinRef,
) -> PinDataType
    decreases ifaces.len(),
{
    if ifaces.len() == 0 {
        pin_type_in(sel_kinds, pin)
    } else if ifaces.last().id == pin.node_id {
        types_at(iface_types(ifaces.last(), pin.kind), pin.index)
    } else {
        inner_pin_type(sel_kinds, ifaces.drop_last(), pin)
    }
}

/// What grouping decides for the crossings: interface nodes, interface
/// pins, the wires inside the group, the wires to the group node, and how
/// many exec inputs, data inputs, exec outputs and data outputs there are.
pub struct GroupPlan {
    pub ifaces: Seq<IfaceV>,
    pub inputs: Seq<BoundaryPinV>,
    pub outputs: Seq<BoundaryPinV>,
    pub internal: Seq<Connection>,
    pub reconnect: Seq<Connection>,
    pub counts: (usize, usize, usize, usize),
}

/// The label of interface pin `slot` (counted from 1 in the label).
pub open spec fn slot_label(prefix: Seq<char>, slot: usize) -> Seq<char> {
    prefix + decimal(slot as nat + 1)
}

/// Plans the crossings in order. The interface node of crossing `i` gets
/// id `group_id + 1 + i`.
pub open spec fn plan_crossings(
    cs: Seq<Crossing>,
    sel_kinds: Map<NodeId, NodeKind>,
    group_id: NodeId,
    internal0: Seq<Connection>,
) -> GroupPlan
    decreases cs.len(),
{
    if cs.len() == 0 {
        GroupPlan {
            ifaces: Seq::empty(),
            inputs: Seq::empty(),
            outputs: Seq::empty(),
            internal: internal0,
            reconnect: Seq::empty(),
            counts: (0, 0, 0, 0),
        }
    } else {
        let p = plan_crossings(cs.drop_last(), sel_kinds, group_id, internal0);
        let c = cs.last();
        let is_exec = c.internal.is_exec;
        let dt = inner_pin_type(sel_kinds, p.ifaces, c.internal);
        let id = (group_id + cs.len()) as NodeId;
        let (e_in, d_in, e_out, d_out) = p.counts;
        if c.into_selection {
            let slot = if is_exec {
                e_in
            } else {
                d_in
            };
            let label = slot_label(
                if is_exec {
                    "Exec"@
                } else {
                    "In"@
                },
                slot,
            );
            GroupPlan {
                ifaces: p.ifaces.push(
                    IfaceV { id, slot, label, is_exec, data_type: dt, into: true },
                ),
                inputs: p.inputs.push(BoundaryPinV { label, is_exec, data_type: dt }),
                outputs: p.outputs,
                internal: p.internal.push(
                    Connection {
                        from: PinRef { node_id: id, kind: PinKind::Output, index: 0, is_exec },
                        to: c.internal,
                    },
                ),
                reconnect: p.reconnect.push(
                    Connection {
                        from: c.external,
                        to: PinRef { node_id: group_id, kind: PinKind::Input, index: slot, is_exec },
                    },
                ),
                counts: if is_exec {
                    ((e_in + 1) as usize, d_in, e_out, d_out)
                } else {
                    (e_in, (d_in + 1) as usize, e_out, d_out)
                },
            }
        } else {
            let slot = if is_exec {
                e_out
            } else {
                d_out
            };
            let label = slot_label(
                if is_exec {
                    "Exec"@
                } else {
                    "Out"@
                },
                slot,
            );
            GroupPlan {
                ifaces: p.ifaces.push(
                    IfaceV { id, slot, label, is_exec, data_type: dt, into: false },
                ),
                inputs: p.inputs,
                outputs: p.outputs.push(BoundaryPinV { label, is_exec, data_type: dt }),
                internal: p.internal.push(
                    Connection {
                        from: c.internal,
                        to: PinRef { node_id: id, kind: PinKind::Input, index: 0, is_exec },
                    },
                ),
                reconnect: p.reconnect.push(
                    Connection {
                        from: PinRef { node_id: group_id, kind: PinKind::Output, index: slot, is_exec },
                        to: c.external,
                    },
                ),
                counts: if is_exec {
                    (e_in, d_in, (e_out + 1) as usize, d_out)
                } else {
                    (e_in, d_in, e_out, (d_out + 1) as usize)
                },
            }
        }
    }
}

/// How many of `cs` cross the selection's edge the same way (into it or
/// out of it) with the same kind of pin (exec or data).
pub open spec fn count_side(cs: Seq<Crossing>, into: bool, exec: bool) -> nat
    decreases cs.len(),
{
    if cs.len() == 0 {
        0
    } else {
        count_side(cs.drop_last(), into, exec) + (if cs.last().into_selection == into
            && cs.last().internal.is_exec == exec {
            1nat
        } else {
            0nat
        })
    }
}

/// No more crossings of a side than crossings.
proof fn lemma_count_side_len(cs: Seq<Crossing>, into: bool, exec: bool)
    ensures
        count_side(cs, into, exec) <= cs.len(),
    decreases cs.len(),
{
    if cs.len() > 0 {
        lemma_count_side_len(cs.drop_last(), into, exec);
    }
}

/// Grouping keeps every crossing wire on its own interface slot. The
/// crossing at position `j` gets the interface node `group_id + 1 + j`,
/// whose slot is the number of earlier crossings of the same side and pin
/// kind. A wire into the selection now runs from its outside end into the
/// group node's input pin of that slot, and inside from that interface
/// node to its inside end; a wire out of the selection runs from the group
/// node's output pin of that slot to its outside end, and inside from its
/// inside end into that interface node. So each outside end is fed, or
/// feeds, through the same slot as the inside pin it was wired to.
pub proof fn law_group_slots_match(
    cs: Seq<Crossing>,
    sel_kinds: Map<NodeId, NodeKind>,
    group_id: NodeId,
    internal0: Seq<Connection>,
)
    requires
        cs.len() <= usize::MAX,
        group_id + cs.len() <= u64::MAX,
    ensures
        ({
            let p = plan_crossings(cs, sel_kinds, group_id, internal0);
            &&& p.ifaces.len() == cs.len()
            &&& p.reconnect.len() == cs.len()
            &&& p.internal.len() == internal0.len() + cs.len()
            &&& p.counts == (
                count_side(cs, true, true) as usize,
                count_side(cs, true, false) as usize,
                count_side(cs, false, true) as usize,
                count_side(cs, false, false) as usize,
            )
            &&& forall|j: int|
                0 <= j < cs.len() ==> ({
                    let c = cs[j];
                    let x = c.internal.is_exec;
                    let sl = count_side(cs.take(j), c.into_selection, x) as usize;
                    let f = p.ifaces[j];
                    &&& f.id == group_id + 1 + j
                    &&& f.slot == sl
                    &&& f.into == c.into_selection
                    &&& f.is_exec == x
                    &&& c.into_selection ==> #[trigger] p.reconnect[j] == (Connection {
                        from: c.external,
                        to: PinRef { node_id: group_id, kind: PinKind::Input, index: sl, is_exec: x },
                    }) && p.internal[internal0.len() + j] == (Connection {
                        from: PinRef { node_id: f.id, kind: PinKind::Output, index: 0, is_exec: x },
                        to: c.internal,
                    })
                    &&& !c.into_selection ==> p.reconnect[j] == (Connection {
                        from: PinRef { node_id: group_id, kind: PinKind::Output, index: sl, is_exec: x },
                        to: c.external,
                    }) && p.internal[internal0.len() + j] == (Connection {
                        from: c.internal,
                        to: PinRef { node_id: f.id, kind: PinKind::Input, index: 0, is_exec: x },
                    })
                })
        }),
    decreases cs.len(),
{
    if cs.len() > 0 {
        let init = cs.drop_last();
        law_group_slots_match(init, sel_kinds, group_id, internal0);
        lemma_count_side_len(init, true, true);
        lemma_count_side_len(init, true, false);
        lemma_count_side_len(init, false, true);
        lemma_count_side_len(init, false, false);
        let p0 = plan_crossings(init, sel_kinds, group_id, internal0);
        let p = plan_crossings(cs, sel_kinds, group_id, internal0);
        let n = cs.len() - 1;
        assert(cs.take(n) =~= init);
        assert forall|j: int| 0 <= j < n implies #[trigger] cs.take(j) == init.take(j) by {
            assert(cs.take(j) =~= init.take(j));
        }
        assert forall|j: int| 0 <= j < cs.len() implies ({
            let c = cs[j];
            let x = c.internal.is_exec;
            let sl = count_side(cs.take(j), c.into_selection, x) as usize;
            let f = p.ifaces[j];
            &&& f.id == group_id + 1 + j
            &&& f.slot == sl
            &&& f.into == c.into_selection
            &&& f.is_exec == x
            &&& c.into_selection ==> #[trigger] p.reconnect[j] == (Connection {
                from: c.external,
                to: PinRef { node_id: group_id, kind: PinKind::Input, index: sl, is_exec: x },
            }) && p.internal[internal0.len() + j] == (Connection {
                from: PinRef { node_id: f.id, kind: PinKind::Output, index: 0, is_exec: x },
                to: c.internal,
            })
            &&& !c.into_selection ==> p.reconnect[j] == (Connection {
                from: PinRef { node_id: group_id, kind: PinKind::Output, index: sl, is_exec: x },
                to: c.external,
            }) && p.internal[internal0.len() + j] == (Connection {
                from: c.internal,
                to: PinRef { node_id: f.id, kind: PinKind::Input, index: 0, is_exec: x },
            })
        }) by {
            if j < n {
                assert(cs[j] == init[j]);
                assert(p.ifaces[j] == p0.ifaces[j]);
                assert(p.reconnect[j] == p0.reconnect[j]);
                assert(p.internal[internal0.len() + j] == p0.internal[internal0.len() + j]);
                assert(cs.take(j) == init.take(j));
            }
        }
    }
}

/// Whether `k` is the interface node that `f` describes.
pub open spec fn is_iface_node(k: NodeKind, f: IfaceV) -> bool {
    if f.into {
        k matches NodeKind::GroupInput { slot, label, is_exec, data_type } && slot == f.slot
            && label@ == f.label && is_exec == f.is_exec && data_type == f.data_type
    } else {
        k matches NodeKind::GroupOutput { slot, label, is_exec, data_type } && slot == f.slot
            && label@ == f.label && is_exec == f.is_exec && data_type == f.data_type
    }
}

/// The ids of interface nodes.
pub open spec fn iface_ids(ifaces: Seq<IfaceV>) -> Seq<NodeId> {
    ifaces.map_values(|f: IfaceV| f.id)
}

/// Whether a group's kinds are the selected kinds together with the
/// interface nodes (which win over a selected node with the same id).
pub open spec fn inner_kinds_ok(
    m: Map<NodeId, NodeKind>,
    sel_kinds: Map<NodeId, NodeKind>,
    ifaces: Seq<IfaceV>,
) -> bool {
    &&& forall|k: NodeId| #[trigger]
        m.contains_key(k) <==> (sel_kinds.contains_key(k) || iface_ids(ifaces).contains(k))
    &&& forall|k: NodeId|
        sel_kinds.contains_key(k) && !iface_ids(ifaces).contains(k) ==> #[trigger] m[k]
            == sel_kinds[k]
    &&& forall|i: int| 0 <= i < ifaces.len() ==> is_iface_node(m[#[trigger] ifaces[i].id], ifaces[i])
}

impl Graph {
    /// The data type of a pin: the type its node declares at that index, or
    /// `Any` when the node or the index is missing.
    pub fn pin_data_type(&self, pin: PinRef) -> (t: PinDataType)
        requires
            self.wf(),
        ensures
            t == pin_type_in(self.kinds(), pin),
    {
        match self.get(pin.node_id) {
            Some(k) => {
                let types = if pin.kind == PinKind::Output {
                    k.output_types()
                } else {
                    k.input_types()
                };
                if pin.index < types.len() {
                    types[pin.index]
                } else {
                    PinDataType::Any
                }
            },
            None => PinDataType::Any,
        }
    }
}


/// Splits wires by the selection (see `partition`).
fn partition_connections(conns: &Vec<Connection>, sel: &HashSet<NodeId>) -> (r: (
    Vec<Connection>,
    Vec<Crossing>,
    Vec<Connection>,
))
    ensures
        (r.0@, r.1@, r.2@) == partition(conns@, sel@),
{
    let mut inside: Vec<Connection> = Vec::new();
    let mut crossings: Vec<Crossing> = Vec::new();
    let mut outside: Vec<Connection> = Vec::new();
    let mut i: usize = 0;
    proof {
        assert(conns@.take(0) =~= Seq::<Connection>::empty());
    }
    while i < conns.len()
        invariant
            i <= conns@.len(),
            (inside@, crossings@, outside@) == partition(conns@.take(i as int), sel@),
        decreases conns@.len() - i,
    {
        proof {
            assert(conns@.take(i + 1).drop_last() =~= conns@.take(i as int));
        }
        let conn = conns[i];
        let f = sel.contains(&conn.from.node_id);
        let t = sel.contains(&conn.to.node_id);
        if f && t {
            inside.push(conn);
        } else if t {
            crossings.push(Crossing { external: conn.from, internal: conn.to, into_selection: true });
        } else if f {
            crossings.push(Crossing { external: conn.to, internal: conn.from, into_selection: false });
        } else {
            outside.push(conn);
        }
        i = i + 1;
    }
    proof {
        assert(conns@.take(conns@.len() as int) =~= conns@);
    }
    (inside, crossings, outside)
}

/// `prefix` followed by `slot + 1`.
fn slot_label_string(prefix: &str, slot: usize) -> (r: String)
    requires
        slot < usize::MAX,
    ensures
        r@ == slot_label(prefix@, slot),
{
    let mut s = owned(prefix);
    let digits = usize_to_decimal(slot + 1);
    push_str(&mut s, digits.as_str());
    s
}

/// What grouping made: the group node, the new sub-graph, and each
/// interface node with its slot and whether it is a group input.
pub struct GroupOutcome {
    pub group_id: NodeId,
    pub graph_id: GraphId,
    pub ifaces: Vec<(NodeId, usize, bool)>,
}

/// Interface nodes as (id, slot, is an input).
pub open spec fn iface_summary(ifaces: Seq<IfaceV>) -> Seq<(NodeId, usize, bool)> {
    ifaces.map_values(|f: IfaceV| (f.id, f.slot, f.into))
}

/// Facts about a plan that follow from its construction.
proof fn lemma_plan_shape(
    cs: Seq<Crossing>,
    sel_kinds: Map<NodeId, NodeKind>,
    group_id: NodeId,
    internal0: Seq<Connection>,
)
    requires
        group_id + cs.len() <= u64::MAX,
        cs.len() <= usize::MAX,
    ensures
        ({
            let p = plan_crossings(cs, sel_kinds, group_id, internal0);
            &&& p.ifaces.len() == cs.len()
            &&& forall|j: int| 0 <= j < cs.len() ==> #[trigger] p.ifaces[j].id == group_id + 1 + j
            &&& p.counts.0 + p.counts.1 + p.counts.2 + p.counts.3 == cs.len()
        }),
    decreases cs.len(),
{
    if cs.len() > 0 {
        lemma_plan_shape(cs.drop_last(), sel_kinds, group_id, internal0);
        let p0 = plan_crossings(cs.drop_last(), sel_kinds, group_id, internal0);
        let p = plan_crossings(cs, sel_kinds, group_id, internal0);
        assert(p.ifaces.drop_last() =~= p0.ifaces);
        assert(p.ifaces.last().id == group_id + cs.len());
        assert forall|j: int| 0 <= j < cs.len() implies #[trigger] p.ifaces[j].id == group_id + 1 + j by {
            if j < cs.len() - 1 {
                assert(p.ifaces[j] == p0.ifaces[j]);
            }
        }
    }
}

impl Workspace {
    /// The number of wires with exactly one end among the selected nodes:
    /// grouping them gives each of these an interface node.
    pub fn crossing_count(&self) -> (n: usize)
        ensures
            n == partition(self.graph.connections@, self.selection@).1.len(),
    {
        let (_inside, crossings, _outside) = partition_connections(&self.graph.connections, &self.selection);
        crossings.len()
    }

    /// Groups the selected nodes (at least two) into a new sub-graph named
    /// `title`; see the module documentation. With fewer than two nodes
    /// selected nothing changes.
    pub fn group_selected_nodes(&mut self, title: String) -> (r: Option<GroupOutcome>)
        requires
            old(self).wf(),
            old(self).selection@.len() >= 2 ==> old(self).next_id + 1 + partition(
                old(self).graph.connections@,
                old(self).selection@,
            ).1.len() <= u64::MAX,
            old(self).selection@.len() >= 2 ==> old(self).next_graph_id < u64::MAX,
        ensures
            final(self).wf(),
            old(self).selection@.len() < 2 ==> r is None && *final(self) == *old(self),
            old(self).selection@.len() >= 2 ==> r is Some && ({
                let o = r->0;
                let sel = old(self).selection@;
                let (internal0, cs, outside) = partition(old(self).graph.connections@, sel);
                let sel_kinds = old(self).graph.kinds().restrict(sel);
                let group_id = old(self).next_id;
                let gid = old(self).next_graph_id;
                let plan = plan_crossings(cs, sel_kinds, group_id, internal0);
                let inner = final(self).subgraphs@[gid];
                &&& o.group_id == group_id
                &&& o.graph_id == gid
                &&& o.ifaces@ == iface_summary(plan.ifaces)
                &&& final(self).next_id == group_id + 1 + cs.len()
                &&& final(self).next_graph_id == gid + 1
                &&& final(self).graph.kinds() == old(self).graph.kinds().remove_keys(sel).insert(
                    group_id,
                    final(self).graph.kinds()[group_id],
                )
                &&& is_call_node(
                    final(self).graph.kinds()[group_id],
                    gid,
                    title@,
                    plan.inputs,
                    plan.outputs,
                )
                &&& final(self).graph.connections@ == outside + plan.reconnect
                &&& final(self).subgraphs@ == old(self).subgraphs@.insert(gid, inner)
                &&& inner.connections@ == plan.internal
                &&& inner_kinds_ok(inner.kinds(), sel_kinds, plan.ifaces)
                &&& final(self).graph_names@ == old(self).graph_names@.insert(gid, title)
                &&& final(self).graph_kinds@ == old(self).graph_kinds@.insert(gid, GraphKind::Group)
                &&& final(self).graph_boundary@.dom() == old(self).graph_boundary@.dom().insert(gid)
                &&& forall|k: GraphId|
                    k != gid && #[trigger] old(self).graph_boundary@.contains_key(k)
                        ==> final(self).graph_boundary@[k] == old(self).graph_boundary@[k]
                &&& boundary_views(final(self).graph_boundary@[gid].0@) == plan.inputs
                &&& boundary_views(final(self).graph_boundary@[gid].1@) == plan.outputs
                &&& final(self).graph_stack@ == old(self).graph_stack@
                &&& final(self).selection@ == Set::<NodeId>::empty()
            }),
    {
        if self.selection.len() < 2 {
            return None;
        }
        let ghost old_graph_kinds = self.graph.kinds();
        let ghost sel = self.selection@;
        let (internal0, crossings, outside) = partition_connections(
            &self.graph.connections,
            &self.selection,
        );
        let ghost cs = crossings@;
        let ncs = crossings.len();
        assert(cs.len() == ncs);
        let ghost sel_kinds = old_graph_kinds.restrict(sel);
        proof {
            lemma_partition_len(self.graph.connections@, sel);
            lemma_nodes_where(self.graph.nodes@, sel, true);
            lemma_nodes_where(self.graph.nodes@, sel, false);
        }
        let mut inner = self.graph.take_selected(&self.selection);
        let group_id = self.next_id;
        self.next_id = self.next_id + 1;
        proof {
            lemma_plan_shape(cs, sel_kinds, group_id, internal0@);
        }
        let mut inputs: Vec<BoundaryPin> = Vec::new();
        let mut outputs: Vec<BoundaryPin> = Vec::new();
        let mut internal: Vec<Connection> = internal0;
        let mut reconnect: Vec<Connection> = Vec::new();
        let mut ifaces: Vec<(NodeId, usize, bool)> = Vec::new();
        let mut e_in: usize = 0;
        let mut d_in: usize = 0;
        let mut e_out: usize = 0;
        let mut d_out: usize = 0;
        let mut i: usize = 0;
        proof {
            assert(cs.take(0) =~= Seq::<Crossing>::empty());
            assert(boundary_views(inputs@) =~= Seq::<BoundaryPinV>::empty());
            assert(boundary_views(outputs@) =~= Seq::<BoundaryPinV>::empty());
            assert(iface_summary(Seq::<IfaceV>::empty()) =~= ifaces@);
            assert(iface_ids(Seq::<IfaceV>::empty()) =~= Seq::<NodeId>::empty());
        }
        while i < crossings.len()
            invariant
                i <= cs.len(),
                crossings@ == cs,
                inner.wf(),
                self.wf(),
                self.next_graph_id == old(self).next_graph_id,
                self.next_graph_id < u64::MAX,
                self.graph_names@ == old(self).graph_names@,
                self.graph_kinds@ == old(self).graph_kinds@,
                self.graph_boundary@ == old(self).graph_boundary@,
                self.graph_stack@ == old(self).graph_stack@,
                self.subgraphs@ == old(self).subgraphs@,
                self.selection@ == sel,
                self.graph.nodes@ == crate::graph::nodes_where(old(self).graph.nodes@, sel, false),
                self.graph.connections@ == old(self).graph.connections@,
                sel == old(self).selection@,
                sel_kinds == old(self).graph.kinds().restrict(sel),
                group_id + cs.len() < u64::MAX,
                self.next_id == group_id + 1 + i,
                ({
                    let p = plan_crossings(cs.take(i as int), sel_kinds, group_id, internal0@);
                    &&& boundary_views(inputs@) == p.inputs
                    &&& boundary_views(outputs@) == p.outputs
                    &&& internal@ == p.internal
                    &&& reconnect@ == p.reconnect
                    &&& (e_in, d_in, e_out, d_out) == p.counts
                    &&& ifaces@ == iface_summary(p.ifaces)
                    &&& inner_kinds_ok(inner.kinds(), sel_kinds, p.ifaces)
                    &&& forall|pin: PinRef| #[trigger]
                        pin_type_in(inner.kinds(), pin) == inner_pin_type(sel_kinds, p.ifaces, pin)
                }),
            decreases cs.len() - i,
        {
            let ghost p = plan_crossings(cs.take(i as int), sel_kinds, group_id, internal0@);
            proof {
                assert(cs.take(i + 1).drop_last() =~= cs.take(i as int));
                assert(cs.take(i + 1).last() == cs[i as int]);
                lemma_plan_shape(cs.take(i as int), sel_kinds, group_id, internal0@);
            }
            let c = crossings[i];
            let is_exec = c.internal.is_exec;
            let data_type = inner.pin_data_type(c.internal);
            let iface_id = self.next_id;
            self.next_id = self.next_id + 1;
            let ghost k0 = inner.kinds();
            let ghost f: IfaceV;
            let slot: usize = if c.into_selection {
                if is_exec {
                    e_in
                } else {
                    d_in
                }
            } else {
                if is_exec {
                    e_out
                } else {
                    d_out
                }
            };
            if c.into_selection {
                if is_exec {
                    e_in = e_in + 1;
                } else {
                    d_in = d_in + 1;
                }
                let label = slot_label_string(if is_exec { "Exec" } else { "In" }, slot);
                proof {
                    f = IfaceV { id: iface_id, slot, label: label@, is_exec, data_type, into: true };
                }
                let ghost in0 = inputs@;
                inputs.push(BoundaryPin { label: label.clone(), is_exec, data_type });
                proof {
                    assert(boundary_views(inputs@) =~= boundary_views(in0).push(
                        BoundaryPinV { label: label@, is_exec, data_type },
                    ));
                }
                inner.insert_node(
                    iface_id,
                    NodeKind::GroupInput { slot, label, is_exec, data_type },
                );
                internal.push(
                    Connection {
                        from: PinRef { node_id: iface_id, kind: PinKind::Output, index: 0, is_exec },
                        to: c.internal,
                    },
                );
                reconnect.push(
                    Connection {
                        from: c.external,
                        to: PinRef { node_id: group_id, kind: PinKind::Input, index: slot, is_exec },
                    },
                );
            } else {
                if is_exec {
                    e_out = e_out + 1;
                } else {
                    d_out = d_out + 1;
                }
                let label = slot_label_string(if is_exec { "Exec" } else { "Out" }, slot);
                proof {
                    f = IfaceV { id: iface_id, slot, label: label@, is_exec, data_type, into: false };
                }
                let ghost out0 = outputs@;
                outputs.push(BoundaryPin { label: label.clone(), is_exec, data_type });
                proof {
                    assert(boundary_views(outputs@) =~= boundary_views(out0).push(
                        BoundaryPinV { label: label@, is_exec, data_type },
                    ));
                }
                inner.insert_node(
                    iface_id,
                    NodeKind::GroupOutput { slot, label, is_exec, data_type },
                );
                internal.push(
                    Connection {
                        from: c.internal,
                        to: PinRef { node_id: iface_id, kind: PinKind::Input, index: 0, is_exec },
                    },
                );
                reconnect.push(
                    Connection {
                        from: PinRef { node_id: group_id, kind: PinKind::Output, index: slot, is_exec },
                        to: c.external,
                    },
                );
            }
            ifaces.push((iface_id, slot, c.into_selection));
            proof {
                let q = plan_crossings(cs.take(i + 1), sel_kinds, group_id, internal0@);
                assert(q.ifaces == p.ifaces.push(f));
                assert(q.ifaces.drop_last() =~= p.ifaces);
                assert(q.ifaces.last() == f);
                assert(inner.kinds() == k0.insert(iface_id, inner.kinds()[iface_id]));
                assert(is_iface_node(inner.kinds()[iface_id], f));
                assert(iface_summary(q.ifaces) =~= iface_summary(p.ifaces).push((iface_id, slot, c.into_selection)));
                assert(iface_ids(q.ifaces) =~= iface_ids(p.ifaces).push(iface_id));
                assert forall|k: NodeId| #[trigger] inner.kinds().contains_key(k) <==> (sel_kinds.contains_key(k)
                    || iface_ids(q.ifaces).contains(k)) by {
                    if iface_ids(p.ifaces).contains(k) {
                        let j = choose|j: int| 0 <= j < iface_ids(p.ifaces).len() && iface_ids(p.ifaces)[j] == k;
                        assert(iface_ids(q.ifaces)[j] == k);
                    }
                    if iface_ids(q.ifaces).contains(k) && k != iface_id {
                        let j = choose|j: int| 0 <= j < iface_ids(q.ifaces).len() && iface_ids(q.ifaces)[j] == k;
                        assert(j < p.ifaces.len());
                        assert(iface_ids(p.ifaces)[j] == k);
                    }
                    if k == iface_id {
                        assert(iface_ids(q.ifaces)[i as int] == k);
                    }
                }
                assert forall|k: NodeId|
                    sel_kinds.contains_key(k) && !iface_ids(q.ifaces).contains(k) implies #[trigger] inner.kinds()[k]
                        == sel_kinds[k] by {
                    assert(k != iface_id) by {
                        if k == iface_id {
                            assert(iface_ids(q.ifaces)[i as int] == k);
                        }
                    }
                    if iface_ids(p.ifaces).contains(k) {
                        let j = choose|j: int| 0 <= j < iface_ids(p.ifaces).len() && iface_ids(p.ifaces)[j] == k;
                        assert(iface_ids(q.ifaces)[j] == k);
                    }
                }
                assert forall|j: int| 0 <= j < q.ifaces.len() implies is_iface_node(
                    inner.kinds()[#[trigger] q.ifaces[j].id],
                    q.ifaces[j],
                ) by {
                    if j < i {
                        assert(q.ifaces[j] == p.ifaces[j]);
                        assert(p.ifaces[j].id == group_id + 1 + j);
                    }
                }
                assert forall|pin: PinRef| #[trigger] pin_type_in(inner.kinds(), pin) == inner_pin_type(
                    sel_kinds,
                    q.ifaces,
                    pin,
                ) by {
                    if pin.node_id != iface_id {
                        assert(pin_type_in(inner.kinds(), pin) == pin_type_in(k0, pin));
                        assert(pin_type_in(k0, pin) == inner_pin_type(sel_kinds, p.ifaces, pin));
                    }
                }
            }
            i = i + 1;
        }
        proof {
            assert(cs.take(cs.len() as int) =~= cs);
        }
        let gid = self.next_graph_id;
        self.next_graph_id = self.next_graph_id + 1;
        let call = call_node_kind(gid, title.clone(), &inputs, &outputs);
        inner.connections = internal;
        self.subgraphs.insert(gid, inner);
        self.graph_names.insert(gid, title);
        self.graph_kinds.insert(gid, GraphKind::Group);
        self.graph_boundary.insert(gid, (inputs, outputs));
        self.graph.insert_node(group_id, call);
        self.graph.connections = outside;
        let mut k: usize = 0;
        let ghost outside_view = self.graph.connections@;
        let ghost w0 = *self;
        while k < reconnect.len()
            invariant
                k <= reconnect@.len(),
                self.graph.connections@ == outside_view + reconnect@.take(k as int),
                self.graph.nodes@ == w0.graph.nodes@,
                self.wf(),
                self.subgraphs@ == w0.subgraphs@,
                self.graph_names@ == w0.graph_names@,
                self.graph_kinds@ == w0.graph_kinds@,
                self.graph_boundary@ == w0.graph_boundary@,
                self.graph_stack@ == w0.graph_stack@,
                self.selection@ == w0.selection@,
                self.next_id == w0.next_id,
                self.next_graph_id == w0.next_graph_id,
            decreases reconnect@.len() - k,
        {
            self.graph.connections.push(reconnect[k]);
            proof {
                assert(outside_view + reconnect@.take(k + 1) =~= (outside_view + reconnect@.take(k as int)).push(reconnect@[k as int]));
            }
            k = k + 1;
        }
        proof {
            assert(reconnect@.take(reconnect@.len() as int) =~= reconnect@);
        }
        self.selection.clear();
        Some(GroupOutcome { group_id, graph_id: gid, ifaces })
    }
}

/// Splitting wires keeps their number: crossings are no more than wires.
proof fn lemma_partition_len(conns: Seq<Connection>, sel: Set<NodeId>)
    ensures
        partition(conns, sel).1.len() <= conns.len(),
    decreases conns.len(),
{
    if conns.len() > 0 {
        lemma_partition_len(conns.drop_last(), sel);
    }
}

} // verus!
