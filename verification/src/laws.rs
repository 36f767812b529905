//! Properties that hold across the graph operations and the compiler.
use vstd::prelude::*;

use crate::compile::{
    arity, expr_ir, finish_operation, is_operation, operand_sources, operands_ir, Counters,
    NameMap,
};
use crate::graph::{first_source, without_node, without_target, Graph, GraphView};
use crate::grouping::{partition, plan_crossings, Crossing};
use crate::node::NodeKind;
use crate::types::{Connection, GraphId, NodeId, PinRef};
use crate::workspace::{breadcrumb_back, parked_or_empty};
use crate::debugger::{unwound, Frame};
use crate::layout::{at_depth, layers, max_depth, node_depths};
use crate::graph::{has_id, ids};

verus! {

/// After wiring `c` (every wire into its input pin dropped, `c` added), the
/// input pin is fed by `c`'s source, and by exactly one wire.
pub proof fn law_connect_feeds_input(conns: Seq<Connection>, c: Connection)
    ensures
        first_source(without_target(conns, c.to).push(c), c.to) == Some(c.from),
        forall|i: int|
            0 <= i < without_target(conns, c.to).push(c).len() && (#[trigger] without_target(
                conns,
                c.to,
            ).push(c)[i]).to == c.to ==> i == without_target(conns, c.to).len(),
{
    lemma_without_target_drops(conns, c.to);
    lemma_first_source_last(without_target(conns, c.to), c);
}

/// Wiring `c` changes what feeds no other input pin.
pub proof fn law_connect_keeps_other_inputs(conns: Seq<Connection>, c: Connection, pin: PinRef)
    requires
        pin != c.to,
    ensures
        first_source(without_target(conns, c.to).push(c), pin) == first_source(conns, pin),
    decreases conns.len(),
{
    lemma_first_source_push_other(without_target(conns, c.to), c, pin);
    lemma_without_target_keeps_sources(conns, c.to, pin);
}

/// After removing the wires of a node, no wire touches it, and every wire
/// that did not touch it is still there.
pub proof fn law_remove_connections_for(conns: Seq<Connection>, node_id: NodeId)
    ensures
        forall|i: int|
            0 <= i < without_node(conns, node_id).len() ==> (#[trigger] without_node(
                conns,
                node_id,
            )[i]).from.node_id != node_id && without_node(conns, node_id)[i].to.node_id
                != node_id,
        forall|c: Connection|
            conns.contains(c) && c.from.node_id != node_id && c.to.node_id != node_id
                ==> without_node(conns, node_id).contains(c),
    decreases conns.len(),
{
    if conns.len() > 0 {
        law_remove_connections_for(conns.drop_last(), node_id);
        let rest = without_node(conns.drop_last(), node_id);
        let last = conns.last();
        let kept = last.from.node_id != node_id && last.to.node_id != node_id;
        assert(without_node(conns, node_id) == if kept {
            rest.push(last)
        } else {
            rest
        });
        assert forall|c: Connection|
            conns.contains(c) && c.from.node_id != node_id && c.to.node_id
                != node_id implies without_node(conns, node_id).contains(c) by {
            let k = choose|k: int| 0 <= k < conns.len() && conns[k] == c;
            if k < conns.len() - 1 {
                assert(conns.drop_last()[k] == c);
                assert(conns.drop_last().contains(c));
                assert(rest.contains(c));
                let j = choose|j: int| 0 <= j < rest.len() && rest[j] == c;
                if kept {
                    assert(rest.push(last)[j] == c);
                }
            } else {
                assert(last == c);
                assert(rest.push(last)[rest.len() as int] == c);
            }
        }
        assert forall|i: int| 0 <= i < without_node(conns, node_id).len() implies (
        #[trigger] without_node(conns, node_id)[i]).from.node_id != node_id && without_node(
            conns,
            node_id,
        )[i].to.node_id != node_id by {
            if i < rest.len() {
                if conns.last().from.node_id != node_id && conns.last().to.node_id != node_id {
                    assert(rest.push(conns.last())[i] == rest[i]);
                }
            }
        }
    }
}

/// Building an expression never renames a node that already has a
/// variable, and a node whose expression was built has its variable
/// recorded.
pub proof fn law_names_are_kept(
    g: Graph,
    id: NodeId,
    names: NameMap,
    counters: Counters,
    vis: Seq<NodeId>,
)
    ensures
        ({
            let e = expr_ir(g, id, names, counters, vis);
            &&& forall|k: NodeId| #[trigger]
                names.contains_key(k) ==> e.names.contains_key(k) && e.names[k] == names[k]
            &&& e.value matches Some(v) ==> e.names.contains_key(id) && e.names[id] == v
        }),
    decreases g.nodes@.len() - vis.len(), 0nat, 0nat,
{
    if !vis.contains(id) && !names.contains_key(id) && g.kinds().contains_key(id) && vis.len()
        < g.nodes@.len() {
        let k = g.kinds()[id];
        if is_operation(k) {
            if let Some(srcs) = operand_sources(g, id, arity(k)) {
                lemma_operand_names_kept(g, srcs, names, counters, vis.push(id));
                let o = operands_ir(g, srcs, names, counters, vis.push(id));
                let e = finish_operation(k, id, o);
                assert forall|x: NodeId| #[trigger] names.contains_key(x) implies e.names.contains_key(
                    x,
                ) && e.names[x] == names[x] by {
                    assert(o.names.contains_key(x));
                    if o.vars is Some {
                        assert(x != id);
                    }
                }
            }
        }
    }
}

/// Building operands never renames a node that already has a variable.
proof fn lemma_operand_names_kept(
    g: Graph,
    srcs: Seq<NodeId>,
    names: NameMap,
    counters: Counters,
    vis: Seq<NodeId>,
)
    ensures
        ({
            let o = operands_ir(g, srcs, names, counters, vis);
            forall|k: NodeId| #[trigger]
                names.contains_key(k) ==> o.names.contains_key(k) && o.names[k] == names[k]
        }),
    decreases g.nodes@.len() - vis.len(), 1nat, srcs.len(),
{
    if srcs.len() > 0 {
        lemma_operand_names_kept(g, srcs.drop_last(), names, counters, vis);
        let r = operands_ir(g, srcs.drop_last(), names, counters, vis);
        if r.vars is Some {
            law_names_are_kept(g, srcs.last(), r.names, r.counters, vis);
            let e = expr_ir(g, srcs.last(), r.names, r.counters, vis);
            assert forall|k: NodeId| #[trigger] names.contains_key(k) implies e.names.contains_key(k)
                && e.names[k] == names[k] by {
                assert(r.names.contains_key(k));
            }
        }
    }
}

/// No wire into `pin` is left once the wires into it are dropped.
proof fn lemma_without_target_drops(conns: Seq<Connection>, pin: PinRef)
    ensures
        forall|i: int|
            0 <= i < without_target(conns, pin).len() ==> (#[trigger] without_target(
                conns,
                pin,
            )[i]).to != pin,
    decreases conns.len(),
{
    if conns.len() > 0 {
        lemma_without_target_drops(conns.drop_last(), pin);
        let rest = without_target(conns.drop_last(), pin);
        if conns.last().to != pin {
            assert forall|i: int| 0 <= i < rest.push(conns.last()).len() implies (
            #[trigger] rest.push(conns.last())[i]).to != pin by {
                if i < rest.len() {
                    assert(rest.push(conns.last())[i] == rest[i]);
                }
            }
        }
    }
}

/// The first wire into `c.to` of a list whose only such wire is the last,
/// `c`, is `c`.
proof fn lemma_first_source_last(conns: Seq<Connection>, c: Connection)
    requires
        forall|i: int| 0 <= i < conns.len() ==> (#[trigger] conns[i]).to != c.to,
    ensures
        first_source(conns.push(c), c.to) == Some(c.from),
        forall|i: int|
            0 <= i < conns.push(c).len() && (#[trigger] conns.push(c)[i]).to == c.to ==> i
                == conns.len(),
    decreases conns.len(),
{
    if conns.len() > 0 {
        assert(conns.push(c)[0] == conns[0]);
        assert(conns.push(c).drop_first() =~= conns.drop_first().push(c));
        assert forall|i: int| 0 <= i < conns.drop_first().len() implies (
        #[trigger] conns.drop_first()[i]).to != c.to by {
            assert(conns.drop_first()[i] == conns[i + 1]);
        }
        lemma_first_source_last(conns.drop_first(), c);
    }
    assert forall|i: int| 0 <= i < conns.push(c).len() && (#[trigger] conns.push(c)[i]).to
        == c.to implies i == conns.len() by {
        if i < conns.len() {
            assert(conns.push(c)[i] == conns[i]);
        }
    }
}

/// Appending a wire into another pin does not change what feeds `pin`.
proof fn lemma_first_source_push_other(conns: Seq<Connection>, c: Connection, pin: PinRef)
    requires
        c.to != pin,
    ensures
        first_source(conns.push(c), pin) == first_source(conns, pin),
    decreases conns.len(),
{
    let p = conns.push(c);
    if conns.len() > 0 {
        assert(p[0] == conns[0]);
        assert(p.drop_first() =~= conns.drop_first().push(c));
        lemma_first_source_push_other(conns.drop_first(), c, pin);
        assert(first_source(p, pin) == if conns[0].to == pin {
            Some(conns[0].from)
        } else {
            first_source(conns.drop_first().push(c), pin)
        });
    } else {
        assert(p[0] == c);
        assert(p.drop_first() =~= Seq::<Connection>::empty());
        assert(first_source(p, pin) == first_source(p.drop_first(), pin));
    }
}

/// The first wire into `pin` of a list with a wire appended.
proof fn lemma_first_source_append(conns: Seq<Connection>, c: Connection, pin: PinRef)
    ensures
        first_source(conns.push(c), pin) == match first_source(conns, pin) {
            Some(p) => Some(p),
            None => if c.to == pin {
                Some(c.from)
            } else {
                None
            },
        },
    decreases conns.len(),
{
    let p = conns.push(c);
    if conns.len() > 0 {
        assert(p[0] == conns[0]);
        assert(p.drop_first() =~= conns.drop_first().push(c));
        lemma_first_source_append(conns.drop_first(), c, pin);
        assert(first_source(p, pin) == if conns[0].to == pin {
            Some(conns[0].from)
        } else {
            first_source(conns.drop_first().push(c), pin)
        });
    } else {
        assert(p[0] == c);
        assert(p.drop_first() =~= Seq::<Connection>::empty());
        assert(first_source(p.drop_first(), pin) is None);
    }
}

/// Dropping the wires into one pin does not change what feeds another.
proof fn lemma_without_target_keeps_sources(conns: Seq<Connection>, dropped: PinRef, pin: PinRef)
    requires
        dropped != pin,
    ensures
        first_source(without_target(conns, dropped), pin) == first_source(conns, pin),
    decreases conns.len(),
{
    if conns.len() > 0 {
        let init = conns.drop_last();
        let last = conns.last();
        lemma_without_target_keeps_sources(init, dropped, pin);
        assert(conns =~= init.push(last));
        lemma_first_source_append(init, last, pin);
        if last.to != dropped {
            lemma_first_source_append(without_target(init, dropped), last, pin);
        }
    }
}


/// Entering a sub-graph and then going back to the breadcrumb that was
/// last before gives back the breadcrumbs and the open graph, and leaves
/// the parked graphs as they were, the entered one parked as it was left.
pub proof fn law_enter_then_back(
    stack: Seq<GraphId>,
    open: GraphView,
    parked: Map<GraphId, GraphView>,
    target: GraphId,
)
    requires
        stack.len() > 0,
        !parked.contains_key(stack.last()),
        target != stack.last(),
    ensures
        ({
            let p = parked.insert(stack.last(), open);
            let b = breadcrumb_back(
                stack.push(target),
                parked_or_empty(p, target),
                p.remove(target),
                (stack.len() - 1) as nat,
            );
            &&& b.0 == stack
            &&& b.1 == open
            &&& b.2 == parked.insert(target, parked_or_empty(parked, target))
        }),
{
    let p = parked.insert(stack.last(), open);
    let s = stack.push(target);
    assert(s[s.len() - 2] == stack.last());
    assert(s.last() == target);
    assert(s.drop_last() =~= stack);
    let entered = parked_or_empty(p, target);
    assert(entered == parked_or_empty(parked, target));
    let q = p.remove(target).insert(target, entered);
    assert(q.remove(stack.last()) =~= parked.insert(target, parked_or_empty(parked, target)));
    assert(parked_or_empty(q, stack.last()) == open);
    let idx = (stack.len() - 1) as nat;
    assert(breadcrumb_back(s, entered, p.remove(target), idx) == breadcrumb_back(
        stack,
        parked_or_empty(q, stack.last()),
        q.remove(stack.last()),
        idx,
    ));
    assert(breadcrumb_back(stack, open, q.remove(stack.last()), idx) == (
        stack,
        open,
        q.remove(stack.last()),
    ));
}

/// Entering a sub-graph, editing it into `edited`, and then going back to
/// the breadcrumb that was last before gives back the breadcrumbs and the
/// graph that was open, and parks the sub-graph as it was left.
pub proof fn law_enter_edit_then_back(
    stack: Seq<GraphId>,
    open: GraphView,
    parked: Map<GraphId, GraphView>,
    target: GraphId,
    edited: GraphView,
)
    requires
        stack.len() > 0,
        !parked.contains_key(stack.last()),
        target != stack.last(),
    ensures
        ({
            let p = parked.insert(stack.last(), open);
            let b = breadcrumb_back(stack.push(target), edited, p.remove(target), (stack.len() - 1) as nat);
            &&& b.0 == stack
            &&& b.1 == open
            &&& b.2 == parked.insert(target, edited)
        }),
{
    let p = parked.insert(stack.last(), open);
    let s = stack.push(target);
    assert(s[s.len() - 2] == stack.last());
    assert(s.last() == target);
    assert(s.drop_last() =~= stack);
    let q = p.remove(target).insert(target, edited);
    assert(q.remove(stack.last()) =~= parked.insert(target, edited));
    assert(parked_or_empty(q, stack.last()) == open);
    let idx = (stack.len() - 1) as nat;
    assert(breadcrumb_back(s, edited, p.remove(target), idx) == breadcrumb_back(
        stack,
        parked_or_empty(q, stack.last()),
        q.remove(stack.last()),
        idx,
    ));
    assert(breadcrumb_back(stack, open, q.remove(stack.last()), idx) == (
        stack,
        open,
        q.remove(stack.last()),
    ));
}

/// Splitting wires by a selection loses none: the wires inside, crossing
/// and outside add up to all of them; and grouping turns each crossing
/// into exactly one wire to the group node and one wire inside the group.
pub proof fn law_grouping_keeps_wires(
    conns: Seq<Connection>,
    sel: Set<NodeId>,
    sel_kinds: Map<NodeId, NodeKind>,
    group_id: NodeId,
)
    ensures
        ({
            let (a, b, c) = partition(conns, sel);
            let plan = plan_crossings(b, sel_kinds, group_id, a);
            &&& a.len() + b.len() + c.len() == conns.len()
            &&& plan.reconnect.len() == b.len()
            &&& plan.internal.len() == a.len() + b.len()
        }),
    decreases conns.len(),
{
    if conns.len() > 0 {
        law_grouping_keeps_wires(conns.drop_last(), sel, sel_kinds, group_id);
    }
    let (a, b, c) = partition(conns, sel);
    lemma_plan_lengths(b, sel_kinds, group_id, a);
}

/// A plan has one reconnecting wire and one inner wire per crossing.
proof fn lemma_plan_lengths(
    cs: Seq<Crossing>,
    sel_kinds: Map<NodeId, NodeKind>,
    group_id: NodeId,
    internal0: Seq<Connection>,
)
    ensures
        plan_crossings(cs, sel_kinds, group_id, internal0).reconnect.len() == cs.len(),
        plan_crossings(cs, sel_kinds, group_id, internal0).internal.len() == internal0.len()
            + cs.len(),
    decreases cs.len(),
{
    if cs.len() > 0 {
        lemma_plan_lengths(cs.drop_last(), sel_kinds, group_id, internal0);
    }
}

/// Toggling a node into or out of the selection twice gives back the
/// selection.
pub proof fn law_toggle_twice(sel: Set<NodeId>, id: NodeId)
    ensures
        crate::workspace::toggled(crate::workspace::toggled(sel, id), id) == sel,
{
    if sel.contains(id) {
        assert(sel.remove(id).insert(id) =~= sel);
    } else {
        assert(sel.insert(id).remove(id) =~= sel);
    }
}

/// Returning from a function resumes its caller: whatever chains and loop
/// checks the function pushed above its call are popped with the call,
/// and the call is the one that gets the value.
pub proof fn law_return_resumes_caller(below: Seq<Frame>, call_node: NodeId, inside: Seq<Frame>)
    requires
        forall|k: int| 0 <= k < inside.len() ==> !(#[trigger] inside[k] is Call),
    ensures
        unwound(below.push(Frame::Call { call_node }) + inside) == (below, Some(call_node)),
    decreases inside.len(),
{
    let f = below.push(Frame::Call { call_node }) + inside;
    if inside.len() == 0 {
        assert(f =~= below.push(Frame::Call { call_node }));
        assert(f.drop_last() =~= below);
    } else {
        assert(!(inside[inside.len() - 1] is Call));
        assert(f.drop_last() =~= below.push(Frame::Call { call_node }) + inside.drop_last());
        law_return_resumes_caller(below, call_node, inside.drop_last());
    }
}

/// The ids at depth `d` are those of `order` whose depth is `d`.
proof fn lemma_at_depth(order: Seq<NodeId>, m: Map<NodeId, nat>, d: nat, id: NodeId)
    ensures
        at_depth(order, m, d).contains(id) <==> order.contains(id) && m[id] == d,
    decreases order.len(),
{
    if order.len() > 0 {
        lemma_at_depth(order.drop_last(), m, d, id);
        if order.contains(id) && order.last() != id {
            let k = choose|k: int| 0 <= k < order.len() && order[k] == id;
            assert(order.drop_last()[k] == id);
        }
        if order.drop_last().contains(id) {
            let k = choose|k: int| 0 <= k < order.drop_last().len() && order.drop_last()[k] == id;
            assert(order[k] == id);
        }
        if order.last() == id {
            assert(order[order.len() - 1] == id);
        }
        let r = at_depth(order.drop_last(), m, d);
        let a = at_depth(order, m, d);
        if m[order.last()] == d {
            assert(a == r.push(order.last()));
            if r.contains(id) {
                let k = choose|k: int| 0 <= k < r.len() && r[k] == id;
                assert(a[k] == id);
            }
            if a.contains(id) {
                let k = choose|k: int| 0 <= k < a.len() && a[k] == id;
                if k < r.len() {
                    assert(r[k] == id);
                }
            }
            if order.last() == id {
                assert(a[a.len() - 1] == id);
            }
        }
    }
}

/// No id of `order` is deeper than the largest depth.
proof fn lemma_max_depth(order: Seq<NodeId>, m: Map<NodeId, nat>, k: int)
    requires
        0 <= k < order.len(),
    ensures
        m[order[k]] <= max_depth(order, m),
    decreases order.len(),
{
    if k < order.len() - 1 {
        lemma_max_depth(order.drop_last(), m, k);
        assert(order.drop_last()[k] == order[k]);
    }
}

/// Layering places every node of a graph in exactly one layer, the one of
/// its depth, and places nothing else.
pub proof fn law_layers_partition(g: Graph)
    ensures
        forall|i: int|
            0 <= i < g.nodes@.len() ==> node_depths(g)[#[trigger] g.nodes@[i].id] < layers(g).len(),
        forall|d: int, id: NodeId|
            0 <= d < layers(g).len() ==> (#[trigger] layers(g)[d].contains(id) <==> has_id(
                g.nodes@,
                id,
            ) && node_depths(g)[id] == d),
{
    let order = ids(g.nodes@);
    let m = node_depths(g);
    assert forall|i: int| 0 <= i < g.nodes@.len() implies m[#[trigger] g.nodes@[i].id] < layers(g).len() by {
        assert(order[i] == g.nodes@[i].id);
        lemma_max_depth(order, m, i);
    }
    assert forall|d: int, id: NodeId|
        0 <= d < layers(g).len() implies (#[trigger] layers(g)[d].contains(id) <==> has_id(
            g.nodes@,
            id,
        ) && m[id] == d) by {
        lemma_at_depth(order, m, d as nat, id);
        assert(layers(g)[d] == at_depth(order, m, d as nat));
        if order.contains(id) {
            let k = choose|k: int| 0 <= k < order.len() && order[k] == id;
            assert(g.nodes@[k].id == id);
        }
        if has_id(g.nodes@, id) {
            let k = choose|k: int| 0 <= k < g.nodes@.len() && g.nodes@[k].id == id;
            assert(order[k] == id);
        }
    }
}

/// Whether no two wires end at the same input pin.
pub open spec fn one_wire_per_input(conns: Seq<Connection>) -> bool {
    forall|i: int, j: int| 0 <= i < j < conns.len() ==> (#[trigger] conns[i]).to != (#[trigger] conns[j]).to
}

/// Dropping the wires into a pin keeps only wires that were there, and
/// keeps no two into one pin if there were none.
proof fn lemma_without_target_sub(conns: Seq<Connection>, pin: PinRef)
    ensures
        forall|i: int| 0 <= i < without_target(conns, pin).len() ==> conns.contains(#[trigger] without_target(conns, pin)[i]),
        one_wire_per_input(conns) ==> one_wire_per_input(without_target(conns, pin)),
    decreases conns.len(),
{
    if conns.len() > 0 {
        let init = conns.drop_last();
        lemma_without_target_sub(init, pin);
        let rest = without_target(init, pin);
        let w = without_target(conns, pin);
        assert forall|i: int| 0 <= i < w.len() implies conns.contains(#[trigger] w[i]) by {
            if i < rest.len() {
                assert(w[i] == rest[i]);
                let m = choose|m: int| 0 <= m < init.len() && init[m] == rest[i];
                assert(conns[m] == init[m]);
            } else {
                assert(w[i] == conns[conns.len() - 1]);
            }
        }
        if one_wire_per_input(conns) {
            assert forall|a: int, b: int| 0 <= a < b < init.len() implies (#[trigger] init[a]).to != (#[trigger] init[b]).to by {
                assert(init[a] == conns[a] && init[b] == conns[b]);
            }
            assert forall|a: int, b: int| 0 <= a < b < w.len() implies (#[trigger] w[a]).to != (#[trigger] w[b]).to by {
                if b < rest.len() {
                    assert(w[a] == rest[a] && w[b] == rest[b]);
                } else {
                    assert(w[b] == conns.last());
                    assert(w[a] == rest[a]);
                    let m = choose|m: int| 0 <= m < init.len() && init[m] == rest[a];
                    assert(conns[m] == init[m]);
                    assert(conns[m].to != conns[conns.len() - 1].to);
                }
            }
        }
    }
}

/// Wiring keeps every input pin fed by at most one wire.
pub proof fn law_connect_keeps_one_wire_per_input(conns: Seq<Connection>, c: Connection)
    requires
        one_wire_per_input(conns),
    ensures
        one_wire_per_input(without_target(conns, c.to).push(c)),
{
    lemma_without_target_sub(conns, c.to);
    lemma_without_target_drops(conns, c.to);
    let w = without_target(conns, c.to);
    let s = w.push(c);
    assert forall|a: int, b: int| 0 <= a < b < s.len() implies (#[trigger] s[a]).to != (#[trigger] s[b]).to by {
        assert(s[a] == w[a]);
        if b < w.len() {
            assert(s[b] == w[b]);
        }
    }
}

} // verus!
