//! Importing a graph described by an external tool in a simple,
//! string-keyed form: it is checked whole (duplicate ids, wires to missing
//! nodes, unknown kinds) before anything changes, then merged with fresh ids.
use std::collections::HashSet;
use vstd::prelude::*;

use crate::node::NodeKind;
use crate::text::{decimal, owned, push_str, same_text, u64_to_decimal};
use crate::types::{CompareOp, Connection, NodeId, PinKind, PinRef};
use crate::workspace::Workspace;

verus! {

broadcast use vstd::std_specs::hash::group_hash_axioms;

/// One node of an imported graph. `number_literal` is the source text of a
/// Number node's value.
#[derive(Debug)]
pub struct AiNodeSpec {
    pub id: u64,
    pub kind: String,
    pub number_literal: Option<String>,
    pub compare_op: Option<String>,
    pub variable_name: Option<String>,
    pub function_name: Option<String>,
    pub function_params: Option<String>,
}

/// One wire of an imported graph, between node ids of the import.
#[derive(Clone, Copy, Debug)]
pub struct AiConnectionSpec {
    pub from_node: u64,
    pub from_index: usize,
    pub from_exec: bool,
    pub to_node: u64,
    pub to_index: usize,
    pub to_exec: bool,
}

/// An imported graph.
#[derive(Debug)]
pub struct AiGraphSchema {
    pub schema_version: u32,
    pub source_prompt: Option<String>,
    pub nodes: Vec<AiNodeSpec>,
    pub connections: Vec<AiConnectionSpec>,
}

/// Why an imported graph was refused.
#[derive(Debug)]
pub enum AiImportError {
    UnknownKind { node_id: u64, kind: String },
    DuplicateNodeId(u64),
    DanglingConnection { node_id: u64 },
}

/// A refusal reason with its text as a character sequence.
pub enum AiImportErrorV {
    UnknownKind { node_id: u64, kind: Seq<char> },
    DuplicateNodeId(u64),
    DanglingConnection { node_id: u64 },
}

impl View for AiImportError {
    type V = AiImportErrorV;

    open spec fn view(&self) -> AiImportErrorV {
        match self {
            AiImportError::UnknownKind { node_id, kind } => AiImportErrorV::UnknownKind {
                node_id: *node_id,
                kind: kind@,
            },
            AiImportError::DuplicateNodeId(id) => AiImportErrorV::DuplicateNodeId(*id),
            AiImportError::DanglingConnection { node_id } => AiImportErrorV::DanglingConnection {
                node_id: *node_id,
            },
        }
    }
}

/// The message of a refusal reason.
pub open spec fn error_message(e: AiImportErrorV) -> Seq<char> {
    match e {
        AiImportErrorV::UnknownKind { node_id, kind } => "node "@ + decimal(node_id as nat)
            + " has unknown kind \""@ + kind + "\""@,
        AiImportErrorV::DuplicateNodeId(id) => "duplicate node id "@ + decimal(id as nat)
            + " in AI graph"@,
        AiImportErrorV::DanglingConnection { node_id } => "connection references missing node "@
            + decimal(node_id as nat),
    }
}

impl AiImportError {
    /// The message of this reason.
    pub fn message(&self) -> (m: String)
        ensures
            m@ == error_message(self@),
    {
        match self {
            AiImportError::UnknownKind { node_id, kind } => {
                let mut m = owned("node ");
                let d = u64_to_decimal(*node_id);
                push_str(&mut m, d.as_str());
                push_str(&mut m, " has unknown kind \"");
                push_str(&mut m, kind.as_str());
                push_str(&mut m, "\"");
                m
            },
            AiImportError::DuplicateNodeId(id) => {
                let mut m = owned("duplicate node id ");
                let d = u64_to_decimal(*id);
                push_str(&mut m, d.as_str());
                push_str(&mut m, " in AI graph");
                m
            },
            AiImportError::DanglingConnection { node_id } => {
                let mut m = owned("connection references missing node ");
                let d = u64_to_decimal(*node_id);
                push_str(&mut m, d.as_str());
                m
            },
        }
    }
}

/// The text of an optional string.
pub open spec fn opt_view(o: Option<String>) -> Option<Seq<char>> {
    match o {
        Some(s) => Some(s@),
        None => None,
    }
}

/// The text of an optional string, or `default`.
pub open spec fn or_default(o: Option<String>, default: Seq<char>) -> Seq<char> {
    match o {
        Some(s) => s@,
        None => default,
    }
}

/// The kind tags that an import may use.
pub open spec fn known_kind(t: Seq<char>) -> bool {
    ||| t == "Number"@
    ||| t == "Add"@
    ||| t == "Sub"@
    ||| t == "Mul"@
    ||| t == "Div"@
    ||| t == "Print"@
    ||| t == "Compare"@
    ||| t == "Branch"@
    ||| t == "And"@
    ||| t == "Or"@
    ||| t == "Not"@
    ||| t == "Start"@
    ||| t == "SetVariable"@
    ||| t == "GetVariable"@
    ||| t == "WhileLoop"@
    ||| t == "FunctionDef"@
    ||| t == "FunctionCall"@
    ||| t == "Return"@
}

/// The comparison named by an optional tag (greater-than unless it names
/// another one).
pub open spec fn compare_op_of(o: Option<Seq<char>>) -> CompareOp {
    if o == Some("LessThan"@) {
        CompareOp::LessThan
    } else if o == Some("EqualTo"@) {
        CompareOp::EqualTo
    } else {
        CompareOp::GreaterThan
    }
}

/// Whether `k` is the node kind that an imported node describes.
pub open spec fn describes(s: AiNodeSpec, k: NodeKind) -> bool {
    let t = s.kind@;
    if t == "Number"@ {
        k matches NodeKind::Number(v) && v@ == or_default(s.number_literal, "0.0"@)
    } else if t == "Add"@ {
        k is Add
    } else if t == "Sub"@ {
        k is Sub
    } else if t == "Mul"@ {
        k is Mul
    } else if t == "Div"@ {
        k is Div
    } else if t == "Print"@ {
        k is Print
    } else if t == "Compare"@ {
        k == NodeKind::Compare(compare_op_of(opt_view(s.compare_op)))
    } else if t == "Branch"@ {
        k is Branch
    } else if t == "And"@ {
        k is And
    } else if t == "Or"@ {
        k is Or
    } else if t == "Not"@ {
        k is Not
    } else if t == "Start"@ {
        k is Start
    } else if t == "SetVariable"@ {
        k matches NodeKind::SetVariable(v) && v@ == or_default(s.variable_name, "x"@)
    } else if t == "GetVariable"@ {
        k matches NodeKind::GetVariable(v) && v@ == or_default(s.variable_name, "x"@)
    } else if t == "WhileLoop"@ {
        k is WhileLoop
    } else if t == "FunctionDef"@ {
        k matches NodeKind::FunctionDef { name, params } && name@ == or_default(
            s.function_name,
            "func"@,
        ) && params@ == or_default(s.function_params, Seq::empty())
    } else if t == "FunctionCall"@ {
        k matches NodeKind::FunctionCall { name } && name@ == or_default(s.function_name, "func"@)
    } else {
        k is Return
    }
}

/// The text of an optional string, or `default`.
fn text_or(o: &Option<String>, default: &str) -> (r: String)
    ensures
        r@ == or_default(*o, default@),
{
    match o {
        Some(s) => s.clone(),
        None => owned(default),
    }
}

impl AiNodeSpec {
    /// The node kind this imported node describes, or the refusal of an
    /// unknown kind tag.
    pub fn to_node_kind(&self) -> (r: Result<NodeKind, AiImportError>)
        ensures
            match r {
                Ok(k) => known_kind(self.kind@) && describes(*self, k),
                Err(e) => !known_kind(self.kind@) && e@ == (AiImportErrorV::UnknownKind {
                    node_id: self.id,
                    kind: self.kind@,
                }),
            },
    {
        let t = self.kind.as_str();
        proof {
            reveal_strlit("Number");
            reveal_strlit("Add");
            reveal_strlit("Sub");
            reveal_strlit("Mul");
            reveal_strlit("Div");
            reveal_strlit("Print");
            reveal_strlit("Compare");
            reveal_strlit("Branch");
            reveal_strlit("And");
            reveal_strlit("Or");
            reveal_strlit("Not");
            reveal_strlit("Start");
            reveal_strlit("SetVariable");
            reveal_strlit("GetVariable");
            reveal_strlit("WhileLoop");
            reveal_strlit("FunctionDef");
            reveal_strlit("FunctionCall");
            reveal_strlit("Return");
            reveal_strlit("");
            assert(""@ =~= Seq::<char>::empty());
        }
        let k = if same_text(t, "Number") {
            NodeKind::Number(text_or(&self.number_literal, "0.0"))
        } else if same_text(t, "Add") {
            NodeKind::Add
        } else if same_text(t, "Sub") {
            NodeKind::Sub
        } else if same_text(t, "Mul") {
            NodeKind::Mul
        } else if same_text(t, "Div") {
            NodeKind::Div
        } else if same_text(t, "Print") {
            NodeKind::Print
        } else if same_text(t, "Compare") {
            let op = match &self.compare_op {
                Some(o) => if same_text(o.as_str(), "LessThan") {
                    CompareOp::LessThan
                } else if same_text(o.as_str(), "EqualTo") {
                    CompareOp::EqualTo
                } else {
                    CompareOp::GreaterThan
                },
                None => CompareOp::GreaterThan,
            };
            NodeKind::Compare(op)
        } else if same_text(t, "Branch") {
            NodeKind::Branch
        } else if same_text(t, "And") {
            NodeKind::And
        } else if same_text(t, "Or") {
            NodeKind::Or
        } else if same_text(t, "Not") {
            NodeKind::Not
        } else if same_text(t, "Start") {
            NodeKind::Start
        } else if same_text(t, "SetVariable") {
            NodeKind::SetVariable(text_or(&self.variable_name, "x"))
        } else if same_text(t, "GetVariable") {
            NodeKind::GetVariable(text_or(&self.variable_name, "x"))
        } else if same_text(t, "WhileLoop") {
            NodeKind::WhileLoop
        } else if same_text(t, "FunctionDef") {
            NodeKind::FunctionDef {
                name: text_or(&self.function_name, "func"),
                params: text_or(&self.function_params, ""),
            }
        } else if same_text(t, "FunctionCall") {
            NodeKind::FunctionCall { name: text_or(&self.function_name, "func") }
        } else if same_text(t, "Return") {
            NodeKind::Return
        } else {
            return Err(AiImportError::UnknownKind { node_id: self.id, kind: self.kind.clone() });
        };
        Ok(k)
    }
}


/// The ids of imported nodes, in order.
pub open spec fn node_ids(nodes: Seq<AiNodeSpec>) -> Seq<u64> {
    nodes.map_values(|n: AiNodeSpec| n.id)
}

/// The ids that occur again after an earlier occurrence, once per repeat.
pub open spec fn duplicate_ids(ids: Seq<u64>) -> Seq<u64>
    decreases ids.len(),
{
    if ids.len() == 0 {
        Seq::empty()
    } else {
        let r = duplicate_ids(ids.drop_last());
        if ids.drop_last().contains(ids.last()) {
            r.push(ids.last())
        } else {
            r
        }
    }
}

/// The wire ends (source, then target, of each wire in order) that name
/// no imported node.
pub open spec fn dangling_ids(conns: Seq<AiConnectionSpec>, ids: Set<u64>) -> Seq<u64>
    decreases conns.len(),
{
    if conns.len() == 0 {
        Seq::empty()
    } else {
        let r = dangling_ids(conns.drop_last(), ids);
        let c = conns.last();
        let r1 = if !ids.contains(c.from_node) {
            r.push(c.from_node)
        } else {
            r
        };
        if !ids.contains(c.to_node) {
            r1.push(c.to_node)
        } else {
            r1
        }
    }
}

/// The unknown-kind refusals, in node order.
pub open spec fn unknown_kinds(nodes: Seq<AiNodeSpec>) -> Seq<AiImportErrorV>
    decreases nodes.len(),
{
    if nodes.len() == 0 {
        Seq::empty()
    } else {
        let r = unknown_kinds(nodes.drop_last());
        let n = nodes.last();
        if !known_kind(n.kind@) {
            r.push(AiImportErrorV::UnknownKind { node_id: n.id, kind: n.kind@ })
        } else {
            r
        }
    }
}

/// Refusal reasons as views.
pub open spec fn error_views(v: Seq<AiImportError>) -> Seq<AiImportErrorV> {
    v.map_values(|e: AiImportError| e@)
}

/// Repeated-id refusals for these ids.
pub open spec fn duplicate_errors(ids: Seq<u64>) -> Seq<AiImportErrorV> {
    ids.map_values(|id: u64| AiImportErrorV::DuplicateNodeId(id))
}

/// Dangling-wire refusals for these ids.
pub open spec fn dangling_errors(ids: Seq<u64>) -> Seq<AiImportErrorV> {
    ids.map_values(|id: u64| AiImportErrorV::DanglingConnection { node_id: id })
}

/// Every refusal reason of an import, in the order they are found:
/// repeated ids, then dangling wire ends, then unknown kinds.
pub open spec fn import_errors(nodes: Seq<AiNodeSpec>, conns: Seq<AiConnectionSpec>) -> Seq<
    AiImportErrorV,
> {
    duplicate_errors(duplicate_ids(node_ids(nodes))) + dangling_errors(
        dangling_ids(conns, node_ids(nodes).to_set()),
    ) + unknown_kinds(nodes)
}

/// The new id of the imported node at position `j`.
pub open spec fn new_id(base: u64, j: int) -> u64 {
    (base + j) as u64
}

/// The position of the imported node with this id.
pub open spec fn import_index(nodes: Seq<AiNodeSpec>, id: u64) -> int {
    choose|j: int| 0 <= j < nodes.len() && nodes[j].id == id
}

/// An imported wire between the nodes' new ids (the node at position `j`
/// gets id `base + j`).
pub open spec fn imported_wire(nodes: Seq<AiNodeSpec>, c: AiConnectionSpec, base: u64) -> Connection {
    Connection {
        from: PinRef {
            node_id: new_id(base, import_index(nodes, c.from_node)),
            kind: PinKind::Output,
            index: c.from_index,
            is_exec: c.from_exec,
        },
        to: PinRef {
            node_id: new_id(base, import_index(nodes, c.to_node)),
            kind: PinKind::Input,
            index: c.to_index,
            is_exec: c.to_exec,
        },
    }
}

/// No id repeats when none is reported as repeated.
proof fn lemma_no_duplicate_ids(ids: Seq<u64>)
    requires
        duplicate_ids(ids).len() == 0,
    ensures
        ids.no_duplicates(),
    decreases ids.len(),
{
    if ids.len() > 0 {
        let init = ids.drop_last();
        if init.contains(ids.last()) {
            assert(duplicate_ids(ids).len() > 0);
        }
        assert(duplicate_ids(init).len() == 0);
        lemma_no_duplicate_ids(init);
        assert forall|i: int, j: int| 0 <= i < ids.len() && 0 <= j < ids.len() && i != j implies ids[i]
            != ids[j] by {
            if i < init.len() && j < init.len() {
                assert(init[i] != init[j]);
            } else if i == init.len() {
                assert(init[j] == ids[j]);
            } else {
                assert(init[i] == ids[i]);
            }
        }
    }
}

/// The position of an imported node, found by searching.
fn find_import_index(nodes: &Vec<AiNodeSpec>, id: u64) -> (j: usize)
    requires
        node_ids(nodes@).no_duplicates(),
        node_ids(nodes@).contains(id),
    ensures
        j == import_index(nodes@, id),
        j < nodes@.len(),
{
    let mut j: usize = 0;
    while j < nodes.len()
        invariant
            j <= nodes@.len(),
            forall|k: int| 0 <= k < j ==> nodes@[k].id != id,
            node_ids(nodes@).contains(id),
            node_ids(nodes@).no_duplicates(),
        decreases nodes@.len() - j,
    {
        if nodes[j].id == id {
            proof {
                let c = import_index(nodes@, id);
                assert(node_ids(nodes@)[j as int] == id);
                assert(0 <= c < nodes@.len() && nodes@[c].id == id);
                assert(node_ids(nodes@)[c] == id);
                assert(c == j);
            }
            return j;
        }
        j = j + 1;
    }
    proof {
        let k = choose|k: int| 0 <= k < node_ids(nodes@).len() && node_ids(nodes@)[k] == id;
        assert(nodes@[k].id == id);
    }
    0
}

impl Workspace {
    /// Imports a graph: refused, with every reason and no change, when an id
    /// repeats, a wire names a missing node, or a kind is unknown; otherwise
    /// each node gets a fresh id (position `j` gets `next_id + j`), the
    /// wires follow, and the number of nodes is returned.
    pub fn import_ai_graph(&mut self, schema: &AiGraphSchema) -> (r: Result<usize, Vec<AiImportError>>)
        requires
            old(self).wf(),
            old(self).next_id + schema.nodes@.len() <= u64::MAX,
        ensures
            final(self).wf(),
            ({
                let errs = import_errors(schema.nodes@, schema.connections@);
                let base = old(self).next_id;
                let n = schema.nodes@.len();
                &&& errs.len() > 0 ==> r is Err && *final(self) == *old(self) && error_views(r->Err_0@) == errs
                &&& errs.len() == 0 ==> r == Ok::<usize, Vec<AiImportError>>(n as usize)
                    && final(self).next_id == base + n && (forall|j: int|
                    0 <= j < n ==> final(self).graph.kinds().contains_key(#[trigger] new_id(base, j))
                        && describes(schema.nodes@[j], final(self).graph.kinds()[new_id(base, j)])) && (forall|id: NodeId|
                    !(base <= id < base + n) ==> (#[trigger] final(self).graph.kinds().contains_key(
                        id,
                    ) == old(self).graph.kinds().contains_key(id)) && (old(
                        self,
                    ).graph.kinds().contains_key(id) ==> final(self).graph.kinds()[id] == old(
                        self,
                    ).graph.kinds()[id])) && final(self).graph.connections@ == old(
                    self,
                ).graph.connections@ + schema.connections@.map_values(
                    |c: AiConnectionSpec| imported_wire(schema.nodes@, c, base),
                ) && final(self).subgraphs == old(self).subgraphs && final(self).graph_stack
                    == old(self).graph_stack && final(self).selection == old(self).selection
            }),
    {
        let ghost nodes = schema.nodes@;
        let ghost ids = node_ids(nodes);
        let mut errors: Vec<AiImportError> = Vec::new();
        let mut seen: HashSet<u64> = HashSet::new();
        let mut i: usize = 0;
        let nn = schema.nodes.len();
        proof {
            assert(ids.take(0).to_set() =~= Set::<u64>::empty());
            assert(error_views(errors@) =~= Seq::<AiImportErrorV>::empty());
            assert(duplicate_errors(duplicate_ids(ids.take(0))) =~= Seq::<AiImportErrorV>::empty());
        }
        while i < schema.nodes.len()
            invariant
                i <= nodes.len(),
                nodes == schema.nodes@,
                ids == node_ids(nodes),
                seen@ == ids.take(i as int).to_set(),
                error_views(errors@) == duplicate_errors(duplicate_ids(ids.take(i as int))),
            decreases nodes.len() - i,
        {
            let id = schema.nodes[i].id;
            proof {
                assert(ids.take(i + 1).drop_last() =~= ids.take(i as int));
                assert(ids.take(i + 1).last() == id);
                assert(ids.take(i as int).contains(id) == ids.take(i as int).to_set().contains(id));
            }
            let ghost e0 = errors@;
            if !seen.insert(id) {
                errors.push(AiImportError::DuplicateNodeId(id));
                proof {
                    assert(error_views(errors@) =~= error_views(e0).push(AiImportErrorV::DuplicateNodeId(id)));
                }
            }
            proof {
                assert(seen@ =~= ids.take(i + 1).to_set());
            }
            i = i + 1;
        }
        proof {
            assert(ids.take(nodes.len() as int) =~= ids);
        }
        let ghost dup = error_views(errors@);
        let mut k: usize = 0;
        proof {
            assert(schema.connections@.take(0) =~= Seq::<AiConnectionSpec>::empty());
            assert(dup + dangling_errors(dangling_ids(schema.connections@.take(0), ids.to_set())) =~= dup);
        }
        while k < schema.connections.len()
            invariant
                k <= schema.connections@.len(),
                seen@ == ids.to_set(),
                error_views(errors@) == dup + dangling_errors(
                    dangling_ids(schema.connections@.take(k as int), ids.to_set()),
                ),
            decreases schema.connections@.len() - k,
        {
            let c = schema.connections[k];
            let ghost before = dangling_ids(schema.connections@.take(k as int), ids.to_set());
            proof {
                assert(schema.connections@.take(k + 1).drop_last() =~= schema.connections@.take(k as int));
                assert(schema.connections@.take(k + 1).last() == c);
            }
            let ghost e0 = errors@;
            if !seen.contains(&c.from_node) {
                errors.push(AiImportError::DanglingConnection { node_id: c.from_node });
                proof {
                    assert(error_views(errors@) =~= error_views(e0).push(
                        AiImportErrorV::DanglingConnection { node_id: c.from_node },
                    ));
                }
            }
            let ghost e1 = errors@;
            if !seen.contains(&c.to_node) {
                errors.push(AiImportError::DanglingConnection { node_id: c.to_node });
                proof {
                    assert(error_views(errors@) =~= error_views(e1).push(
                        AiImportErrorV::DanglingConnection { node_id: c.to_node },
                    ));
                }
            }
            proof {
                let after = dangling_ids(schema.connections@.take(k + 1), ids.to_set());
                let mid = if !ids.to_set().contains(c.from_node) {
                    before.push(c.from_node)
                } else {
                    before
                };
                assert(error_views(e1) =~= dup + dangling_errors(mid));
                assert(error_views(errors@) =~= dup + dangling_errors(after));
            }
            k = k + 1;
        }
        proof {
            assert(schema.connections@.take(schema.connections@.len() as int) =~= schema.connections@);
        }
        let ghost dd = error_views(errors@);
        let mut kinds: Vec<NodeKind> = Vec::new();
        let mut m: usize = 0;
        proof {
            assert(nodes.take(0) =~= Seq::<AiNodeSpec>::empty());
            assert(dd + unknown_kinds(nodes.take(0)) =~= dd);
        }
        while m < schema.nodes.len()
            invariant
                m <= nodes.len(),
                nodes == schema.nodes@,
                error_views(errors@) == dd + unknown_kinds(nodes.take(m as int)),
                unknown_kinds(nodes.take(m as int)).len() == 0 ==> kinds@.len() == m && forall|j: int|
                    0 <= j < m ==> describes(nodes[j], #[trigger] kinds@[j]),
            decreases nodes.len() - m,
        {
            proof {
                assert(nodes.take(m + 1).drop_last() =~= nodes.take(m as int));
                assert(nodes.take(m + 1).last() == nodes[m as int]);
            }
            let ghost e0 = errors@;
            match schema.nodes[m].to_node_kind() {
                Ok(kind) => {
                    kinds.push(kind);
                },
                Err(e) => {
                    errors.push(e);
                    proof {
                        assert(error_views(errors@) =~= error_views(e0).push(errors@.last()@));
                    }
                },
            }
            m = m + 1;
        }
        proof {
            assert(nodes.take(nodes.len() as int) =~= nodes);
        }
        if errors.len() > 0 {
            return Err(errors);
        }
        proof {
            assert(error_views(errors@).len() == 0);
            assert(duplicate_ids(ids).len() == 0) by {
                assert(dup.len() == duplicate_errors(duplicate_ids(ids)).len());
            }
            assert(dangling_ids(schema.connections@, ids.to_set()).len() == 0) by {
                assert(dd.len() == dup.len() + dangling_errors(dangling_ids(schema.connections@, ids.to_set())).len());
            }
            lemma_no_duplicate_ids(ids);
        }
        let base = self.next_id;
        let mut t: usize = 0;
        let ghost old_kinds = self.graph.kinds();
        while kinds.len() > 0
            invariant
                t <= nodes.len(),
                nodes.len() == nn,
                kinds@.len() == nodes.len() - t,
                forall|j: int| 0 <= j < kinds@.len() ==> describes(nodes[t + j], #[trigger] kinds@[j]),
                self.wf(),
                self.next_id == base + t,
                base + nodes.len() <= u64::MAX,
                forall|j: int|
                    0 <= j < t ==> self.graph.kinds().contains_key(#[trigger] new_id(base, j))
                        && describes(nodes[j], self.graph.kinds()[new_id(base, j)]),
                forall|id: NodeId|
                    !(base <= id < base + t) ==> (#[trigger] self.graph.kinds().contains_key(id)
                        == old_kinds.contains_key(id)) && (old_kinds.contains_key(id)
                        ==> self.graph.kinds()[id] == old_kinds[id]),
                old_kinds == old(self).graph.kinds(),
                self.graph.connections@ == old(self).graph.connections@,
                self.subgraphs == old(self).subgraphs,
                self.graph_stack == old(self).graph_stack,
                self.selection == old(self).selection,
            decreases kinds@.len(),
        {
            let ghost k0 = kinds@;
            let kind = kinds.remove(0);
            proof {
                assert(describes(nodes[t as int], kind)) by {
                    assert(k0[0] == kind);
                }
                assert forall|j: int| 0 <= j < kinds@.len() implies describes(nodes[t + 1 + j], #[trigger] kinds@[j]) by {
                    assert(kinds@[j] == k0[j + 1]);
                }
            }
            let fresh = self.next_id;
            self.next_id = self.next_id + 1;
            let ghost before = self.graph.kinds();
            self.graph.insert_node(fresh, kind);
            proof {
                assert forall|j: int| 0 <= j < t + 1 implies self.graph.kinds().contains_key(#[trigger] new_id(base, j))
                    && describes(nodes[j], self.graph.kinds()[new_id(base, j)]) by {
                    if j < t {
                        assert(before.contains_key(new_id(base, j)));
                    } else {
                        assert(new_id(base, j) == fresh);
                    }
                }
            }
            t = t + 1;
        }
        let mut w: usize = 0;
        let ghost conns0 = self.graph.connections@;
        let ghost kinds_after = self.graph.kinds();
        let ghost mapped = schema.connections@.map_values(
            |c: AiConnectionSpec| imported_wire(nodes, c, base),
        );
        while w < schema.connections.len()
            invariant
                w <= schema.connections@.len(),
                mapped.len() == schema.connections@.len(),
                mapped == schema.connections@.map_values(
                    |c: AiConnectionSpec| imported_wire(nodes, c, base),
                ),
                nodes == schema.nodes@,
                ids == node_ids(nodes),
                ids.no_duplicates(),
                base + nodes.len() <= u64::MAX,
                dangling_ids(schema.connections@, ids.to_set()).len() == 0,
                self.graph.connections@ == conns0 + mapped.take(w as int),
                self.wf(),
                conns0 == old(self).graph.connections@,
                self.next_id == base + nodes.len(),
                base == old(self).next_id,
                self.graph.kinds() == kinds_after,
                self.subgraphs == old(self).subgraphs,
                self.graph_stack == old(self).graph_stack,
                self.selection == old(self).selection,
            decreases schema.connections@.len() - w,
        {
            let c = schema.connections[w];
            proof {
                lemma_wire_ends_known(schema.connections@, ids.to_set(), w as int);
                assert(ids.to_set().contains(c.from_node) && ids.to_set().contains(c.to_node));
            }
            let a = find_import_index(&schema.nodes, c.from_node);
            let b = find_import_index(&schema.nodes, c.to_node);
            let wire = Connection {
                from: PinRef {
                    node_id: base + a as u64,
                    kind: PinKind::Output,
                    index: c.from_index,
                    is_exec: c.from_exec,
                },
                to: PinRef {
                    node_id: base + b as u64,
                    kind: PinKind::Input,
                    index: c.to_index,
                    is_exec: c.to_exec,
                },
            };
            self.graph.connections.push(wire);
            proof {
                assert(wire == mapped[w as int]);
                assert(conns0 + mapped.take(w + 1) =~= (conns0 + mapped.take(w as int)).push(wire));
            }
            w = w + 1;
        }
        proof {
            assert(mapped.take(mapped.len() as int) =~= mapped);
        }
        Ok(schema.nodes.len())
    }
}

/// When no wire end is dangling, both ends of every wire name imported
/// nodes.
proof fn lemma_wire_ends_known(conns: Seq<AiConnectionSpec>, ids: Set<u64>, w: int)
    requires
        0 <= w < conns.len(),
        dangling_ids(conns, ids).len() == 0,
    ensures
        ids.contains(conns[w].from_node),
        ids.contains(conns[w].to_node),
    decreases conns.len(),
{
    let init = conns.drop_last();
    let r = dangling_ids(init, ids);
    let c = conns.last();
    let r1 = if !ids.contains(c.from_node) {
        r.push(c.from_node)
    } else {
        r
    };
    assert(r1.len() >= r.len());
    if w < conns.len() - 1 {
        assert(init[w] == conns[w]);
        lemma_wire_ends_known(init, ids, w);
    }
}

} // verus!
