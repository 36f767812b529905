//! Node kinds and their pin layout: titles, pin labels and pin types.
use vstd::prelude::*;

use crate::plugin::{pin_views, plugin_def_for, spec_plugin_def, PluginInstance};
use crate::text::{owned, strs};
use crate::types::{
    plugin_pin_type_to_data_type, spec_pin_data_type, str_views, CompareOp, GraphId, PinDataType,
    PluginPinType,
};

verus! {

/// What a node is and does.
///
/// A `Number` node holds the source text of its literal, exactly as the
/// generated code spells it.
#[derive(Debug)]
pub enum NodeKind {
    Number(String),
    Add,
    Sub,
    Mul,
    Div,
    Print,
    Compare(CompareOp),
    Branch,
    And,
    Or,
    Not,
    Start,
    SetVariable(String),
    GetVariable(String),
    WhileLoop,
    FunctionDef { name: String, params: String },
    FunctionCall { name: String },
    Return,
    GroupNode {
        graph_id: GraphId,
        name: String,
        exec_in: Vec<String>,
        exec_out: Vec<String>,
        data_in: Vec<(String, PinDataType)>,
        data_out: Vec<(String, PinDataType)>,
    },
    GroupInput { slot: usize, label: String, is_exec: bool, data_type: PinDataType },
    GroupOutput { slot: usize, label: String, is_exec: bool, data_type: PinDataType },
    Plugin(PluginInstance),
}

/// Labels of labelled typed pins.
pub open spec fn pair_labels(v: Seq<(String, PinDataType)>) -> Seq<Seq<char>> {
    v.map_values(|p: (String, PinDataType)| p.0@)
}

/// Types of labelled typed pins.
pub open spec fn pair_types(v: Seq<(String, PinDataType)>) -> Seq<PinDataType> {
    v.map_values(|p: (String, PinDataType)| p.1)
}

/// `n` empty labels.
pub open spec fn blanks(n: nat) -> Seq<Seq<char>> {
    Seq::new(n, |i: int| Seq::<char>::empty())
}

/// Title shown in a node's header.
pub open spec fn spec_title(k: NodeKind) -> Seq<char> {
    match k {
        NodeKind::Number(_) => "Number"@,
        NodeKind::Add => "Math (Add)"@,
        NodeKind::Sub => "Math (Subtract)"@,
        NodeKind::Mul => "Math (Multiply)"@,
        NodeKind::Div => "Math (Divide)"@,
        NodeKind::Print => "Print"@,
        NodeKind::Compare(_) => "Compare"@,
        NodeKind::Branch => "If / Else"@,
        NodeKind::And => "Logic (AND)"@,
        NodeKind::Or => "Logic (OR)"@,
        NodeKind::Not => "Logic (NOT)"@,
        NodeKind::Start => "Start"@,
        NodeKind::SetVariable(_) => "Set Variable"@,
        NodeKind::GetVariable(_) => "Get Variable"@,
        NodeKind::WhileLoop => "While Loop"@,
        NodeKind::FunctionDef { .. } => "Function Def"@,
        NodeKind::FunctionCall { .. } => "Call Function"@,
        NodeKind::Return => "Return"@,
        NodeKind::GroupNode { .. } => "Group"@,
        NodeKind::GroupInput { .. } => "Input"@,
        NodeKind::GroupOutput { .. } => "Output"@,
        NodeKind::Plugin(inst) => match spec_plugin_def(inst.plugin_id) {
            Some(d) => d.title,
            None => "Unknown Plugin Node"@,
        },
    }
}

/// Labels of a node's data input pins.
pub open spec fn spec_input_labels(k: NodeKind) -> Seq<Seq<char>> {
    match k {
        NodeKind::Add | NodeKind::Sub | NodeKind::Mul | NodeKind::Div => seq!["A"@, "B"@],
        NodeKind::Print => seq!["In"@],
        NodeKind::Compare(_) => seq!["A"@, "B"@],
        NodeKind::Branch => seq!["Cond"@, "Then"@, "Else"@],
        NodeKind::And | NodeKind::Or => seq!["A"@, "B"@],
        NodeKind::Not => seq!["A"@],
        NodeKind::SetVariable(_) => seq!["Value"@],
        NodeKind::WhileLoop => seq!["Cond"@],
        NodeKind::FunctionCall { .. } => seq!["Arg1"@, "Arg2"@],
        NodeKind::Return => seq!["Value"@],
        NodeKind::GroupNode { data_in, .. } => blanks(data_in@.len()),
        NodeKind::GroupOutput { is_exec, .. } => if is_exec {
            Seq::empty()
        } else {
            seq!["Value"@]
        },
        NodeKind::Plugin(inst) => match spec_plugin_def(inst.plugin_id) {
            Some(d) => d.data_inputs.map_values(|p: (Seq<char>, PluginPinType)| p.0),
            None => Seq::empty(),
        },
        _ => Seq::empty(),
    }
}

/// Labels of a node's data output pins.
pub open spec fn spec_output_labels(k: NodeKind) -> Seq<Seq<char>> {
    match k {
        NodeKind::Number(_) => seq!["Value"@],
        NodeKind::Add | NodeKind::Sub | NodeKind::Mul | NodeKind::Div => seq!["Result"@],
        NodeKind::Compare(_) => seq!["Result"@],
        NodeKind::Branch => seq!["Result"@],
        NodeKind::And | NodeKind::Or | NodeKind::Not => seq!["Result"@],
        NodeKind::GetVariable(_) => seq!["Value"@],
        NodeKind::FunctionCall { .. } => seq!["Result"@],
        NodeKind::GroupNode { data_out, .. } => blanks(data_out@.len()),
        NodeKind::GroupInput { is_exec, .. } => if is_exec {
            Seq::empty()
        } else {
            seq!["Value"@]
        },
        NodeKind::Plugin(inst) => match spec_plugin_def(inst.plugin_id) {
            Some(d) => d.data_outputs.map_values(|p: (Seq<char>, PluginPinType)| p.0),
            None => Seq::empty(),
        },
        _ => Seq::empty(),
    }
}

/// Types of a node's data input pins.
pub open spec fn spec_input_types(k: NodeKind) -> Seq<PinDataType> {
    match k {
        NodeKind::Add | NodeKind::Sub | NodeKind::Mul | NodeKind::Div => seq![
            PinDataType::Number,
            PinDataType::Number,
        ],
        NodeKind::Print => seq![PinDataType::Any],
        NodeKind::Compare(_) => seq![PinDataType::Number, PinDataType::Number],
        NodeKind::Branch => seq![PinDataType::Bool, PinDataType::Number, PinDataType::Number],
        NodeKind::And | NodeKind::Or => seq![PinDataType::Bool, PinDataType::Bool],
        NodeKind::Not => seq![PinDataType::Bool],
        NodeKind::SetVariable(_) => seq![PinDataType::Number],
        NodeKind::WhileLoop => seq![PinDataType::Bool],
        NodeKind::FunctionCall { .. } => seq![PinDataType::Number, PinDataType::Number],
        NodeKind::Return => seq![PinDataType::Number],
        NodeKind::GroupNode { data_in, .. } => pair_types(data_in@),
        NodeKind::GroupOutput { is_exec, data_type, .. } => if is_exec {
            Seq::empty()
        } else {
            seq![data_type]
        },
        NodeKind::Plugin(inst) => match spec_plugin_def(inst.plugin_id) {
            Some(d) => d.data_inputs.map_values(
                |p: (Seq<char>, PluginPinType)| spec_pin_data_type(p.1),
            ),
            None => Seq::empty(),
        },
        _ => Seq::empty(),
    }
}

/// Types of a node's data output pins.
pub open spec fn spec_output_types(k: NodeKind) -> Seq<PinDataType> {
    match k {
        NodeKind::Number(_) => seq![PinDataType::Number],
        NodeKind::Add | NodeKind::Sub | NodeKind::Mul | NodeKind::Div => seq![PinDataType::Number],
        NodeKind::Compare(_) => seq![PinDataType::Bool],
        NodeKind::Branch => seq![PinDataType::Number],
        NodeKind::And | NodeKind::Or | NodeKind::Not => seq![PinDataType::Bool],
        NodeKind::GetVariable(_) => seq![PinDataType::Number],
        NodeKind::FunctionCall { .. } => seq![PinDataType::Number],
        NodeKind::GroupNode { data_out, .. } => pair_types(data_out@),
        NodeKind::GroupInput { is_exec, data_type, .. } => if is_exec {
            Seq::empty()
        } else {
            seq![data_type]
        },
        NodeKind::Plugin(inst) => match spec_plugin_def(inst.plugin_id) {
            Some(d) => d.data_outputs.map_values(
                |p: (Seq<char>, PluginPinType)| spec_pin_data_type(p.1),
            ),
            None => Seq::empty(),
        },
        _ => Seq::empty(),
    }
}

/// Labels of a node's exec (control-flow) input pins.
pub open spec fn spec_exec_input_labels(k: NodeKind) -> Seq<Seq<char>> {
    match k {
        NodeKind::SetVariable(_) => seq!["In"@],
        NodeKind::Print => seq!["In"@],
        NodeKind::WhileLoop => seq!["In"@],
        NodeKind::FunctionCall { .. } => seq!["In"@],
        NodeKind::Return => seq!["In"@],
        NodeKind::GroupNode { exec_in, .. } => blanks(exec_in@.len()),
        NodeKind::GroupOutput { is_exec, .. } => if is_exec {
            seq!["In"@]
        } else {
            Seq::empty()
        },
        NodeKind::Plugin(inst) => match spec_plugin_def(inst.plugin_id) {
            Some(d) => d.exec_inputs,
            None => Seq::empty(),
        },
        _ => Seq::empty(),
    }
}

/// Labels of a node's exec (control-flow) output pins.
pub open spec fn spec_exec_output_labels(k: NodeKind) -> Seq<Seq<char>> {
    match k {
        NodeKind::Start => seq!["Out"@],
        NodeKind::SetVariable(_) => seq!["Out"@],
        NodeKind::Print => seq!["Out"@],
        NodeKind::WhileLoop => seq!["Body"@, "After"@],
        NodeKind::FunctionDef { .. } => seq!["Body"@],
        NodeKind::FunctionCall { .. } => seq!["Out"@],
        NodeKind::GroupNode { exec_out, .. } => blanks(exec_out@.len()),
        NodeKind::GroupInput { is_exec, .. } => if is_exec {
            seq!["Out"@]
        } else {
            Seq::empty()
        },
        NodeKind::Plugin(inst) => match spec_plugin_def(inst.plugin_id) {
            Some(d) => d.exec_outputs,
            None => Seq::empty(),
        },
        _ => Seq::empty(),
    }
}

/// Extra body rows taken by a node's inline editors.
pub open spec fn spec_widget_rows(k: NodeKind) -> nat {
    match k {
        NodeKind::Compare(_) => 1,
        NodeKind::SetVariable(_) | NodeKind::GetVariable(_) => 1,
        NodeKind::FunctionDef { .. } => 2,
        NodeKind::FunctionCall { .. } => 1,
        NodeKind::Plugin(inst) => match spec_plugin_def(inst.plugin_id) {
            Some(d) => d.fields.len(),
            None => 0,
        },
        _ => 0,
    }
}

/// Exec labels, with a boundary node's own label in place of the fixed one.
pub open spec fn spec_exec_output_labels_owned(k: NodeKind) -> Seq<Seq<char>> {
    match k {
        NodeKind::GroupNode { exec_out, .. } => strs(exec_out@),
        NodeKind::GroupInput { is_exec, label, .. } => if is_exec {
            seq![label@]
        } else {
            Seq::empty()
        },
        _ => spec_exec_output_labels(k),
    }
}

/// Exec input labels, with a group's own labels in place of blanks.
pub open spec fn spec_exec_input_labels_owned(k: NodeKind) -> Seq<Seq<char>> {
    match k {
        NodeKind::GroupNode { exec_in, .. } => strs(exec_in@),
        _ => spec_exec_input_labels(k),
    }
}

/// Data input labels, with group and boundary labels in place of blanks.
pub open spec fn spec_input_labels_owned(k: NodeKind) -> Seq<Seq<char>> {
    match k {
        NodeKind::GroupNode { data_in, .. } => pair_labels(data_in@),
        NodeKind::GroupOutput { is_exec, label, .. } => if !is_exec {
            seq![label@]
        } else {
            Seq::empty()
        },
        _ => spec_input_labels(k),
    }
}

/// Data output labels, with group and boundary labels in place of blanks.
pub open spec fn spec_output_labels_owned(k: NodeKind) -> Seq<Seq<char>> {
    match k {
        NodeKind::GroupNode { data_out, .. } => pair_labels(data_out@),
        NodeKind::GroupInput { is_exec, label, .. } => if !is_exec {
            seq![label@]
        } else {
            Seq::empty()
        },
        _ => spec_output_labels(k),
    }
}

/// Every node lays out as many types as labels on each side: data inputs,
/// data outputs, and exec pins with their owned labels.
pub proof fn law_pin_lists_match(k: NodeKind)
    ensures
        spec_input_types(k).len() == spec_input_labels(k).len(),
        spec_input_labels_owned(k).len() == spec_input_labels(k).len(),
        spec_output_types(k).len() == spec_output_labels(k).len(),
        spec_output_labels_owned(k).len() == spec_output_labels(k).len(),
        spec_exec_input_labels_owned(k).len() == spec_exec_input_labels(k).len(),
        spec_exec_output_labels_owned(k).len() == spec_exec_output_labels(k).len(),
{
}

/// Copies of strings.
pub fn clone_strings(v: &Vec<String>) -> (r: Vec<String>)
    ensures
        strs(r@) == strs(v@),
{
    let mut r: Vec<String> = Vec::new();
    let mut i: usize = 0;
    while i < v.len()
        invariant
            i <= v@.len(),
            r@.len() == i,
            strs(r@) == strs(v@).take(i as int),
        decreases v@.len() - i,
    {
        r.push(v[i].clone());
        proof {
            assert(strs(r@) =~= strs(v@).take(i + 1));
        }
        i = i + 1;
    }
    proof {
        assert(strs(v@).take(v@.len() as int) =~= strs(v@));
    }
    r
}

/// Owned copies of string slices.
pub fn to_owned_strings(v: &Vec<&'static str>) -> (r: Vec<String>)
    ensures
        strs(r@) == str_views(v@),
{
    let mut r: Vec<String> = Vec::new();
    let mut i: usize = 0;
    while i < v.len()
        invariant
            i <= v@.len(),
            r@.len() == i,
            strs(r@) == str_views(v@).take(i as int),
        decreases v@.len() - i,
    {
        r.push(owned(v[i]));
        proof {
            assert(strs(r@) =~= str_views(v@).take(i + 1));
        }
        i = i + 1;
    }
    proof {
        assert(str_views(v@).take(v@.len() as int) =~= str_views(v@));
    }
    r
}

fn pair_label_copies(v: &Vec<(String, PinDataType)>) -> (r: Vec<String>)
    ensures
        strs(r@) == pair_labels(v@),
{
    let mut r: Vec<String> = Vec::new();
    let mut i: usize = 0;
    while i < v.len()
        invariant
            i <= v@.len(),
            r@.len() == i,
            strs(r@) == pair_labels(v@).take(i as int),
        decreases v@.len() - i,
    {
        r.push(v[i].0.clone());
        proof {
            assert(strs(r@) =~= pair_labels(v@).take(i + 1));
        }
        i = i + 1;
    }
    proof {
        assert(pair_labels(v@).take(v@.len() as int) =~= pair_labels(v@));
    }
    r
}

fn pair_type_copies(v: &Vec<(String, PinDataType)>) -> (r: Vec<PinDataType>)
    ensures
        r@ == pair_types(v@),
{
    let mut r: Vec<PinDataType> = Vec::new();
    let mut i: usize = 0;
    while i < v.len()
        invariant
            i <= v@.len(),
            r@.len() == i,
            r@ == pair_types(v@).take(i as int),
        decreases v@.len() - i,
    {
        r.push(v[i].1);
        proof {
            assert(r@ =~= pair_types(v@).take(i + 1));
        }
        i = i + 1;
    }
    proof {
        assert(pair_types(v@).take(v@.len() as int) =~= pair_types(v@));
    }
    r
}

fn plugin_pin_labels(v: &Vec<(&'static str, PluginPinType)>) -> (r: Vec<&'static str>)
    ensures
        str_views(r@) == pin_views(v@).map_values(|p: (Seq<char>, PluginPinType)| p.0),
{
    let mut r: Vec<&'static str> = Vec::new();
    let mut i: usize = 0;
    while i < v.len()
        invariant
            i <= v@.len(),
            r@.len() == i,
            str_views(r@) == pin_views(v@).map_values(|p: (Seq<char>, PluginPinType)| p.0).take(
                i as int,
            ),
        decreases v@.len() - i,
    {
        r.push(v[i].0);
        proof {
            assert(str_views(r@) =~= pin_views(v@).map_values(
                |p: (Seq<char>, PluginPinType)| p.0,
            ).take(i + 1));
        }
        i = i + 1;
    }
    proof {
        assert(pin_views(v@).map_values(|p: (Seq<char>, PluginPinType)| p.0).take(
            v@.len() as int,
        ) =~= pin_views(v@).map_values(|p: (Seq<char>, PluginPinType)| p.0));
    }
    r
}

fn plugin_pin_types(v: &Vec<(&'static str, PluginPinType)>) -> (r: Vec<PinDataType>)
    ensures
        r@ == pin_views(v@).map_values(
            |p: (Seq<char>, PluginPinType)| spec_pin_data_type(p.1),
        ),
{
    let mut r: Vec<PinDataType> = Vec::new();
    let mut i: usize = 0;
    while i < v.len()
        invariant
            i <= v@.len(),
            r@.len() == i,
            r@ == pin_views(v@).map_values(
                |p: (Seq<char>, PluginPinType)| spec_pin_data_type(p.1),
            ).take(i as int),
        decreases v@.len() - i,
    {
        r.push(plugin_pin_type_to_data_type(v[i].1));
        proof {
            assert(r@ =~= pin_views(v@).map_values(
                |p: (Seq<char>, PluginPinType)| spec_pin_data_type(p.1),
            ).take(i + 1));
        }
        i = i + 1;
    }
    proof {
        assert(pin_views(v@).map_values(
            |p: (Seq<char>, PluginPinType)| spec_pin_data_type(p.1),
        ).take(v@.len() as int) =~= pin_views(v@).map_values(
            |p: (Seq<char>, PluginPinType)| spec_pin_data_type(p.1),
        ));
    }
    r
}

fn blank_labels(n: usize) -> (r: Vec<&'static str>)
    ensures
        str_views(r@) == blanks(n as nat),
{
    let mut r: Vec<&'static str> = Vec::new();
    let mut i: usize = 0;
    while i < n
        invariant
            i <= n,
            r@.len() == i,
            str_views(r@) == blanks(i as nat),
        decreases n - i,
    {
        let ghost old_r = r@;
        r.push("");
        proof {
            reveal_strlit("");
            assert(""@ =~= Seq::<char>::empty());
            assert forall|j: int| 0 <= j < i + 1 implies str_views(r@)[j] == blanks((i + 1) as nat)[j] by {
                if j < i {
                    assert(str_views(old_r)[j] == blanks(i as nat)[j]);
                }
            }
            assert(str_views(r@) =~= blanks((i + 1) as nat));
        }
        i = i + 1;
    }
    r
}

impl NodeKind {
    /// Title shown in the node's header.
    pub fn title(&self) -> (t: &'static str)
        ensures
            t@ == spec_title(*self),
    {
        match self {
            NodeKind::Number(_) => "Number",
            NodeKind::Add => "Math (Add)",
            NodeKind::Sub => "Math (Subtract)",
            NodeKind::Mul => "Math (Multiply)",
            NodeKind::Div => "Math (Divide)",
            NodeKind::Print => "Print",
            NodeKind::Compare(_) => "Compare",
            NodeKind::Branch => "If / Else",
            NodeKind::And => "Logic (AND)",
            NodeKind::Or => "Logic (OR)",
            NodeKind::Not => "Logic (NOT)",
            NodeKind::Start => "Start",
            NodeKind::SetVariable(_) => "Set Variable",
            NodeKind::GetVariable(_) => "Get Variable",
            NodeKind::WhileLoop => "While Loop",
            NodeKind::FunctionDef { .. } => "Function Def",
            NodeKind::FunctionCall { .. } => "Call Function",
            NodeKind::Return => "Return",
            NodeKind::GroupNode { .. } => "Group",
            NodeKind::GroupInput { .. } => "Input",
            NodeKind::GroupOutput { .. } => "Output",
            NodeKind::Plugin(inst) => match plugin_def_for(inst) {
                Some(d) => d.title,
                None => "Unknown Plugin Node",
            },
        }
    }

    /// Display text: a group's own name, otherwise the title.
    pub fn title_owned(&self) -> (t: String)
        ensures
            t@ == (match *self {
                NodeKind::GroupNode { name, .. } => name@,
                _ => spec_title(*self),
            }),
    {
        match self {
            NodeKind::GroupNode { name, .. } => name.clone(),
            _ => owned(self.title()),
        }
    }

    /// Labels of the data input pins.
    pub fn input_labels(&self) -> (r: Vec<&'static str>)
        ensures
            str_views(r@) == spec_input_labels(*self),
    {
        let r = match self {
            NodeKind::Add | NodeKind::Sub | NodeKind::Mul | NodeKind::Div => vec!["A", "B"],
            NodeKind::Print => vec!["In"],
            NodeKind::Compare(_) => vec!["A", "B"],
            NodeKind::Branch => vec!["Cond", "Then", "Else"],
            NodeKind::And | NodeKind::Or => vec!["A", "B"],
            NodeKind::Not => vec!["A"],
            NodeKind::SetVariable(_) => vec!["Value"],
            NodeKind::WhileLoop => vec!["Cond"],
            NodeKind::FunctionCall { .. } => vec!["Arg1", "Arg2"],
            NodeKind::Return => vec!["Value"],
            NodeKind::GroupNode { data_in, .. } => blank_labels(data_in.len()),
            NodeKind::GroupOutput { is_exec, .. } => {
                if *is_exec {
                    vec![]
                } else {
                    vec!["Value"]
                }
            },
            NodeKind::Plugin(inst) => match plugin_def_for(inst) {
                Some(d) => plugin_pin_labels(&d.data_inputs),
                None => vec![],
            },
            _ => vec![],
        };
        proof {
            assert(str_views(r@) =~= spec_input_labels(*self));
        }
        r
    }

    /// Labels of the data output pins.
    pub fn output_labels(&self) -> (r: Vec<&'static str>)
        ensures
            str_views(r@) == spec_output_labels(*self),
    {
        let r = match self {
            NodeKind::Number(_) => vec!["Value"],
            NodeKind::Add | NodeKind::Sub | NodeKind::Mul | NodeKind::Div => vec!["Result"],
            NodeKind::Compare(_) => vec!["Result"],
            NodeKind::Branch => vec!["Result"],
            NodeKind::And | NodeKind::Or | NodeKind::Not => vec!["Result"],
            NodeKind::GetVariable(_) => vec!["Value"],
            NodeKind::FunctionCall { .. } => vec!["Result"],
            NodeKind::GroupNode { data_out, .. } => blank_labels(data_out.len()),
            NodeKind::GroupInput { is_exec, .. } => {
                if *is_exec {
                    vec![]
                } else {
                    vec!["Value"]
                }
            },
            NodeKind::Plugin(inst) => match plugin_def_for(inst) {
                Some(d) => plugin_pin_labels(&d.data_outputs),
                None => vec![],
            },
            _ => vec![],
        };
        proof {
            assert(str_views(r@) =~= spec_output_labels(*self));
        }
        r
    }

    /// Types of the data input pins.
    pub fn input_types(&self) -> (r: Vec<PinDataType>)
        ensures
            r@ == spec_input_types(*self),
    {
        let r = match self {
            NodeKind::Add | NodeKind::Sub | NodeKind::Mul | NodeKind::Div => {
                vec![PinDataType::Number, PinDataType::Number]
            },
            NodeKind::Print => vec![PinDataType::Any],
            NodeKind::Compare(_) => vec![PinDataType::Number, PinDataType::Number],
            NodeKind::Branch => vec![PinDataType::Bool, PinDataType::Number, PinDataType::Number],
            NodeKind::And | NodeKind::Or => vec![PinDataType::Bool, PinDataType::Bool],
            NodeKind::Not => vec![PinDataType::Bool],
            NodeKind::SetVariable(_) => vec![PinDataType::Number],
            NodeKind::WhileLoop => vec![PinDataType::Bool],
            NodeKind::FunctionCall { .. } => vec![PinDataType::Number, PinDataType::Number],
            NodeKind::Return => vec![PinDataType::Number],
            NodeKind::GroupNode { data_in, .. } => pair_type_copies(data_in),
            NodeKind::GroupOutput { is_exec, data_type, .. } => {
                if *is_exec {
                    vec![]
                } else {
                    vec![*data_type]
                }
            },
            NodeKind::Plugin(inst) => match plugin_def_for(inst) {
                Some(d) => plugin_pin_types(&d.data_inputs),
                None => vec![],
            },
            _ => vec![],
        };
        proof {
            assert(r@ =~= spec_input_types(*self));
        }
        r
    }

    /// Types of the data output pins.
    pub fn output_types(&self) -> (r: Vec<PinDataType>)
        ensures
            r@ == spec_output_types(*self),
    {
        let r = match self {
            NodeKind::Number(_) => vec![PinDataType::Number],
            NodeKind::Add | NodeKind::Sub | NodeKind::Mul | NodeKind::Div => {
                vec![PinDataType::Number]
            },
            NodeKind::Compare(_) => vec![PinDataType::Bool],
            NodeKind::Branch => vec![PinDataType::Number],
            NodeKind::And | NodeKind::Or | NodeKind::Not => vec![PinDataType::Bool],
            NodeKind::GetVariable(_) => vec![PinDataType::Number],
            NodeKind::FunctionCall { .. } => vec![PinDataType::Number],
            NodeKind::GroupNode { data_out, .. } => pair_type_copies(data_out),
            NodeKind::GroupInput { is_exec, data_type, .. } => {
                if *is_exec {
                    vec![]
                } else {
                    vec![*data_type]
                }
            },
            NodeKind::Plugin(inst) => match plugin_def_for(inst) {
                Some(d) => plugin_pin_types(&d.data_outputs),
                None => vec![],
            },
            _ => vec![],
        };
        proof {
            assert(r@ =~= spec_output_types(*self));
        }
        r
    }

    /// Labels of the exec input pins.
    pub fn exec_input_labels(&self) -> (r: Vec<&'static str>)
        ensures
            str_views(r@) == spec_exec_input_labels(*self),
    {
        let r = match self {
            NodeKind::SetVariable(_) => vec!["In"],
            NodeKind::Print => vec!["In"],
            NodeKind::WhileLoop => vec!["In"],
            NodeKind::FunctionCall { .. } => vec!["In"],
            NodeKind::Return => vec!["In"],
            NodeKind::GroupNode { exec_in, .. } => blank_labels(exec_in.len()),
            NodeKind::GroupOutput { is_exec, .. } => {
                if *is_exec {
                    vec!["In"]
                } else {
                    vec![]
                }
            },
            NodeKind::Plugin(inst) => match plugin_def_for(inst) {
                Some(d) => d.exec_inputs,
                None => vec![],
            },
            _ => vec![],
        };
        proof {
            assert(str_views(r@) =~= spec_exec_input_labels(*self));
        }
        r
    }

    /// Labels of the exec output pins.
    pub fn exec_output_labels(&self) -> (r: Vec<&'static str>)
        ensures
            str_views(r@) == spec_exec_output_labels(*self),
    {
        let r = match self {
            NodeKind::Start => vec!["Out"],
            NodeKind::SetVariable(_) => vec!["Out"],
            NodeKind::Print => vec!["Out"],
            NodeKind::WhileLoop => vec!["Body", "After"],
            NodeKind::FunctionDef { .. } => vec!["Body"],
            NodeKind::FunctionCall { .. } => vec!["Out"],
            NodeKind::GroupNode { exec_out, .. } => blank_labels(exec_out.len()),
            NodeKind::GroupInput { is_exec, .. } => {
                if *is_exec {
                    vec!["Out"]
                } else {
                    vec![]
                }
            },
            NodeKind::Plugin(inst) => match plugin_def_for(inst) {
                Some(d) => d.exec_outputs,
                None => vec![],
            },
            _ => vec![],
        };
        proof {
            assert(str_views(r@) =~= spec_exec_output_labels(*self));
        }
        r
    }

    /// Extra body rows that the node's inline editors take; the canvas
    /// multiplies them by its row height.
    pub fn widget_extra_rows(&self) -> (n: usize)
        ensures
            n == spec_widget_rows(*self),
    {
        match self {
            NodeKind::Compare(_) => 1,
            NodeKind::SetVariable(_) | NodeKind::GetVariable(_) => 1,
            NodeKind::FunctionDef { .. } => 2,
            NodeKind::FunctionCall { .. } => 1,
            NodeKind::Plugin(inst) => match plugin_def_for(inst) {
                Some(d) => d.fields.len(),
                None => 0,
            },
            _ => 0,
        }
    }

    /// Exec input labels, with a group's own labels in place of blanks.
    pub fn exec_input_labels_owned(&self) -> (r: Vec<String>)
        ensures
            strs(r@) == spec_exec_input_labels_owned(*self),
    {
        if let NodeKind::GroupNode { exec_in, .. } = self {
            return clone_strings(exec_in);
        }
        to_owned_strings(&self.exec_input_labels())
    }

    /// Exec output labels, with group and boundary labels in place of the
    /// fixed ones.
    pub fn exec_output_labels_owned(&self) -> (r: Vec<String>)
        ensures
            strs(r@) == spec_exec_output_labels_owned(*self),
    {
        if let NodeKind::GroupNode { exec_out, .. } = self {
            return clone_strings(exec_out);
        }
        if let NodeKind::GroupInput { is_exec: true, label, .. } = self {
            let r = vec![label.clone()];
            proof {
                assert(strs(r@) =~= seq![label@]);
            }
            return r;
        }
        to_owned_strings(&self.exec_output_labels())
    }

    /// Data input labels, with group and boundary labels in place of blanks.
    pub fn input_labels_owned(&self) -> (r: Vec<String>)
        ensures
            strs(r@) == spec_input_labels_owned(*self),
    {
        if let NodeKind::GroupNode { data_in, .. } = self {
            return pair_label_copies(data_in);
        }
        if let NodeKind::GroupOutput { is_exec: false, label, .. } = self {
            let r = vec![label.clone()];
            proof {
                assert(strs(r@) =~= seq![label@]);
            }
            return r;
        }
        to_owned_strings(&self.input_labels())
    }

    /// Data output labels, with group and boundary labels in place of blanks.
    pub fn output_labels_owned(&self) -> (r: Vec<String>)
        ensures
            strs(r@) == spec_output_labels_owned(*self),
    {
        if let NodeKind::GroupNode { data_out, .. } = self {
            return pair_label_copies(data_out);
        }
        if let NodeKind::GroupInput { is_exec: false, label, .. } = self {
            let r = vec![label.clone()];
            proof {
                assert(strs(r@) =~= seq![label@]);
            }
            return r;
        }
        to_owned_strings(&self.output_labels())
    }
}

} // verus!
