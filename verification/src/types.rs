//! The vocabulary of node graphs: pin types, pin references, connections,
//! comparison operators and target languages.
use vstd::prelude::*;

verus! {

/// Node identifier, unique within one graph.
pub type NodeId = u64;

/// Sub-graph identifier.
pub type GraphId = u64;

/// Identifier of a semantic pin type declared by a plugin.
pub type SemanticTypeId = u64;

/// Identifier of a registered plugin.
pub type PluginId = u64;

/// Identifier of a node type inside one plugin.
pub type NodeTypeId = u64;

/// The graph that is open when the editor starts.
pub const ROOT_GRAPH_ID: GraphId = 0;

/// Type of the value carried by a pin.
#[derive(Clone, Copy, PartialEq, Eq, Structural, Debug, Hash)]
pub enum PinDataType {
    Number,
    Bool,
    Any,
    Exec,
    Semantic(SemanticTypeId),
}

/// Pin type as a plugin declares it.
#[derive(Clone, Copy, PartialEq, Eq, Structural, Debug, Hash)]
pub enum PluginPinType {
    Number,
    Bool,
    Any,
    Exec,
    Semantic(SemanticTypeId),
}

/// Relational operator offered by the Compare node.
#[derive(Clone, Copy, PartialEq, Eq, Structural, Debug, Hash)]
pub enum CompareOp {
    GreaterThan,
    LessThan,
    EqualTo,
}

/// Language that generated source is written in.
#[derive(Clone, Copy, PartialEq, Eq, Structural, Debug, Hash)]
pub enum TargetLanguage {
    Python,
    Rust,
    JavaScript,
    Cpp,
}

/// Which side of a node a pin sits on.
#[derive(Clone, Copy, PartialEq, Eq, Structural, Debug, Hash)]
pub enum PinKind {
    Input,
    Output,
}

/// One pin of one node: its side, its row among the pins of its kind, and
/// whether it carries control flow (exec) rather than data.
#[derive(Clone, Copy, PartialEq, Eq, Structural, Debug, Hash)]
pub struct PinRef {
    pub node_id: NodeId,
    pub kind: PinKind,
    pub index: usize,
    pub is_exec: bool,
}

/// A wire from an output pin to an input pin.
#[derive(Clone, Copy, PartialEq, Eq, Structural, Debug, Hash)]
pub struct Connection {
    pub from: PinRef,
    pub to: PinRef,
}

/// What a sub-graph was created as.
#[derive(Clone, Copy, PartialEq, Eq, Structural, Debug, Hash)]
pub enum GraphKind {
    Group,
    Function,
}

/// One interface pin of a sub-graph.
#[derive(Debug)]
pub struct BoundaryPin {
    pub label: String,
    pub is_exec: bool,
    pub data_type: PinDataType,
}

impl CompareOp {
    /// Menu label of the operator.
    pub fn label(&self) -> (s: &'static str)
        ensures
            s@ == (match self {
                CompareOp::GreaterThan => "Greater Than (>)"@,
                CompareOp::LessThan => "Less Than (<)"@,
                CompareOp::EqualTo => "Equal To (==)"@,
            }),
    {
        match self {
            CompareOp::GreaterThan => "Greater Than (>)",
            CompareOp::LessThan => "Less Than (<)",
            CompareOp::EqualTo => "Equal To (==)",
        }
    }

    /// Source-code symbol of the operator, the same in every target language.
    pub fn symbol(&self) -> (s: &'static str)
        ensures
            s@ == compare_symbol(*self),
    {
        match self {
            CompareOp::GreaterThan => ">",
            CompareOp::LessThan => "<",
            CompareOp::EqualTo => "==",
        }
    }
}

/// Source-code symbol of a comparison operator.
pub open spec fn compare_symbol(op: CompareOp) -> Seq<char> {
    match op {
        CompareOp::GreaterThan => ">"@,
        CompareOp::LessThan => "<"@,
        CompareOp::EqualTo => "=="@,
    }
}

impl TargetLanguage {
    /// Display name of the language.
    pub fn label(&self) -> (s: &'static str)
        ensures
            s@ == (match self {
                TargetLanguage::Python => "Python"@,
                TargetLanguage::Rust => "Rust"@,
                TargetLanguage::JavaScript => "JavaScript"@,
                TargetLanguage::Cpp => "C++"@,
            }),
    {
        match self {
            TargetLanguage::Python => "Python",
            TargetLanguage::Rust => "Rust",
            TargetLanguage::JavaScript => "JavaScript",
            TargetLanguage::Cpp => "C++",
        }
    }

    /// File extension of exported source, without the dot.
    pub fn file_extension(&self) -> (s: &'static str)
        ensures
            s@ == (match self {
                TargetLanguage::Python => "py"@,
                TargetLanguage::Rust => "rs"@,
                TargetLanguage::JavaScript => "js"@,
                TargetLanguage::Cpp => "cpp"@,
            }),
    {
        match self {
            TargetLanguage::Python => "py",
            TargetLanguage::Rust => "rs",
            TargetLanguage::JavaScript => "js",
            TargetLanguage::Cpp => "cpp",
        }
    }
}

/// The data type of a pin declared with a plugin pin type.
pub open spec fn spec_pin_data_type(t: PluginPinType) -> PinDataType {
    match t {
        PluginPinType::Number => PinDataType::Number,
        PluginPinType::Bool => PinDataType::Bool,
        PluginPinType::Any => PinDataType::Any,
        PluginPinType::Exec => PinDataType::Exec,
        PluginPinType::Semantic(id) => PinDataType::Semantic(id),
    }
}

/// Converts a plugin's pin type into the editor's pin data type.
pub fn plugin_pin_type_to_data_type(pin_type: PluginPinType) -> (t: PinDataType)
    ensures
        t == spec_pin_data_type(pin_type),
{
    match pin_type {
        PluginPinType::Number => PinDataType::Number,
        PluginPinType::Bool => PinDataType::Bool,
        PluginPinType::Any => PinDataType::Any,
        PluginPinType::Exec => PinDataType::Exec,
        PluginPinType::Semantic(id) => PinDataType::Semantic(id),
    }
}

/// The views of a sequence of string slices.
pub open spec fn str_views(v: Seq<&str>) -> Seq<Seq<char>> {
    v.map_values(|s: &str| s@)
}

/// Keywords highlighted in the code preview of each language.
pub open spec fn spec_keywords(lang: TargetLanguage) -> Seq<Seq<char>> {
    match lang {
        TargetLanguage::Python => seq![
            "def"@, "if"@, "else"@, "elif"@, "while"@, "for"@, "return"@, "print"@, "True"@,
            "False"@, "None"@, "and"@, "or"@, "not"@, "in"@, "break"@, "continue"@, "pass"@,
        ],
        TargetLanguage::Rust => seq![
            "fn"@, "let"@, "mut"@, "if"@, "else"@, "while"@, "loop"@, "return"@, "break"@,
            "true"@, "false"@, "struct"@, "enum"@, "match"@, "for"@, "in"@,
        ],
        TargetLanguage::JavaScript => seq![
            "function"@, "let"@, "const"@, "var"@, "if"@, "else"@, "while"@, "for"@, "return"@,
            "true"@, "false"@, "break"@, "continue"@, "console"@,
        ],
        TargetLanguage::Cpp => seq![
            "int"@, "double"@, "auto"@, "if"@, "else"@, "while"@, "for"@, "return"@, "true"@,
            "false"@, "std"@, "cout"@, "endl"@, "include"@,
        ],
    }
}

/// Keywords that the code preview highlights for `lang`.
pub fn code_language_keywords(lang: TargetLanguage) -> (k: Vec<&'static str>)
    ensures
        str_views(k@) == spec_keywords(lang),
{
    let k = match lang {
        TargetLanguage::Python => vec![
            "def", "if", "else", "elif", "while", "for", "return", "print", "True", "False",
            "None", "and", "or", "not", "in", "break", "continue", "pass",
        ],
        TargetLanguage::Rust => vec![
            "fn", "let", "mut", "if", "else", "while", "loop", "return", "break", "true", "false",
            "struct", "enum", "match", "for", "in",
        ],
        TargetLanguage::JavaScript => vec![
            "function", "let", "const", "var", "if", "else", "while", "for", "return", "true",
            "false", "break", "continue", "console",
        ],
        TargetLanguage::Cpp => vec![
            "int", "double", "auto", "if", "else", "while", "for", "return", "true", "false",
            "std", "cout", "endl", "include",
        ],
    };
    proof {
        assert(str_views(k@) =~= spec_keywords(lang));
    }
    k
}

/// Whether some connection ends at `pin`.
pub fn is_input_connected(connections: &[Connection], pin: PinRef) -> (b: bool)
    ensures
        b == exists|i: int| 0 <= i < connections@.len() && (#[trigger] connections@[i]).to == pin,
{
    let mut i: usize = 0;
    while i < connections.len()
        invariant
            i <= connections@.len(),
            forall|j: int| 0 <= j < i ==> (#[trigger] connections@[j]).to != pin,
        decreases connections@.len() - i,
    {
        if connections[i].to == pin {
            return true;
        }
        i = i + 1;
    }
    false
}

/// Whether some connection starts at `pin`.
pub fn is_output_connected(connections: &[Connection], pin: PinRef) -> (b: bool)
    ensures
        b == exists|i: int| 0 <= i < connections@.len() && (#[trigger] connections@[i]).from == pin,
{
    let mut i: usize = 0;
    while i < connections.len()
        invariant
            i <= connections@.len(),
            forall|j: int| 0 <= j < i ==> (#[trigger] connections@[j]).from != pin,
        decreases connections@.len() - i,
    {
        if connections[i].from == pin {
            return true;
        }
        i = i + 1;
    }
    false
}

} // verus!
