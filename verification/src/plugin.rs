//! Plugin nodes: their definitions, the registry that holds them, and the
//! code a plugin contributes to generated source.
use std::collections::HashMap;
use vstd::prelude::*;

use crate::text::{owned, push_str, strs};
use crate::types::{
    str_views, NodeTypeId, PluginId, PluginPinType, SemanticTypeId, TargetLanguage,
};

verus! {

broadcast use vstd::std_specs::hash::group_hash_axioms;

/// Free-form configuration values of one plugin node.
#[derive(Debug)]
pub struct PluginConfig {
    pub values: Vec<String>,
}

/// A node that a plugin implements: which plugin, which of its node types,
/// and the node's configuration.
#[derive(Debug)]
pub struct PluginInstance {
    pub plugin_id: PluginId,
    pub node_type: NodeTypeId,
    pub config: PluginConfig,
}

/// A pin type that a plugin declares, with its display colour.
#[derive(Clone, Copy, Debug)]
pub struct SemanticType {
    pub id: SemanticTypeId,
    pub name: &'static str,
    pub color: (u8, u8, u8),
}

/// The pins and fields of a plugin's node.
#[derive(Debug)]
pub struct PluginDefinition {
    pub title: &'static str,
    pub data_inputs: Vec<(&'static str, PluginPinType)>,
    pub data_outputs: Vec<(&'static str, PluginPinType)>,
    pub exec_inputs: Vec<&'static str>,
    pub exec_outputs: Vec<&'static str>,
    pub fields: Vec<(&'static str, &'static str)>,
}

/// A plugin definition with its strings taken as character sequences.
pub struct PluginDefinitionView {
    pub title: Seq<char>,
    pub data_inputs: Seq<(Seq<char>, PluginPinType)>,
    pub data_outputs: Seq<(Seq<char>, PluginPinType)>,
    pub exec_inputs: Seq<Seq<char>>,
    pub exec_outputs: Seq<Seq<char>>,
    pub fields: Seq<(Seq<char>, Seq<char>)>,
}

/// Labelled pins as character sequences.
pub open spec fn pin_views(v: Seq<(&str, PluginPinType)>) -> Seq<(Seq<char>, PluginPinType)> {
    v.map_values(|p: (&str, PluginPinType)| (p.0@, p.1))
}

/// Field name/default pairs as character sequences.
pub open spec fn field_views(v: Seq<(&str, &str)>) -> Seq<(Seq<char>, Seq<char>)> {
    v.map_values(|p: (&str, &str)| (p.0@, p.1@))
}

impl View for PluginDefinition {
    type V = PluginDefinitionView;

    open spec fn view(&self) -> PluginDefinitionView {
        PluginDefinitionView {
            title: self.title@,
            data_inputs: pin_views(self.data_inputs@),
            data_outputs: pin_views(self.data_outputs@),
            exec_inputs: str_views(self.exec_inputs@),
            exec_outputs: str_views(self.exec_outputs@),
            fields: field_views(self.fields@),
        }
    }
}

fn copy_pins(v: &Vec<(&'static str, PluginPinType)>) -> (r: Vec<(&'static str, PluginPinType)>)
    ensures
        r@ == v@,
{
    let mut r = Vec::new();
    let mut i: usize = 0;
    while i < v.len()
        invariant
            i <= v@.len(),
            r@ == v@.take(i as int),
        decreases v@.len() - i,
    {
        r.push(v[i]);
        proof {
            assert(r@ =~= v@.take(i + 1));
        }
        i = i + 1;
    }
    proof {
        assert(v@.take(v@.len() as int) =~= v@);
    }
    r
}

fn copy_strs(v: &Vec<&'static str>) -> (r: Vec<&'static str>)
    ensures
        r@ == v@,
{
    let mut r = Vec::new();
    let mut i: usize = 0;
    while i < v.len()
        invariant
            i <= v@.len(),
            r@ == v@.take(i as int),
        decreases v@.len() - i,
    {
        r.push(v[i]);
        proof {
            assert(r@ =~= v@.take(i + 1));
        }
        i = i + 1;
    }
    proof {
        assert(v@.take(v@.len() as int) =~= v@);
    }
    r
}

fn copy_fields(v: &Vec<(&'static str, &'static str)>) -> (r: Vec<(&'static str, &'static str)>)
    ensures
        r@ == v@,
{
    let mut r = Vec::new();
    let mut i: usize = 0;
    while i < v.len()
        invariant
            i <= v@.len(),
            r@ == v@.take(i as int),
        decreases v@.len() - i,
    {
        r.push(v[i]);
        proof {
            assert(r@ =~= v@.take(i + 1));
        }
        i = i + 1;
    }
    proof {
        assert(v@.take(v@.len() as int) =~= v@);
    }
    r
}

impl PluginDefinition {
    /// A copy of the definition.
    pub fn duplicate(&self) -> (r: PluginDefinition)
        ensures
            r@ == self@,
            r.data_inputs@ == self.data_inputs@,
            r.data_outputs@ == self.data_outputs@,
            r.exec_inputs@ == self.exec_inputs@,
            r.exec_outputs@ == self.exec_outputs@,
            r.fields@ == self.fields@,
            r.title == self.title,
    {
        PluginDefinition {
            title: self.title,
            data_inputs: copy_pins(&self.data_inputs),
            data_outputs: copy_pins(&self.data_outputs),
            exec_inputs: copy_strs(&self.exec_inputs),
            exec_outputs: copy_strs(&self.exec_outputs),
            fields: copy_fields(&self.fields),
        }
    }
}

/// Context handed to a plugin when it contributes generated code.
pub struct CodeGenCtx<'a> {
    pub lang: TargetLanguage,
    pub indent: &'a str,
    pub input_vars: &'a [String],
    pub output_vars: &'a [String],
}

/// Source lines a plugin contributes: import lines and body lines.
pub struct PluginCodeResult {
    pub imports: Vec<String>,
    pub lines: Vec<String>,
}

/// A registered plugin.
#[derive(Debug)]
pub struct PluginHandle {
    pub def: PluginDefinition,
}

/// The single body line that a plugin stub contributes.
pub open spec fn stub_line(title: Seq<char>) -> Seq<char> {
    "// "@ + title + " plugin stub"@
}

impl PluginHandle {
    /// The code of one plugin node: no imports, and one comment line that
    /// names the plugin.
    pub fn codegen(
        &self,
        ctx: &CodeGenCtx,
        node_type: NodeTypeId,
        config: &PluginConfig,
    ) -> (r: Option<PluginCodeResult>)
        ensures
            r matches Some(res) && strs(res.imports@) == Seq::<Seq<char>>::empty() && strs(
                res.lines@,
            ) == seq![stub_line(self.def.title@)],
    {
        let mut line = owned("// ");
        push_str(&mut line, self.def.title);
        push_str(&mut line, " plugin stub");
        let mut lines = Vec::new();
        lines.push(line);
        let res = PluginCodeResult { imports: Vec::new(), lines };
        proof {
            assert(strs(res.imports@) =~= Seq::<Seq<char>>::empty());
            assert(strs(res.lines@) =~= seq![stub_line(self.def.title@)]);
        }
        Some(res)
    }
}

/// All registered plugins and semantic types.
pub struct PluginRegistry {
    pub plugins: HashMap<PluginId, PluginHandle>,
    pub semantic_types: HashMap<SemanticTypeId, SemanticType>,
}

/// The definition of the built-in plugin, registered under id 0.
pub open spec fn builtin_plugin_view() -> PluginDefinitionView {
    PluginDefinitionView {
        title: "Plugin"@,
        data_inputs: seq![("Value"@, PluginPinType::Any)],
        data_outputs: seq![("Value"@, PluginPinType::Any)],
        exec_inputs: seq!["In"@],
        exec_outputs: seq!["Out"@],
        fields: Seq::empty(),
    }
}

/// Whether the registry holds exactly the built-in plugin (id 0) and the
/// built-in semantic type "Any" (id 0, grey).
pub open spec fn is_builtin_registry(r: PluginRegistry) -> bool {
    &&& r.plugins@.dom() == set![0u64]
    &&& r.plugins@[0].def@ == builtin_plugin_view()
    &&& r.semantic_types@.dom() == set![0u64]
    &&& r.semantic_types@[0].id == 0
    &&& r.semantic_types@[0].name@ == "Any"@
    &&& r.semantic_types@[0].color == (180u8, 180u8, 180u8)
}

impl PluginRegistry {
    /// The plugin registered under `plugin_id`.
    pub fn find(&self, plugin_id: PluginId) -> (r: Option<&PluginHandle>)
        ensures
            match r {
                Some(h) => self.plugins@.contains_key(plugin_id) && *h == self.plugins@[plugin_id],
                None => !self.plugins@.contains_key(plugin_id),
            },
    {
        self.plugins.get(&plugin_id)
    }

    /// The semantic type registered under `semantic_id`.
    pub fn semantic_type(&self, semantic_id: SemanticTypeId) -> (r: Option<SemanticType>)
        ensures
            match r {
                Some(t) => self.semantic_types@.contains_key(semantic_id) && t
                    == self.semantic_types@[semantic_id],
                None => !self.semantic_types@.contains_key(semantic_id),
            },
    {
        match self.semantic_types.get(&semantic_id) {
            Some(t) => Some(*t),
            None => None,
        }
    }
}

/// The plugin registry: the built-in plugin and semantic type.
pub fn plugin_registry() -> (r: PluginRegistry)
    ensures
        is_builtin_registry(r),
{
    let mut semantic_types: HashMap<SemanticTypeId, SemanticType> = HashMap::new();
    semantic_types.insert(0, SemanticType { id: 0, name: "Any", color: (180, 180, 180) });
    let mut plugins: HashMap<PluginId, PluginHandle> = HashMap::new();
    let def = PluginDefinition {
        title: "Plugin",
        data_inputs: vec![("Value", PluginPinType::Any)],
        data_outputs: vec![("Value", PluginPinType::Any)],
        exec_inputs: vec!["In"],
        exec_outputs: vec!["Out"],
        fields: vec![],
    };
    proof {
        assert(def@ =~= builtin_plugin_view()) by {
            assert(pin_views(def.data_inputs@) =~= seq![("Value"@, PluginPinType::Any)]);
            assert(pin_views(def.data_outputs@) =~= seq![("Value"@, PluginPinType::Any)]);
            assert(str_views(def.exec_inputs@) =~= seq!["In"@]);
            assert(str_views(def.exec_outputs@) =~= seq!["Out"@]);
            assert(field_views(def.fields@) =~= Seq::<(Seq<char>, Seq<char>)>::empty());
        }
    }
    plugins.insert(0, PluginHandle { def });
    let r = PluginRegistry { plugins, semantic_types };
    proof {
        assert(r.plugins@.dom() =~= set![0u64]);
        assert(r.semantic_types@.dom() =~= set![0u64]);
    }
    r
}

/// The definition of the plugin that an instance refers to, if that plugin
/// is registered.
pub open spec fn spec_plugin_def(plugin_id: PluginId) -> Option<PluginDefinitionView> {
    if plugin_id == 0 {
        Some(builtin_plugin_view())
    } else {
        None
    }
}

/// A copy of the definition of the plugin that `inst` refers to.
pub fn plugin_def_for(inst: &PluginInstance) -> (r: Option<PluginDefinition>)
    ensures
        match r {
            Some(d) => spec_plugin_def(inst.plugin_id) == Some(d@),
            None => spec_plugin_def(inst.plugin_id) is None,
        },
{
    let registry = plugin_registry();
    match registry.find(inst.plugin_id) {
        Some(plugin) => Some(plugin.def.duplicate()),
        None => None,
    }
}

} // verus!
