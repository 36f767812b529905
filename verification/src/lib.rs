//! Verified core of a visual programming environment: node graphs, their
//! compilation to an intermediate representation, and source emission for
//! several target languages.
pub mod text;
pub mod types;
pub mod plugin;
pub mod node;
pub mod ir;
pub mod emit_python;
pub mod emit_braced;
pub mod emit_laws;
pub mod graph;
pub mod compile;
pub mod builder;
pub mod laws;
pub mod scope_laws;
pub mod op_laws;
pub mod name_laws;
pub mod workspace;
pub mod grouping;
pub mod ai_import;
pub mod project;
pub mod highlight;
pub mod theme;
pub mod search;
pub mod layout;
pub mod layer_laws;
pub mod debugger;
pub mod runner;
pub mod playback;
