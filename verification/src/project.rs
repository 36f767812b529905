//! The project package layout: a manifest that points at the graph files,
//! a directory of graphs and a directory of assets.
use vstd::prelude::*;

use crate::text::{owned, push_str};
use crate::types::NodeId;

verus! {

/// File name of the manifest at the project root.
pub const MANIFEST_FILE: &'static str = "project.blocko";

/// Directory of graph files.
pub const NODES_DIR: &'static str = "nodes";

/// Directory of asset files.
pub const ASSETS_DIR: &'static str = "assets";

/// File name of the root graph.
pub const MAIN_GRAPH_FILE: &'static str = "main.graph.json";

/// Version of the manifest format that this library writes.
pub const FORMAT_VERSION: u32 = 1;

/// The manifest of a project package.
#[derive(Debug)]
pub struct ProjectManifest {
    pub format_version: u32,
    pub project_name: String,
    /// Path, relative to the project root, of the graph to open first.
    pub entry_graph: String,
    /// The id that the next node of the project gets.
    pub next_id: NodeId,
}

/// Why saving or loading a package failed.
#[derive(Debug)]
pub enum PackageError {
    Io(String),
    Serde(String),
}

/// Path, relative to the project root, of the root graph.
pub open spec fn entry_graph_path() -> Seq<char> {
    "nodes/main.graph.json"@
}

/// The message of a package error.
pub open spec fn package_message(e: PackageError) -> Seq<char> {
    match e {
        PackageError::Io(m) => "IO error: "@ + m@,
        PackageError::Serde(m) => "Serialization error: "@ + m@,
    }
}

impl PackageError {
    /// The message of this error.
    pub fn message(&self) -> (m: String)
        ensures
            m@ == package_message(*self),
    {
        match self {
            PackageError::Io(e) => {
                let mut m = owned("IO error: ");
                push_str(&mut m, e.as_str());
                m
            },
            PackageError::Serde(e) => {
                let mut m = owned("Serialization error: ");
                push_str(&mut m, e.as_str());
                m
            },
        }
    }
}

/// `dir/file`.
fn join_path(dir: &str, file: &str) -> (r: String)
    ensures
        r@ == dir@ + "/"@ + file@,
{
    let mut r = owned(dir);
    push_str(&mut r, "/");
    push_str(&mut r, file);
    r
}

/// The manifest written for a project: the current format, the project's
/// name, the root graph as entry, and the next node id.
pub fn manifest_for(project_name: &str, next_id: NodeId) -> (m: ProjectManifest)
    ensures
        m.format_version == FORMAT_VERSION,
        m.project_name@ == project_name@,
        m.entry_graph@ == entry_graph_path(),
        m.next_id == next_id,
{
    proof {
        reveal_strlit("nodes");
        reveal_strlit("main.graph.json");
        reveal_strlit("nodes/main.graph.json");
        reveal_strlit("/");
    }
    let entry = join_path(NODES_DIR, MAIN_GRAPH_FILE);
    proof {
        assert(entry@ =~= entry_graph_path());
    }
    ProjectManifest {
        format_version: FORMAT_VERSION,
        project_name: owned(project_name),
        entry_graph: entry,
        next_id,
    }
}

/// The path, relative to the project root, under which an imported asset
/// named `file_name` is referenced.
pub fn asset_reference(file_name: &str) -> (r: String)
    ensures
        r@ == "assets/"@ + file_name@,
{
    proof {
        reveal_strlit("assets");
        reveal_strlit("/");
        reveal_strlit("assets/");
    }
    let r = join_path(ASSETS_DIR, file_name);
    proof {
        assert(r@ =~= "assets/"@ + file_name@);
    }
    r
}

} // verus!
