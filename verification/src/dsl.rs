//! The visualization DSL: a tree of scoped nodes plus optional edges.
use vstd::prelude::*;
use crate::graph::TestCoverage;

verus! {

#[derive(Clone, Copy, PartialEq, Eq, Structural, Debug)]
pub enum Level {
    Project,
    File,
    Function,
}

#[derive(Clone, Copy, PartialEq, Eq, Structural, Debug)]
pub enum NodeKind {
    Action,
    Decision,
    Call,
    Input,
    Output,
    State,
    Storage,
    External,
    Loop,
    Error,
    Async,
    Group,
}

#[derive(Clone, Copy, PartialEq, Eq, Structural, Debug, Hash)]
pub enum Layer {
    Flow,
    Calls,
    Data,
    State,
    Effects,
}

#[derive(Clone, Copy, PartialEq, Eq, Structural, Debug)]
pub enum EdgeStatus {
    Verified,
    Inferred,
}

/// A node's position in the code: a file and an inclusive line range.
pub struct SourceRef {
    pub file: String,
    pub start_line: u32,
    pub end_line: u32,
}

impl Clone for SourceRef {
    fn clone(&self) -> (r: Self)
        ensures
            r == *self,
    {
        SourceRef { file: self.file.clone(), start_line: self.start_line, end_line: self.end_line }
    }
}

/// An outgoing branch of a decision node.
pub struct Branch {
    pub condition: String,
    pub target: String,
}

/// A clickable reference to a symbol in another place of the project.
pub struct CrossRef {
    pub id: String,
    pub file: String,
    pub label: String,
}

/// One node of the visualization tree.
///
/// `confidence` holds the decimal text of the score the labeler gave, if any.
pub struct VizNode {
    pub id: String,
    pub kind: NodeKind,
    pub label: String,
    pub layer: Layer,
    pub source: Option<SourceRef>,
    pub element_type: Option<String>,
    pub symbol: Option<String>,
    pub summary: Option<String>,
    pub coverage_ids: Vec<String>,
    pub group_id: Option<String>,
    pub tests: Option<TestCoverage>,
    pub confidence: Option<String>,
    pub children: Vec<VizNode>,
    pub branches: Vec<Branch>,
    pub data_in: Vec<String>,
    pub data_out: Vec<String>,
    pub effects: Vec<String>,
    pub cross_refs: Vec<CrossRef>,
}

/// A directed edge between two nodes.
pub struct VizEdge {
    pub from: String,
    pub to: String,
    pub label: Option<String>,
    pub status: Option<EdgeStatus>,
}

/// A whole diagram.
pub struct Visualization {
    pub title: String,
    pub level: Level,
    pub nodes: Vec<VizNode>,
    pub edges: Vec<VizEdge>,
}

} // verus!
