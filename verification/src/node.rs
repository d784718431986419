//! One path of a suite's coverage tree: a file with the hit counts of its
//! lines, or a directory with the paths below it.

use vstd::prelude::*;
use crate::path_order::{compare_paths, path_views, PathOrder};

verus! {

/// Whether a path of the coverage tree is a file or a directory.
#[derive(Clone, Copy, Debug, PartialEq, Eq, Structural)]
pub enum NodeType {
    File,
    Directory,
}

/// The node type that a record with the type name `name` describes: a
/// directory where the name is `directory`, a file otherwise.
pub open spec fn node_type_named(name: Seq<char>) -> NodeType {
    if name == "directory"@ {
        NodeType::Directory
    } else {
        NodeType::File
    }
}

impl NodeType {
    /// Reads the node type from the type name of a record.
    pub fn from_name(name: &str) -> (node_type: NodeType)
        ensures
            node_type == node_type_named(name@),
    {
        match compare_paths(name, "directory") {
            PathOrder::Same => NodeType::Directory,
            _ => NodeType::File,
        }
    }
}

/// What a suite reports for one path at one changeset.
///
/// `coverage` holds one hit count per line, -1 for a line that was not
/// instrumented. `children` holds the paths directly below a directory, in
/// the order in which the record lists them.
#[derive(Debug)]
pub struct CoverageNode {
    pub path: String,
    pub name: String,
    pub node_type: NodeType,
    pub lines_covered: i64,
    pub lines_missed: i64,
    pub lines_total: i64,
    pub coverage: Option<Vec<i64>>,
    pub children: Vec<String>,
}

/// The mathematical content of a [`CoverageNode`].
pub struct CoverageNodeView {
    pub path: Seq<char>,
    pub name: Seq<char>,
    pub node_type: NodeType,
    pub lines_covered: int,
    pub lines_missed: int,
    pub lines_total: int,
    pub coverage: Option<Seq<i64>>,
    pub children: Seq<Seq<char>>,
}

impl View for CoverageNode {
    type V = CoverageNodeView;

    open spec fn view(&self) -> CoverageNodeView {
        CoverageNodeView {
            path: self.path@,
            name: self.name@,
            node_type: self.node_type,
            lines_covered: self.lines_covered as int,
            lines_missed: self.lines_missed as int,
            lines_total: self.lines_total as int,
            coverage: match self.coverage {
                Some(hits) => Some(hits@),
                None => None,
            },
            children: path_views(self.children@),
        }
    }
}

/// The hit counts that a node offers for comparison: those of a file that
/// carries them. A directory offers none, whatever it carries.
pub open spec fn file_lines(node: CoverageNodeView) -> Option<Seq<i64>> {
    if node.node_type == NodeType::Directory {
        None
    } else {
        node.coverage
    }
}

impl CoverageNode {
    /// The hit counts that this node offers for comparison.
    pub fn file_lines(&self) -> (lines: Option<&Vec<i64>>)
        ensures
            match lines {
                Some(hits) => file_lines(self@) == Some(hits@),
                None => file_lines(self@) is None,
            },
    {
        match self.node_type {
            NodeType::Directory => None,
            NodeType::File => match &self.coverage {
                Some(hits) => Some(hits),
                None => None,
            },
        }
    }
}

} // verus!
