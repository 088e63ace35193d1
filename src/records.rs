//! The records that a flattened syntax tree is made of.

use vstd::prelude::*;

verus! {

/// One visited node of a syntax tree.
#[derive(Clone, Debug, PartialEq, Eq)]
pub struct AstNode {
    /// Identifier minted when the node was flattened.
    pub id: String,
    /// The grammar's name for the node's kind.
    pub node_type: String,
    /// The source text that the node spans; empty when it cannot be decoded.
    pub source_code_snippet: String,
    /// Path of the file, relative to the repository root.
    pub file_path: String,
    /// Commit of the repository that the run indexes.
    pub git_commit_hash: String,
    /// Text of the node's `name` child; empty when it has none.
    pub name: String,
    pub start_byte: usize,
    pub end_byte: usize,
    pub start_line: usize,
    pub end_line: usize,
    /// Reserved for a later enrichment stage; always absent here.
    pub annotations: Option<String>,
}

/// A directed edge between two node records.
#[derive(Clone, Debug, PartialEq, Eq)]
pub struct NodeRelationship {
    pub source_node_id: String,
    pub target_node_id: String,
    /// `hasChild` for the edges of a syntax tree.
    pub relationship_type: String,
}

/// The kind of edge from a node to one of its children.
pub open spec fn has_child_kind() -> Seq<char> {
    seq!['h', 'a', 's', 'C', 'h', 'i', 'l', 'd']
}

/// Builds the `hasChild` edge from `parent_id` to `child_id`.
pub fn has_child(parent_id: &String, child_id: &String) -> (r: NodeRelationship)
    ensures
        r.source_node_id@ == parent_id@,
        r.target_node_id@ == child_id@,
        r.relationship_type@ == has_child_kind(),
{
    let kind = "hasChild".to_owned();
    proof {
        reveal_strlit("hasChild");
        assert(kind@ =~= has_child_kind());
    }
    NodeRelationship {
        source_node_id: parent_id.clone(),
        target_node_id: child_id.clone(),
        relationship_type: kind,
    }
}

} // verus!
