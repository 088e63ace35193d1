//! A syntax tree held as plain values.
//!
//! The nodes stand in an arena in the order in which a depth-first walk
//! meets them; each node but the first names its parent, which stands
//! before it.

use vstd::prelude::*;

verus! {

/// What the flattening reads of one node of a parsed tree.
#[derive(Clone, Debug, PartialEq, Eq)]
pub struct SyntaxNode {
    /// The grammar's name for the node's kind.
    pub kind: String,
    pub start_byte: usize,
    pub end_byte: usize,
    /// Zero-based row of the first byte.
    pub start_row: usize,
    /// Zero-based row of the end of the span.
    pub end_row: usize,
    /// Byte span of the node's `name` child, where it has one.
    pub name_span: Option<(usize, usize)>,
}

/// Why a node cannot be added to a tree.
#[derive(Clone, Copy, Debug, PartialEq, Eq, Structural)]
pub enum TreeError {
    /// A span ends before it starts.
    MalformedSpan,
    /// The parent index names no earlier node.
    UnknownParent,
    /// The tree is nested deeper than the walk allows.
    TooDeep,
}

impl SyntaxNode {
    /// Spans run forwards: bytes, rows and the name's bytes.
    pub open spec fn spans_ordered(&self) -> bool {
        &&& self.start_byte <= self.end_byte
        &&& self.start_row <= self.end_row
        &&& match self.name_span {
            Some((s, e)) => s <= e,
            None => true,
        }
    }

    /// Whether the spans of this node run forwards.
    pub fn has_ordered_spans(&self) -> (r: bool)
        ensures
            r == self.spans_ordered(),
    {
        let name_ok = match self.name_span {
            Some((s, e)) => s <= e,
            None => true,
        };
        self.start_byte <= self.end_byte && self.start_row <= self.end_row && name_ok
    }
}

/// A tree of syntax nodes in depth-first order.
#[derive(Clone, Debug)]
pub struct SyntaxTree {
    pub nodes: Vec<SyntaxNode>,
    /// `parents[i]` is the index of the parent of node `i`; the root has none.
    pub parents: Vec<Option<usize>>,
}

impl SyntaxTree {
    /// One root at index 0, every other node below an earlier one, and
    /// every span ordered.
    pub open spec fn wf(&self) -> bool {
        &&& self.nodes@.len() == self.parents@.len()
        &&& self.nodes@.len() >= 1
        &&& self.parents@[0] is None
        &&& forall|i: int|
            0 < i < self.parents@.len() ==> ((#[trigger] self.parents@[i]) is Some
                && self.parents@[i]->Some_0 < i)
        &&& forall|i: int| 0 <= i < self.nodes@.len() ==> (#[trigger] self.nodes@[i]).spans_ordered()
    }

    /// The parent of node `i`, for `0 < i`.
    pub open spec fn parent_of(&self, i: int) -> int {
        self.parents@[i]->Some_0 as int
    }

    /// A tree of the root alone.
    pub fn with_root(root: SyntaxNode) -> (r: Result<SyntaxTree, TreeError>)
        ensures
            r is Ok <==> root.spans_ordered(),
            r matches Ok(t) ==> t.wf() && t.nodes@ == seq![root] && t.parents@ == seq![
                None::<usize>,
            ],
            r matches Err(e) ==> e == TreeError::MalformedSpan,
    {
        if !root.has_ordered_spans() {
            return Err(TreeError::MalformedSpan);
        }
        let mut nodes: Vec<SyntaxNode> = Vec::new();
        nodes.push(root);
        let mut parents: Vec<Option<usize>> = Vec::new();
        parents.push(None);
        let t = SyntaxTree { nodes, parents };
        assert(t.nodes@ =~= seq![root]);
        assert(t.parents@ =~= seq![None::<usize>]);
        Ok(t)
    }

    /// Appends `node` as the last child of node `parent`, and returns its index.
    pub fn add_child(&mut self, parent: usize, node: SyntaxNode) -> (r: Result<usize, TreeError>)
        requires
            old(self).wf(),
        ensures
            final(self).wf(),
            r is Ok <==> (parent < old(self).nodes@.len() && node.spans_ordered()),
            r matches Ok(i) ==> i == old(self).nodes@.len() && final(self).nodes@
                == old(self).nodes@.push(node) && final(self).parents@ == old(
                self,
            ).parents@.push(Some(parent)),
            r matches Err(e) ==> *final(self) == *old(self) && (e == if parent
                < old(self).nodes@.len() {
                TreeError::MalformedSpan
            } else {
                TreeError::UnknownParent
            }),
    {
        if parent >= self.nodes.len() {
            return Err(TreeError::UnknownParent);
        }
        if !node.has_ordered_spans() {
            return Err(TreeError::MalformedSpan);
        }
        let i = self.nodes.len();
        self.nodes.push(node);
        self.parents.push(Some(parent));
        proof {
            assert forall|k: int| 0 < k < self.parents@.len() implies ((#[trigger] self.parents@[k])
                is Some && self.parents@[k]->Some_0 < k) by {
                if k < i {
                    assert(self.parents@[k] == old(self).parents@[k]);
                }
            }
            assert forall|k: int| 0 <= k < self.nodes@.len() implies (
            #[trigger] self.nodes@[k]).spans_ordered() by {
                if k < i {
                    assert(self.nodes@[k] == old(self).nodes@[k]);
                }
            }
        }
        Ok(i)
    }

    /// Number of nodes.
    pub fn len(&self) -> (r: usize)
        ensures
            r == self.nodes@.len(),
    {
        self.nodes.len()
    }
}

} // verus!
