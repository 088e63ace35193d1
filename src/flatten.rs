//! Flattening of a syntax tree into node records and `hasChild` edges.

use vstd::prelude::*;
use vstd::utf8::{decode_utf8, encode_utf8, valid_utf8};

use crate::records::{has_child, has_child_kind, AstNode, NodeRelationship};
use crate::tree::{SyntaxNode, SyntaxTree};

verus! {

broadcast use vstd::utf8::encode_utf8_decode_utf8;

/// The text of `source[start..end]`, or the empty text where that range
/// is out of bounds or is not UTF-8.
pub open spec fn snippet_of(source: Seq<u8>, start: int, end: int) -> Seq<char> {
    if 0 <= start <= end <= source.len() && valid_utf8(source.subrange(start, end)) {
        decode_utf8(source.subrange(start, end))
    } else {
        Seq::empty()
    }
}

/// The text of a node's name child, or the empty text.
pub open spec fn name_of(source: Seq<u8>, span: Option<(usize, usize)>) -> Seq<char> {
    match span {
        Some((s, e)) => snippet_of(source, s as int, e as int),
        None => Seq::empty(),
    }
}

/// `rec` records `n`, whatever its identifier.
pub open spec fn records_node(
    rec: AstNode,
    n: SyntaxNode,
    source: Seq<u8>,
    file_path: Seq<char>,
    commit: Seq<char>,
) -> bool {
    &&& rec.node_type@ == n.kind@
    &&& rec.source_code_snippet@ == snippet_of(source, n.start_byte as int, n.end_byte as int)
    &&& rec.file_path@ == file_path
    &&& rec.git_commit_hash@ == commit
    &&& rec.name@ == name_of(source, n.name_span)
    &&& rec.start_byte == n.start_byte
    &&& rec.end_byte == n.end_byte
    &&& rec.start_line == n.start_row
    &&& rec.end_line == n.end_row
    &&& rec.annotations is None
}

/// `rel` is the edge into node `i` of `tree` from its parent, among `nodes`.
pub open spec fn links_parent(
    rel: NodeRelationship,
    tree: SyntaxTree,
    nodes: Seq<AstNode>,
    i: int,
) -> bool {
    &&& rel.source_node_id@ == nodes[tree.parent_of(i)].id@
    &&& rel.target_node_id@ == nodes[i].id@
    &&& rel.relationship_type@ == has_child_kind()
}

/// `nodes` and `rels` are the flattening of `tree`: one record per node,
/// in the tree's order, and one edge per node but the root, in that order.
pub open spec fn is_flattening(
    tree: SyntaxTree,
    source: Seq<u8>,
    file_path: Seq<char>,
    commit: Seq<char>,
    nodes: Seq<AstNode>,
    rels: Seq<NodeRelationship>,
) -> bool {
    &&& nodes.len() == tree.nodes@.len()
    &&& forall|i: int|
        0 <= i < nodes.len() ==> records_node(
            #[trigger] nodes[i],
            tree.nodes@[i],
            source,
            file_path,
            commit,
        )
    &&& rels.len() + 1 == nodes.len()
    &&& forall|j: int| 0 <= j < rels.len() ==> links_parent(#[trigger] rels[j], tree, nodes, j + 1)
}

/// `id` is the identifier of one of `nodes`.
pub open spec fn is_record_id(nodes: Seq<AstNode>, id: Seq<char>) -> bool {
    exists|a: int| 0 <= a < nodes.len() && (#[trigger] nodes[a]).id@ == id
}

/// Relies on std::str::from_utf8: it succeeds exactly on valid UTF-8, and
/// then the text is made of those same bytes.
#[verifier::external_body]
fn utf8_text(b: &[u8]) -> (r: Option<String>)
    ensures
        r is Some <==> valid_utf8(b@),
        r matches Some(s) ==> encode_utf8(s@) == b@,
{
    match std::str::from_utf8(b) {
        Ok(s) => Some(s.to_string()),
        Err(_) => None,
    }
}

/// The text of `source[start..end]`; empty where the range is out of
/// bounds or not UTF-8.
pub fn snippet(source: &[u8], start: usize, end: usize) -> (r: String)
    ensures
        r@ == snippet_of(source@, start as int, end as int),
{
    if start <= end && end <= source.len() {
        let part = vstd::slice::slice_subrange(source, start, end);
        match utf8_text(part) {
            Some(s) => s,
            None => String::new(),
        }
    } else {
        String::new()
    }
}

/// The record of one node, under identifier `id`.
fn node_record(
    n: &SyntaxNode,
    id: &String,
    source: &[u8],
    file_path: &str,
    commit: &str,
) -> (r: AstNode)
    ensures
        records_node(r, *n, source@, file_path@, commit@),
        r.id@ == id@,
{
    let name = match n.name_span {
        Some((s, e)) => snippet(source, s, e),
        None => String::new(),
    };
    AstNode {
        id: id.clone(),
        node_type: n.kind.clone(),
        source_code_snippet: snippet(source, n.start_byte, n.end_byte),
        file_path: file_path.to_owned(),
        git_commit_hash: commit.to_owned(),
        name,
        start_byte: n.start_byte,
        end_byte: n.end_byte,
        start_line: n.start_row,
        end_line: n.end_row,
        annotations: None,
    }
}

/// Flattens `tree`, giving node `i` the identifier `ids[i]`.
pub fn flatten_with_ids(
    tree: &SyntaxTree,
    source: &[u8],
    file_path: &str,
    commit: &str,
    ids: &Vec<String>,
) -> (r: (Vec<AstNode>, Vec<NodeRelationship>))
    requires
        tree.wf(),
        ids@.len() == tree.nodes@.len(),
    ensures
        is_flattening(*tree, source@, file_path@, commit@, r.0@, r.1@),
        forall|i: int| 0 <= i < r.0@.len() ==> (#[trigger] r.0@[i]).id@ == ids@[i]@,
{
    let mut nodes: Vec<AstNode> = Vec::new();
    let mut rels: Vec<NodeRelationship> = Vec::new();
    let n = tree.nodes.len();
    let mut i: usize = 0;
    while i < n
        invariant
            tree.wf(),
            n == tree.nodes@.len(),
            ids@.len() == n,
            i <= n,
            nodes@.len() == i,
            rels@.len() + 1 == i || (i == 0 && rels@.len() == 0),
            forall|k: int|
                0 <= k < i ==> records_node(
                    #[trigger] nodes@[k],
                    tree.nodes@[k],
                    source@,
                    file_path@,
                    commit@,
                ),
            forall|k: int| 0 <= k < i ==> (#[trigger] nodes@[k]).id@ == ids@[k]@,
            forall|j: int|
                0 <= j < rels@.len() ==> links_parent(#[trigger] rels@[j], *tree, nodes@, j + 1),
        decreases n - i,
    {
        let rec = node_record(&tree.nodes[i], &ids[i], source, file_path, commit);
        let ghost before = nodes@;
        if let Some(p) = tree.parents[i] {
            assert(i > 0);
            let rel = has_child(&ids[p], &ids[i]);
            rels.push(rel);
        }
        nodes.push(rec);
        proof {
            assert forall|j: int| 0 <= j < rels@.len() implies links_parent(
                #[trigger] rels@[j],
                *tree,
                nodes@,
                j + 1,
            ) by {
                if j + 1 < i {
                    assert(nodes@[j + 1] == before[j + 1]);
                }
            }
        }
        i = i + 1;
    }
    (nodes, rels)
}

/// Relies on uuid::Uuid::new_v4, a random version-4 identifier, taken as
/// its 128 bits.
#[verifier::external_body]
fn random_uuid_bits() -> u128 {
    uuid::Uuid::new_v4().as_u128()
}

/// The hyphenated text of the identifier with the given bits.
pub uninterp spec fn uuid_text(bits: u128) -> Seq<char>;

/// Relies on uuid::Uuid::from_u128 and its hyphenated text: 32 hex digits
/// in five groups, 36 characters, from which the bits can be read back.
#[verifier::external_body]
fn uuid_string(bits: u128) -> (r: String)
    ensures
        r@ == uuid_text(bits),
        r@.len() == 36,
        forall|other: u128| #[trigger] uuid_text(other) == r@ ==> other == bits,
{
    uuid::Uuid::from_u128(bits).to_string()
}

proof fn lemma_xor_injective(base: u128, x: u128, y: u128)
    requires
        x != y,
    ensures
        base ^ x != base ^ y,
{
    assert(base ^ x != base ^ y) by (bit_vector)
        requires
            x != y,
    ;
}

/// The identifiers of `nodes` are pairwise distinct.
pub open spec fn ids_distinct(nodes: Seq<AstNode>) -> bool {
    forall|i: int, j: int|
        0 <= i < nodes.len() && 0 <= j < nodes.len() && i != j ==> (#[trigger] nodes[i]).id@
            != (#[trigger] nodes[j]).id@
}

/// Flattens `tree`: one record per node and one `hasChild` edge into every
/// node but the root. One random identifier is drawn for the file, and
/// node `i` is named by that identifier with `i` mixed into its low bits,
/// so that no two nodes of the file share an identifier.
pub fn flatten(tree: &SyntaxTree, source: &[u8], file_path: &str, commit: &str) -> (r: (
    Vec<AstNode>,
    Vec<NodeRelationship>,
))
    requires
        tree.wf(),
    ensures
        is_flattening(*tree, source@, file_path@, commit@, r.0@, r.1@),
        ids_distinct(r.0@),
        forall|i: int| 0 <= i < r.0@.len() ==> (#[trigger] r.0@[i]).id@.len() == 36,
{
    let base = random_uuid_bits();
    let mut ids: Vec<String> = Vec::new();
    let n = tree.len();
    let mut i: usize = 0;
    while i < n
        invariant
            i <= n,
            ids@.len() == i,
            forall|k: int| 0 <= k < i ==> (#[trigger] ids@[k])@ == uuid_text(base ^ (k as u128)),
            forall|k: int| 0 <= k < i ==> (#[trigger] ids@[k])@.len() == 36,
            forall|k: int, other: u128|
                0 <= k < i && #[trigger] uuid_text(other) == (#[trigger] ids@[k])@ ==> other == base
                    ^ (k as u128),
        decreases n - i,
    {
        ids.push(uuid_string(base ^ (i as u128)));
        i = i + 1;
    }
    let r = flatten_with_ids(tree, source, file_path, commit, &ids);
    proof {
        assert forall|a: int, b: int|
            0 <= a < r.0@.len() && 0 <= b < r.0@.len() && a != b implies (#[trigger] r.0@[a]).id@
            != (#[trigger] r.0@[b]).id@ by {
            assert(r.0@[a].id@ == ids@[a]@);
            assert(r.0@[b].id@ == ids@[b]@);
            assert(a < n && b < n);
            assert(a as u128 != b as u128);
            lemma_xor_injective(base, a as u128, b as u128);
            if ids@[a]@ == ids@[b]@ {
                assert(uuid_text(base ^ (b as u128)) == ids@[a]@);
            }
        }
    }
    r
}

/// Every node but the root receives exactly one edge, so a flattened tree
/// has one edge fewer than it has nodes; both ends of every edge are
/// identifiers of records of the same flattening.
pub proof fn lemma_edges_link_records(
    tree: SyntaxTree,
    source: Seq<u8>,
    file_path: Seq<char>,
    commit: Seq<char>,
    nodes: Seq<AstNode>,
    rels: Seq<NodeRelationship>,
)
    requires
        tree.wf(),
        is_flattening(tree, source, file_path, commit, nodes, rels),
    ensures
        rels.len() == nodes.len() - 1,
        forall|j: int|
            0 <= j < rels.len() ==> is_record_id(nodes, (#[trigger] rels[j]).source_node_id@)
                && is_record_id(nodes, rels[j].target_node_id@),
{
    assert forall|j: int| 0 <= j < rels.len() implies is_record_id(
        nodes,
        (#[trigger] rels[j]).source_node_id@,
    ) && is_record_id(nodes, rels[j].target_node_id@) by {
        assert(links_parent(rels[j], tree, nodes, j + 1));
        assert(tree.parents@[j + 1] is Some);
        let a = tree.parent_of(j + 1);
        assert(0 <= a < j + 1);
        assert(nodes[a].id@ == rels[j].source_node_id@);
        assert(nodes[j + 1].id@ == rels[j].target_node_id@);
    }
}

/// Every record of a flattened tree spans forwards, in bytes and in lines.
pub proof fn lemma_record_spans_ordered(
    tree: SyntaxTree,
    source: Seq<u8>,
    file_path: Seq<char>,
    commit: Seq<char>,
    nodes: Seq<AstNode>,
    rels: Seq<NodeRelationship>,
)
    requires
        tree.wf(),
        is_flattening(tree, source, file_path, commit, nodes, rels),
    ensures
        forall|i: int|
            0 <= i < nodes.len() ==> (#[trigger] nodes[i]).start_byte <= nodes[i].end_byte
                && nodes[i].start_line <= nodes[i].end_line,
{
    assert forall|i: int| 0 <= i < nodes.len() implies (#[trigger] nodes[i]).start_byte
        <= nodes[i].end_byte && nodes[i].start_line <= nodes[i].end_line by {
        assert(records_node(nodes[i], tree.nodes@[i], source, file_path, commit));
        assert(tree.nodes@[i].spans_ordered());
    }
}

/// Two flattenings of the same tree over the same source agree on every
/// record's kind, snippet and byte span; only the identifiers may differ.
pub proof fn lemma_flattening_repeatable(
    tree: SyntaxTree,
    source: Seq<u8>,
    file_path: Seq<char>,
    commit: Seq<char>,
    nodes1: Seq<AstNode>,
    rels1: Seq<NodeRelationship>,
    nodes2: Seq<AstNode>,
    rels2: Seq<NodeRelationship>,
)
    requires
        tree.wf(),
        is_flattening(tree, source, file_path, commit, nodes1, rels1),
        is_flattening(tree, source, file_path, commit, nodes2, rels2),
    ensures
        nodes1.len() == nodes2.len(),
        forall|i: int|
            0 <= i < nodes1.len() ==> (#[trigger] nodes1[i]).node_type@ == nodes2[i].node_type@
                && nodes1[i].source_code_snippet@ == nodes2[i].source_code_snippet@
                && nodes1[i].start_byte == nodes2[i].start_byte && nodes1[i].end_byte
                == nodes2[i].end_byte,
{
    assert forall|i: int| 0 <= i < nodes1.len() implies (#[trigger] nodes1[i]).node_type@
        == nodes2[i].node_type@ && nodes1[i].source_code_snippet@
        == nodes2[i].source_code_snippet@ && nodes1[i].start_byte == nodes2[i].start_byte
        && nodes1[i].end_byte == nodes2[i].end_byte by {
        assert(records_node(nodes1[i], tree.nodes@[i], source, file_path, commit));
        assert(records_node(nodes2[i], tree.nodes@[i], source, file_path, commit));
    }
}

/// Where the identifiers are distinct, the edges form a tree over the
/// records: no edge links a record to itself, the root record is the
/// target of no edge, and every other record is the target of exactly
/// one edge, the one at its own index less one.
pub proof fn lemma_edges_form_tree(
    tree: SyntaxTree,
    source: Seq<u8>,
    file_path: Seq<char>,
    commit: Seq<char>,
    nodes: Seq<AstNode>,
    rels: Seq<NodeRelationship>,
)
    requires
        tree.wf(),
        is_flattening(tree, source, file_path, commit, nodes, rels),
        ids_distinct(nodes),
    ensures
        forall|j: int|
            0 <= j < rels.len() ==> (#[trigger] rels[j]).source_node_id@
                != rels[j].target_node_id@,
        forall|j: int, k: int|
            0 <= j < rels.len() && 0 <= k < nodes.len() && (#[trigger] rels[j]).target_node_id@
                == (#[trigger] nodes[k]).id@ ==> k == j + 1,
{
    assert forall|j: int| 0 <= j < rels.len() implies (#[trigger] rels[j]).source_node_id@
        != rels[j].target_node_id@ by {
        assert(links_parent(rels[j], tree, nodes, j + 1));
        assert(tree.parents@[j + 1] is Some);
        let a = tree.parent_of(j + 1);
        assert(nodes[a].id@ != nodes[j + 1].id@);
    }
    assert forall|j: int, k: int|
        0 <= j < rels.len() && 0 <= k < nodes.len() && (#[trigger] rels[j]).target_node_id@
            == (#[trigger] nodes[k]).id@ implies k == j + 1 by {
        assert(links_parent(rels[j], tree, nodes, j + 1));
        if k != j + 1 {
            assert(nodes[k].id@ != nodes[j + 1].id@);
        }
    }
}

} // verus!
