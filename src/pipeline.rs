//! One file's contribution to a run, and the gathering of a run's files
//! into a single ingestion request.

use vstd::prelude::*;
use vstd::multiset::Multiset;
use vstd::utf8::encode_utf8;

use crate::flatten::{flatten, ids_distinct, is_flattening, is_record_id};
use crate::grammar::{get_language_from_path, lang_of_path};
use crate::records::{AstNode, NodeRelationship};
use crate::syntax::{parse_source, read_tree};
use crate::tree::SyntaxTree;

verus! {

/// The node records and edges that one file contributes.
pub type FileGraph = (Vec<AstNode>, Vec<NodeRelationship>);

/// Why a file contributes nothing.
#[derive(Clone, Copy, Debug, PartialEq, Eq, Structural)]
pub enum ParseFailure {
    /// No grammar is registered for the path's extension.
    Unsupported,
    /// The parser gave no tree.
    NoTree,
    /// The tree is nested deeper than `MAX_TREE_DEPTH`.
    TooDeep,
    /// A node spans bytes beyond the end of the source.
    OutOfSource,
}

/// Every span of `tree`, the name spans too, ends within `len` bytes.
pub open spec fn spans_within(tree: SyntaxTree, len: nat) -> bool {
    forall|i: int|
        0 <= i < tree.nodes@.len() ==> (#[trigger] tree.nodes@[i]).end_byte <= len && match tree.nodes@[i].name_span {
            Some((_, e)) => e <= len,
            None => true,
        }
}

/// Checks `spans_within`.
fn tree_within(tree: &SyntaxTree, len: usize) -> (r: bool)
    ensures
        r == spans_within(*tree, len as nat),
{
    let n = tree.nodes.len();
    let mut i: usize = 0;
    while i < n
        invariant
            n == tree.nodes@.len(),
            i <= n,
            forall|k: int|
                0 <= k < i ==> (#[trigger] tree.nodes@[k]).end_byte <= len && match tree.nodes@[k].name_span {
                    Some((_, e)) => e <= len,
                    None => true,
                },
        decreases n - i,
    {
        let node = &tree.nodes[i];
        if node.end_byte > len {
            return false;
        }
        match node.name_span {
            Some((_, e)) => {
                if e > len {
                    return false;
                }
            },
            None => {},
        }
        i = i + 1;
    }
    true
}

/// Flattens the tree of a file whose source is `code`: the flattening,
/// under identifiers distinct within the file, where every span lies
/// within the source, and `OutOfSource` where one does not.
pub fn file_graph(tree: &SyntaxTree, code: &str, file_path: &str, git_commit_hash: &str) -> (r:
    Result<FileGraph, ParseFailure>)
    requires
        tree.wf(),
    ensures
        r is Ok <==> spans_within(*tree, encode_utf8(code@).len()),
        r matches Err(e) ==> e == ParseFailure::OutOfSource,
        r matches Ok(g) ==> is_flattening(
            *tree,
            encode_utf8(code@),
            file_path@,
            git_commit_hash@,
            g.0@,
            g.1@,
        ) && ids_distinct(g.0@),
{
    let source = code.as_bytes();
    if !tree_within(tree, source.len()) {
        return Err(ParseFailure::OutOfSource);
    }
    Ok(flatten(tree, source, file_path, git_commit_hash))
}

/// Parses `code`, the content of `file_path`, with the grammar that the
/// path's extension selects, and flattens its tree.
///
/// `Unsupported` comes exactly for a path with no registered extension.
/// Otherwise the result is what `file_graph` makes of the tree read from
/// the parse, and `TooDeep` where that tree is nested too deep to read;
/// `NoTree` where tree-sitter gives no tree.
pub fn parse_code_to_ast_nodes(code: &str, file_path: &str, git_commit_hash: &str) -> (r: Result<
    FileGraph,
    ParseFailure,
>)
    ensures
        (r == Err::<FileGraph, ParseFailure>(ParseFailure::Unsupported)) <==> lang_of_path(
            file_path@,
        ) is None,
        r matches Ok(g) ==> exists|t: SyntaxTree|
            t.wf() && spans_within(t, encode_utf8(code@).len()) && is_flattening(
                t,
                encode_utf8(code@),
                file_path@,
                git_commit_hash@,
                g.0@,
                g.1@,
            ),
        r matches Ok(g) ==> ids_distinct(g.0@),
{
    let lang = match get_language_from_path(file_path) {
        Some(l) => l,
        None => {
            return Err(ParseFailure::Unsupported);
        },
    };
    let parsed = match parse_source(code, lang) {
        Some(t) => t,
        None => {
            return Err(ParseFailure::NoTree);
        },
    };
    let tree = match read_tree(&parsed) {
        Ok(t) => t,
        Err(_) => {
            return Err(ParseFailure::TooDeep);
        },
    };
    file_graph(&tree, code, file_path, git_commit_hash)
}

/// The records that `f` takes from each file, one file after another.
pub open spec fn concat_all<T>(
    results: Seq<Option<FileGraph>>,
    f: spec_fn(FileGraph) -> Seq<T>,
) -> Seq<T>
    decreases results.len(),
{
    if results.len() == 0 {
        Seq::empty()
    } else {
        concat_all(results.drop_last(), f) + match results.last() {
            Some(g) => f(g),
            None => Seq::empty(),
        }
    }
}

pub open spec fn nodes_part(g: FileGraph) -> Seq<AstNode> {
    g.0@
}

pub open spec fn edges_part(g: FileGraph) -> Seq<NodeRelationship> {
    g.1@
}

/// All node records of a run's per-file results.
pub open spec fn run_nodes(results: Seq<Option<FileGraph>>) -> Seq<AstNode> {
    concat_all(results, |g: FileGraph| nodes_part(g))
}

/// All edges of a run's per-file results.
pub open spec fn run_edges(results: Seq<Option<FileGraph>>) -> Seq<NodeRelationship> {
    concat_all(results, |g: FileGraph| edges_part(g))
}

/// Number of files that contributed a result.
pub open spec fn run_files(results: Seq<Option<FileGraph>>) -> nat
    decreases results.len(),
{
    if results.len() == 0 {
        0
    } else {
        run_files(results.drop_last()) + if results.last() is Some {
            1nat
        } else {
            0nat
        }
    }
}

/// What a run has gathered from its files.
#[derive(Debug)]
pub struct RunGraph {
    pub nodes: Vec<AstNode>,
    pub relationships: Vec<NodeRelationship>,
    /// Number of files that contributed.
    pub files: usize,
}

/// The single request that submits a run's graph.
#[derive(Debug)]
pub struct IngestAstRequest {
    pub ast_nodes: Vec<AstNode>,
    pub relationships: Vec<NodeRelationship>,
}

impl RunGraph {
    /// A run that has gathered nothing.
    pub fn new() -> (r: RunGraph)
        ensures
            r.nodes@ == Seq::<AstNode>::empty(),
            r.relationships@ == Seq::<NodeRelationship>::empty(),
            r.files == 0,
    {
        RunGraph { nodes: Vec::new(), relationships: Vec::new(), files: 0 }
    }

    /// Appends one file's result; a file without one adds nothing.
    pub fn merge(&mut self, result: Option<FileGraph>)
        requires
            old(self).files < usize::MAX,
        ensures
            final(self).nodes@ == old(self).nodes@ + match result {
                Some(g) => g.0@,
                None => Seq::empty(),
            },
            final(self).relationships@ == old(self).relationships@ + match result {
                Some(g) => g.1@,
                None => Seq::empty(),
            },
            final(self).files == old(self).files + if result is Some {
                1int
            } else {
                0int
            },
    {
        match result {
            Some(g) => {
                let (mut n, mut e) = g;
                self.nodes.append(&mut n);
                self.relationships.append(&mut e);
                self.files = self.files + 1;
            },
            None => {
                assert(self.nodes@ =~= self.nodes@ + Seq::<AstNode>::empty());
                assert(self.relationships@ =~= self.relationships@ + Seq::<
                    NodeRelationship,
                >::empty());
            },
        }
    }

    /// The request that submits this run's graph; `None` where no node
    /// was gathered, so that nothing is sent.
    pub fn ingestion_request(self) -> (r: Option<IngestAstRequest>)
        ensures
            r is None <==> self.nodes@.len() == 0,
            r matches Some(q) ==> q.ast_nodes@ == self.nodes@ && q.relationships@
                == self.relationships@,
    {
        if self.nodes.len() == 0 {
            None
        } else {
            Some(IngestAstRequest { ast_nodes: self.nodes, relationships: self.relationships })
        }
    }
}

/// Gathers the per-file results of a run, in the order given, into one graph.
pub fn aggregate(results: Vec<Option<FileGraph>>) -> (r: RunGraph)
    ensures
        r.nodes@ == run_nodes(results@),
        r.relationships@ == run_edges(results@),
        r.files == run_files(results@),
{
    let ghost orig = results@;
    let n = results.len();
    let mut rest = results;
    let mut stack: Vec<Option<FileGraph>> = Vec::new();
    while rest.len() > 0
        invariant
            rest@.len() + stack@.len() == n,
            n == orig.len(),
            rest@ == orig.subrange(0, rest@.len() as int),
            forall|k: int| 0 <= k < stack@.len() ==> #[trigger] stack@[k] == orig[n - 1 - k],
        decreases rest@.len(),
    {
        let x = rest.pop().unwrap();
        stack.push(x);
    }
    let mut acc = RunGraph::new();
    proof {
        assert(orig.subrange(0, 0) =~= Seq::<Option<FileGraph>>::empty());
    }
    while stack.len() > 0
        invariant
            stack@.len() <= n,
            n == orig.len(),
            forall|k: int| 0 <= k < stack@.len() ==> #[trigger] stack@[k] == orig[n - 1 - k],
            acc.nodes@ == run_nodes(orig.subrange(0, n - stack@.len())),
            acc.relationships@ == run_edges(orig.subrange(0, n - stack@.len())),
            acc.files == run_files(orig.subrange(0, n - stack@.len())),
            acc.files <= n - stack@.len(),
        decreases stack@.len(),
    {
        let ghost done = n - stack@.len();
        let x = stack.pop().unwrap();
        assert(x == orig[done]);
        proof {
            let s = orig.subrange(0, done + 1);
            assert(s.drop_last() =~= orig.subrange(0, done));
            assert(s.last() == x);
        }
        acc.merge(x);
    }
    proof {
        assert(orig.subrange(0, n as int) =~= orig);
    }
    acc
}

proof fn lemma_concat_all_append<T>(
    s: Seq<Option<FileGraph>>,
    t: Seq<Option<FileGraph>>,
    f: spec_fn(FileGraph) -> Seq<T>,
)
    ensures
        concat_all(s + t, f) == concat_all(s, f) + concat_all(t, f),
        run_files(s + t) == run_files(s) + run_files(t),
    decreases t.len(),
{
    if t.len() == 0 {
        assert(s + t =~= s);
        assert(concat_all(s, f) + concat_all(t, f) =~= concat_all(s, f));
    } else {
        lemma_concat_all_append(s, t.drop_last(), f);
        assert((s + t).drop_last() =~= s + t.drop_last());
        assert((s + t).last() == t.last());
        assert(concat_all(s + t, f) =~= concat_all(s, f) + concat_all(t, f));
    }
}

proof fn lemma_concat_all_single<T>(x: Option<FileGraph>, f: spec_fn(FileGraph) -> Seq<T>)
    ensures
        concat_all(seq![x], f) == match x {
            Some(g) => f(g),
            None => Seq::empty(),
        },
        run_files(seq![x]) == if x is Some {
            1nat
        } else {
            0nat
        },
{
    let e = seq![x].drop_last();
    assert(e =~= Seq::<Option<FileGraph>>::empty());
    assert(concat_all(e, f) == Seq::<T>::empty());
    assert(run_files(e) == 0);
    assert(concat_all(seq![x], f) =~= match x {
        Some(g) => f(g),
        None => Seq::empty(),
    });
}

/// Splits `b` around its element at `k`.
proof fn lemma_concat_all_without<T>(
    b: Seq<Option<FileGraph>>,
    k: int,
    f: spec_fn(FileGraph) -> Seq<T>,
)
    requires
        0 <= k < b.len(),
    ensures
        concat_all(b, f).to_multiset() == concat_all(b.remove(k), f).to_multiset().add(
            concat_all(seq![b[k]], f).to_multiset(),
        ),
        run_files(b) == run_files(b.remove(k)) + run_files(seq![b[k]]),
{
    broadcast use vstd::seq_lib::lemma_multiset_commutative;
    broadcast use vstd::multiset::group_multiset_axioms;

    let pre = b.subrange(0, k);
    let mid = seq![b[k]];
    let post = b.subrange(k + 1, b.len() as int);
    assert(b =~= pre + mid + post);
    assert(b.remove(k) =~= pre + post);
    lemma_concat_all_append(pre + mid, post, f);
    lemma_concat_all_append(pre, mid, f);
    lemma_concat_all_append(pre, post, f);
    let cp = concat_all(pre, f);
    let cm = concat_all(mid, f);
    let cq = concat_all(post, f);
    assert((cp + cm + cq).to_multiset() =~= (cp + cq).to_multiset().add(cm.to_multiset()));
}

proof fn lemma_concat_all_permutation<T>(
    a: Seq<Option<FileGraph>>,
    b: Seq<Option<FileGraph>>,
    f: spec_fn(FileGraph) -> Seq<T>,
)
    requires
        a.to_multiset() == b.to_multiset(),
    ensures
        concat_all(a, f).to_multiset() == concat_all(b, f).to_multiset(),
        run_files(a) == run_files(b),
    decreases a.len(),
{
    broadcast use vstd::seq_lib::group_to_multiset_ensures;
    broadcast use vstd::multiset::group_multiset_axioms;

    if a.len() == 0 {
        assert(a.to_multiset().len() == 0);
        assert(b.to_multiset().len() == 0);
        assert(b =~= a);
    } else {
        let x = a.last();
        let a1 = a.drop_last();
        assert(a1.push(x) =~= a);
        assert(a.to_multiset().count(x) > 0);
        assert(b.contains(x));
        let k = choose|k: int| 0 <= k < b.len() && b[k] == x;
        let b1 = b.remove(k);
        assert(b1.to_multiset() =~= b.to_multiset().remove(x));
        assert(a1.to_multiset() =~= a.to_multiset().remove(x));
        lemma_concat_all_permutation(a1, b1, f);
        lemma_concat_all_without(b, k, f);
        lemma_concat_all_without(a, a.len() - 1, f);
        assert(a.remove(a.len() - 1) =~= a1);
    }
}

/// The order in which files finish does not matter: two runs whose
/// per-file results are the same up to order gather the same node records
/// and the same edges, up to order, from the same number of files.
pub proof fn lemma_run_order_independent(a: Seq<Option<FileGraph>>, b: Seq<Option<FileGraph>>)
    requires
        a.to_multiset() == b.to_multiset(),
    ensures
        run_nodes(a).to_multiset() == run_nodes(b).to_multiset(),
        run_edges(a).to_multiset() == run_edges(b).to_multiset(),
        run_files(a) == run_files(b),
{
    lemma_concat_all_permutation(a, b, |g: FileGraph| nodes_part(g));
    lemma_concat_all_permutation(a, b, |g: FileGraph| edges_part(g));
}

/// A run over `n` files of which `k` gave no result gathers results from
/// exactly `n - k` files, and its records are those of the files that did,
/// one file after another.
pub proof fn lemma_run_counts(results: Seq<Option<FileGraph>>)
    ensures
        run_files(results) == results.len() - results.to_multiset().count(None),
        results.len() > 0 ==> run_nodes(results) == run_nodes(results.drop_last()) + match results.last() {
            Some(g) => g.0@,
            None => Seq::empty(),
        },
        results.len() > 0 ==> run_edges(results) == run_edges(results.drop_last()) + match results.last() {
            Some(g) => g.1@,
            None => Seq::empty(),
        },
    decreases results.len(),
{
    broadcast use vstd::seq_lib::group_to_multiset_ensures;
    broadcast use vstd::multiset::group_multiset_axioms;

    if results.len() == 0 {
        assert(results.to_multiset() =~= Multiset::empty());
    } else {
        let r1 = results.drop_last();
        lemma_run_counts(r1);
        assert(r1.push(results.last()) =~= results);
    }
}

/// A file that gives no result, wherever it stands in a run, changes
/// nothing of what the run gathers from the other files.
pub proof fn lemma_skipped_file_adds_nothing(results: Seq<Option<FileGraph>>, i: int)
    requires
        0 <= i <= results.len(),
    ensures
        run_nodes(results.insert(i, None)) == run_nodes(results),
        run_edges(results.insert(i, None)) == run_edges(results),
        run_files(results.insert(i, None)) == run_files(results),
{
    let pre = results.subrange(0, i);
    let post = results.subrange(i, results.len() as int);
    let none = seq![None::<FileGraph>];
    assert(results.insert(i, None) =~= pre + none + post);
    assert(results =~= pre + post);
    let fnode = |g: FileGraph| nodes_part(g);
    let fedge = |g: FileGraph| edges_part(g);
    lemma_concat_all_single(None, fnode);
    lemma_concat_all_single(None, fedge);
    lemma_concat_all_append(pre + none, post, fnode);
    lemma_concat_all_append(pre, none, fnode);
    lemma_concat_all_append(pre, post, fnode);
    lemma_concat_all_append(pre + none, post, fedge);
    lemma_concat_all_append(pre, none, fedge);
    lemma_concat_all_append(pre, post, fedge);
    assert(concat_all(pre, fnode) + Seq::<AstNode>::empty() =~= concat_all(pre, fnode));
    assert(concat_all(pre, fedge) + Seq::<NodeRelationship>::empty() =~= concat_all(pre, fedge));
}

/// Each file's tree has one root, which receives no edge: where every
/// contributing file has one edge fewer than nodes, a run has as many
/// edges as nodes less one per contributing file.
pub proof fn lemma_run_edges_count(results: Seq<Option<FileGraph>>)
    requires
        forall|i: int|
            0 <= i < results.len() ==> ((#[trigger] results[i]) matches Some(g) ==> g.1@.len() + 1
                == g.0@.len()),
    ensures
        run_edges(results).len() + run_files(results) == run_nodes(results).len(),
    decreases results.len(),
{
    if results.len() > 0 {
        let r1 = results.drop_last();
        assert forall|i: int| 0 <= i < r1.len() implies ((#[trigger] r1[i]) matches Some(g) ==> g.1@.len()
            + 1 == g.0@.len()) by {
            assert(r1[i] == results[i]);
        }
        lemma_run_edges_count(r1);
        assert(results[results.len() - 1] == results.last());
    }
}

/// A run of one file that was flattened gathers exactly that file's
/// records, at least its root, so its ingestion request carries exactly
/// those records.
pub proof fn lemma_single_file_run(
    t: SyntaxTree,
    source: Seq<u8>,
    file_path: Seq<char>,
    commit: Seq<char>,
    g: FileGraph,
)
    requires
        t.wf(),
        is_flattening(t, source, file_path, commit, g.0@, g.1@),
    ensures
        run_nodes(seq![Some(g)]) == g.0@,
        run_edges(seq![Some(g)]) == g.1@,
        run_files(seq![Some(g)]) == 1,
        run_nodes(seq![Some(g)]).len() > 0,
{
    lemma_concat_all_single(Some(g), |h: FileGraph| nodes_part(h));
    lemma_concat_all_single(Some(g), |h: FileGraph| edges_part(h));
}

/// Both ends of every edge of `g` are identifiers of records of `g`.
pub open spec fn edges_within(g: FileGraph) -> bool {
    forall|j: int|
        0 <= j < g.1@.len() ==> is_record_id(g.0@, (#[trigger] g.1@[j]).source_node_id@)
            && is_record_id(g.0@, g.1@[j].target_node_id@)
}

/// `e` links two records of one file of `results`.
pub open spec fn edge_in_one_file(results: Seq<Option<FileGraph>>, e: NodeRelationship) -> bool {
    exists|f: int|
        0 <= f < results.len() && (#[trigger] results[f]) is Some && is_record_id(
            results[f]->Some_0.0@,
            e.source_node_id@,
        ) && is_record_id(results[f]->Some_0.0@, e.target_node_id@)
}

/// Where every file's edges link records of that file, every edge that a
/// run gathers links two records of one and the same file of the run.
pub proof fn lemma_run_edges_within_files(results: Seq<Option<FileGraph>>)
    requires
        forall|i: int|
            0 <= i < results.len() ==> ((#[trigger] results[i]) matches Some(g) ==> edges_within(g)),
    ensures
        forall|j: int|
            0 <= j < run_edges(results).len() ==> edge_in_one_file(
                results,
                #[trigger] run_edges(results)[j],
            ),
    decreases results.len(),
{
    if results.len() > 0 {
        let r1 = results.drop_last();
        assert forall|i: int| 0 <= i < r1.len() implies ((#[trigger] r1[i]) matches Some(g)
            ==> edges_within(g)) by {
            assert(r1[i] == results[i]);
        }
        lemma_run_edges_within_files(r1);
        let e1 = run_edges(r1);
        let all = run_edges(results);
        let last_part = match results.last() {
            Some(g) => g.1@,
            None => Seq::<NodeRelationship>::empty(),
        };
        assert(all == e1 + last_part);
        assert forall|j: int| 0 <= j < all.len() implies edge_in_one_file(
            results,
            #[trigger] all[j],
        ) by {
            if j < e1.len() {
                assert(all[j] == e1[j]);
                assert(edge_in_one_file(r1, e1[j]));
                let f = choose|f: int|
                    0 <= f < r1.len() && (#[trigger] r1[f]) is Some && is_record_id(
                        r1[f]->Some_0.0@,
                        e1[j].source_node_id@,
                    ) && is_record_id(r1[f]->Some_0.0@, e1[j].target_node_id@);
                assert(results[f] == r1[f]);
            } else {
                let f = results.len() - 1;
                assert(results[f] == results.last());
                let g = results.last()->Some_0;
                assert(edges_within(g));
                assert(all[j] == g.1@[j - e1.len()]);
            }
        }
    } else {
        assert(run_edges(results).len() == 0);
    }
}

} // verus!
