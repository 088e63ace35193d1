//! Parsing with tree-sitter, and reading its trees into plain syntax trees.

use vstd::prelude::*;

use crate::grammar::Lang;
use crate::tree::{SyntaxNode, SyntaxTree, TreeError};

verus! {

#[verifier::external_type_specification]
#[verifier::external_body]
pub struct ExLanguage(tree_sitter::Language);

#[verifier::external_type_specification]
#[verifier::external_body]
pub struct ExParser(tree_sitter::Parser);

#[verifier::external_type_specification]
#[verifier::external_body]
pub struct ExTree(tree_sitter::Tree);

#[verifier::external_type_specification]
#[verifier::external_body]
pub struct ExNode<'a>(tree_sitter::Node<'a>);

/// The deepest nesting of nodes below a root that is read; a deeper tree
/// is refused with `TreeError::TooDeep` rather than risking the stack.
pub const MAX_TREE_DEPTH: usize = 2048;

/// Relies on tree_sitter_python::language, the Python grammar.
#[verifier::external_body]
fn python_grammar() -> tree_sitter::Language {
    tree_sitter_python::language()
}

/// Relies on tree_sitter_javascript::language, the JavaScript grammar.
#[verifier::external_body]
fn javascript_grammar() -> tree_sitter::Language {
    tree_sitter_javascript::language()
}

/// Relies on tree_sitter_rust::language, the Rust grammar.
#[verifier::external_body]
fn rust_grammar() -> tree_sitter::Language {
    tree_sitter_rust::language()
}

/// Relies on tree_sitter::Parser::new, a parser with no language yet.
#[verifier::external_body]
fn new_parser() -> tree_sitter::Parser {
    tree_sitter::Parser::new()
}

/// Relies on tree_sitter::Parser::set_language; false on a grammar of an
/// incompatible version.
#[verifier::external_body]
fn set_parser_language(parser: &mut tree_sitter::Parser, language: tree_sitter::Language) -> bool {
    parser.set_language(language).is_ok()
}

/// Relies on tree_sitter::Parser::parse, from scratch; `None` when the
/// parser has no language or was stopped.
#[verifier::external_body]
fn parse_text(parser: &mut tree_sitter::Parser, text: &str) -> Option<tree_sitter::Tree> {
    parser.parse(text, None)
}

/// Relies on tree_sitter::Tree::root_node.
#[verifier::external_body]
fn root_node<'a>(tree: &'a tree_sitter::Tree) -> tree_sitter::Node<'a> {
    tree.root_node()
}

/// Relies on tree_sitter::Node::kind, the grammar's name of the node's kind.
#[verifier::external_body]
fn node_kind(node: &tree_sitter::Node) -> String {
    node.kind().to_string()
}

/// Relies on tree_sitter::Node::range: the byte offsets and the rows of
/// the node's start and end. The end is the start moved forward by the
/// node's size (ts_node_end_byte, ts_node_end_point), so neither runs
/// backwards.
#[verifier::external_body]
fn node_span(node: &tree_sitter::Node) -> (r: (usize, usize, usize, usize))
    ensures
        r.0 <= r.1,
        r.2 <= r.3,
{
    let range = node.range();
    (range.start_byte, range.end_byte, range.start_point.row, range.end_point.row)
}

/// Relies on tree_sitter::Node::child_by_field_name, the first child in
/// the field `field`.
#[verifier::external_body]
fn field_child<'a>(node: &tree_sitter::Node<'a>, field: &str) -> Option<tree_sitter::Node<'a>> {
    node.child_by_field_name(field)
}

/// Relies on tree_sitter::Node::child_count.
#[verifier::external_body]
fn child_count(node: &tree_sitter::Node) -> usize {
    node.child_count()
}

/// Relies on tree_sitter::Node::child, the child at index `i`.
#[verifier::external_body]
fn child_at<'a>(node: &tree_sitter::Node<'a>, i: usize) -> Option<tree_sitter::Node<'a>> {
    node.child(i)
}

/// The tree-sitter grammar of a language.
pub fn grammar(lang: Lang) -> tree_sitter::Language {
    match lang {
        Lang::Python => python_grammar(),
        Lang::JavaScript => javascript_grammar(),
        Lang::Rust => rust_grammar(),
    }
}

/// Parses `code` with the grammar of `lang`; `None` where tree-sitter
/// refuses the grammar or gives no tree.
pub fn parse_source(code: &str, lang: Lang) -> Option<tree_sitter::Tree> {
    let mut parser = new_parser();
    if !set_parser_language(&mut parser, grammar(lang)) {
        return None;
    }
    parse_text(&mut parser, code)
}

/// What is kept of one tree-sitter node: its kind, its spans, and the span
/// of its `name` child.
fn node_shape(node: &tree_sitter::Node) -> (r: SyntaxNode)
    ensures
        r.spans_ordered(),
{
    let name_span = match field_child(node, "name") {
        Some(c) => {
            let (s, e, _, _) = node_span(&c);
            Some((s, e))
        },
        None => None,
    };
    let (start_byte, end_byte, start_row, end_row) = node_span(node);
    SyntaxNode { kind: node_kind(node), start_byte, end_byte, start_row, end_row, name_span }
}

/// Adds the descendants of `node`, which stands at index `at` of `tree`,
/// depth first and in source order; at most `depth` levels of them.
fn read_children(
    node: &tree_sitter::Node,
    at: usize,
    depth: usize,
    tree: &mut SyntaxTree,
) -> (r: Result<(), TreeError>)
    requires
        old(tree).wf(),
        at < old(tree).nodes@.len(),
    ensures
        final(tree).wf(),
        final(tree).nodes@.len() >= old(tree).nodes@.len(),
        r matches Err(e) ==> e == TreeError::TooDeep,
    decreases depth,
{
    let count = child_count(node);
    let mut i: usize = 0;
    while i < count
        invariant
            tree.wf(),
            at < tree.nodes@.len(),
            tree.nodes@.len() >= old(tree).nodes@.len(),
        decreases count - i,
    {
        if let Some(child) = child_at(node, i) {
            if depth == 0 {
                return Err(TreeError::TooDeep);
            }
            let shape = node_shape(&child);
            match tree.add_child(at, shape) {
                Ok(k) => {
                    match read_children(&child, k, depth - 1, tree) {
                        Ok(()) => {},
                        Err(e) => {
                            return Err(e);
                        },
                    }
                },
                Err(e) => {
                    return Err(e);
                },
            }
        }
        i = i + 1;
    }
    Ok(())
}

/// Reads a tree-sitter tree into a plain syntax tree, its nodes in
/// depth-first order from the root. Fails only on nesting deeper than
/// `MAX_TREE_DEPTH`.
pub fn read_tree(parsed: &tree_sitter::Tree) -> (r: Result<SyntaxTree, TreeError>)
    ensures
        r matches Ok(t) ==> t.wf(),
        r matches Err(e) ==> e == TreeError::TooDeep,
{
    let root = root_node(parsed);
    let mut tree = match SyntaxTree::with_root(node_shape(&root)) {
        Ok(t) => t,
        Err(e) => {
            return Err(e);
        },
    };
    match read_children(&root, 0, MAX_TREE_DEPTH, &mut tree) {
        Ok(()) => Ok(tree),
        Err(e) => Err(e),
    }
}

} // verus!
