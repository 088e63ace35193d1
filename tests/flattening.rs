use ast_parser::flatten::{flatten, flatten_with_ids, snippet};
use ast_parser::records::{has_child, AstNode};
use ast_parser::tree::{SyntaxNode, SyntaxTree, TreeError};

fn shape(kind: &str, start: usize, end: usize, name_span: Option<(usize, usize)>) -> SyntaxNode {
    SyntaxNode {
        kind: kind.to_string(),
        start_byte: start,
        end_byte: end,
        start_row: 0,
        end_row: 0,
        name_span,
    }
}

// module(0..13) > function_definition(0..13, name 4..5) > { identifier(4..5), block(9..13) > pass_statement(9..13) }
fn sample_tree() -> SyntaxTree {
    let mut t = SyntaxTree::with_root(shape("module", 0, 13, None)).unwrap();
    let f = t.add_child(0, shape("function_definition", 0, 13, Some((4, 5)))).unwrap();
    t.add_child(f, shape("identifier", 4, 5, None)).unwrap();
    let b = t.add_child(f, shape("block", 9, 13, None)).unwrap();
    t.add_child(b, shape("pass_statement", 9, 13, None)).unwrap();
    t
}

const SOURCE: &[u8] = b"def f(): pass";

#[test]
fn builder_rejects_backward_spans() {
    assert_eq!(
        SyntaxTree::with_root(shape("module", 5, 4, None)).unwrap_err(),
        TreeError::MalformedSpan
    );
    let mut t = SyntaxTree::with_root(shape("module", 0, 4, None)).unwrap();
    let mut bad = shape("x", 0, 1, None);
    bad.end_row = 0;
    bad.start_row = 2;
    assert_eq!(t.add_child(0, bad), Err(TreeError::MalformedSpan));
    assert_eq!(t.add_child(0, shape("x", 0, 1, Some((3, 2)))), Err(TreeError::MalformedSpan));
    assert_eq!(t.len(), 1);
}

#[test]
fn builder_rejects_unknown_parent() {
    let mut t = SyntaxTree::with_root(shape("module", 0, 4, None)).unwrap();
    assert_eq!(t.add_child(1, shape("x", 0, 1, None)), Err(TreeError::UnknownParent));
    assert_eq!(t.add_child(0, shape("x", 0, 1, None)), Ok(1));
    assert_eq!(t.add_child(1, shape("y", 0, 1, None)), Ok(2));
    assert_eq!(t.parents, vec![None, Some(0), Some(1)]);
}

#[test]
fn snippet_decodes_or_is_empty() {
    assert_eq!(snippet(SOURCE, 4, 5), "f");
    assert_eq!(snippet(SOURCE, 0, 3), "def");
    assert_eq!(snippet(SOURCE, 0, 0), "");
    assert_eq!(snippet(SOURCE, 9, 14), "");
    assert_eq!(snippet(SOURCE, 5, 4), "");
    let text = "é!".as_bytes();
    assert_eq!(snippet(text, 0, 2), "é");
    assert_eq!(snippet(text, 0, 1), "");
    assert_eq!(snippet(text, 2, 3), "!");
}

#[test]
fn flatten_with_given_ids_is_exact() {
    let t = sample_tree();
    let ids: Vec<String> = ["a", "b", "c", "d", "e"].iter().map(|s| s.to_string()).collect();
    let (nodes, rels) = flatten_with_ids(&t, SOURCE, "foo.py", "c0ffee", &ids);
    assert_eq!(nodes.len(), 5);
    assert_eq!(
        nodes[1],
        AstNode {
            id: "b".to_string(),
            node_type: "function_definition".to_string(),
            source_code_snippet: "def f(): pass".to_string(),
            file_path: "foo.py".to_string(),
            git_commit_hash: "c0ffee".to_string(),
            name: "f".to_string(),
            start_byte: 0,
            end_byte: 13,
            start_line: 0,
            end_line: 0,
            annotations: None,
        }
    );
    assert_eq!(nodes[2].source_code_snippet, "f");
    assert_eq!(nodes[2].name, "");
    assert_eq!(nodes[4].source_code_snippet, "pass");
    let edges: Vec<(String, String, String)> = rels
        .iter()
        .map(|r| (r.source_node_id.clone(), r.target_node_id.clone(), r.relationship_type.clone()))
        .collect();
    let want: Vec<(String, String, String)> = [("a", "b"), ("b", "c"), ("b", "d"), ("d", "e")]
        .iter()
        .map(|(p, c)| (p.to_string(), c.to_string(), "hasChild".to_string()))
        .collect();
    assert_eq!(edges, want);
}

#[test]
fn edges_count_nodes_less_roots() {
    let t = sample_tree();
    let (nodes, rels) = flatten(&t, SOURCE, "foo.py", "c0ffee");
    assert_eq!(rels.len(), nodes.len() - 1);
    for r in &rels {
        assert!(nodes.iter().any(|n| n.id == r.source_node_id));
        assert!(nodes.iter().any(|n| n.id == r.target_node_id));
        assert_eq!(r.relationship_type, "hasChild");
    }
    let root_only = SyntaxTree::with_root(shape("module", 0, 0, None)).unwrap();
    let (nodes, rels) = flatten(&root_only, b"", "empty.py", "c0ffee");
    assert_eq!(nodes.len(), 1);
    assert!(rels.is_empty());
}

#[test]
fn record_spans_run_forwards() {
    let mut t = SyntaxTree::with_root(shape("module", 0, 13, None)).unwrap();
    let mut two_lines = shape("block", 2, 9, None);
    two_lines.start_row = 1;
    two_lines.end_row = 3;
    t.add_child(0, two_lines).unwrap();
    let (nodes, _) = flatten(&t, SOURCE, "foo.py", "c0ffee");
    for n in &nodes {
        assert!(n.start_byte <= n.end_byte);
        assert!(n.start_line <= n.end_line);
    }
    assert_eq!((nodes[1].start_line, nodes[1].end_line), (1, 3));
}

#[test]
fn flattening_twice_differs_only_in_ids() {
    let t = sample_tree();
    let (a, _) = flatten(&t, SOURCE, "foo.py", "c0ffee");
    let (b, _) = flatten(&t, SOURCE, "foo.py", "c0ffee");
    let key = |n: &AstNode| {
        (n.node_type.clone(), n.source_code_snippet.clone(), n.start_byte, n.end_byte)
    };
    assert_eq!(a.iter().map(key).collect::<Vec<_>>(), b.iter().map(key).collect::<Vec<_>>());
    let mut ids: Vec<&String> = a.iter().chain(b.iter()).map(|n| &n.id).collect();
    assert!(ids.iter().all(|id| id.len() == 36));
    ids.sort();
    ids.dedup();
    assert_eq!(ids.len(), 10);
}

#[test]
fn has_child_edge() {
    let r = has_child(&"p".to_string(), &"c".to_string());
    assert_eq!(r.source_node_id, "p");
    assert_eq!(r.target_node_id, "c");
    assert_eq!(r.relationship_type, "hasChild");
}
