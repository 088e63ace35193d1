use ast_parser::pipeline::{aggregate, file_graph, parse_code_to_ast_nodes, ParseFailure, RunGraph};
use ast_parser::records::AstNode;
use ast_parser::syntax::{parse_source, read_tree};
use ast_parser::grammar::Lang;

#[test]
fn python_function_definition() {
    let (nodes, rels) = parse_code_to_ast_nodes("def f(): pass", "foo.py", "c0ffee").unwrap();
    let defs: Vec<&AstNode> = nodes.iter().filter(|n| n.node_type == "function_definition").collect();
    assert_eq!(defs.len(), 1);
    let def = defs[0];
    assert_eq!(def.name, "f");
    assert_eq!(def.source_code_snippet, "def f(): pass");
    assert_eq!(def.file_path, "foo.py");
    assert_eq!(def.git_commit_hash, "c0ffee");
    assert!(def.annotations.is_none());
    let into_body: Vec<_> = rels
        .iter()
        .filter(|r| r.source_node_id == def.id)
        .filter(|r| nodes.iter().any(|n| n.id == r.target_node_id && n.node_type == "block"))
        .collect();
    assert_eq!(into_body.len(), 1);
    assert_eq!(rels.len(), nodes.len() - 1);
    assert_eq!(nodes[0].node_type, "module");

    let request = aggregate(vec![Some((nodes.clone(), rels.clone()))]).ingestion_request().unwrap();
    assert_eq!(request.ast_nodes, nodes);
    assert_eq!(request.relationships, rels);
}

#[test]
fn javascript_and_rust_files_parse() {
    let (nodes, rels) = parse_code_to_ast_nodes("function g() {}", "a.js", "c").unwrap();
    assert_eq!(nodes[0].node_type, "program");
    assert!(nodes.iter().any(|n| n.node_type == "function_declaration" && n.name == "g"));
    assert_eq!(rels.len() + 1, nodes.len());
    let (nodes, _) = parse_code_to_ast_nodes("fn h() {}", "src/lib.rs", "c").unwrap();
    assert_eq!(nodes[0].node_type, "source_file");
    assert!(nodes.iter().any(|n| n.node_type == "function_item" && n.name == "h"));
}

#[test]
fn rows_are_zero_based() {
    let (nodes, _) = parse_code_to_ast_nodes("x = 1\n\ndef f():\n    pass\n", "m.py", "c").unwrap();
    let def = nodes.iter().find(|n| n.node_type == "function_definition").unwrap();
    assert_eq!((def.start_line, def.end_line), (2, 3));
    assert_eq!(def.start_byte, 7);
}

#[test]
fn unmapped_extension_contributes_nothing() {
    assert_eq!(parse_code_to_ast_nodes("def f(): pass", "notes.txt", "c"), Err(ParseFailure::Unsupported));
    assert_eq!(parse_code_to_ast_nodes("def f(): pass", "Makefile", "c"), Err(ParseFailure::Unsupported));
    let py = parse_code_to_ast_nodes("def f(): pass", "foo.py", "c").ok();
    let alone = aggregate(vec![py.clone()]);
    let with_skip = aggregate(vec![None, py, None]);
    assert_eq!(alone.nodes.len(), with_skip.nodes.len());
    assert_eq!(alone.relationships.len(), with_skip.relationships.len());
    assert_eq!(with_skip.files, 1);
}

#[test]
fn run_counts_successful_files_only() {
    let a = parse_code_to_ast_nodes("def f(): pass", "a.py", "c").ok();
    let b = parse_code_to_ast_nodes("fn h() {}", "b.rs", "c").ok();
    let (na, ea) = (a.as_ref().unwrap().0.len(), a.as_ref().unwrap().1.len());
    let (nb, eb) = (b.as_ref().unwrap().0.len(), b.as_ref().unwrap().1.len());
    let forward = aggregate(vec![a.clone(), None, b.clone(), None, None]);
    let backward = aggregate(vec![None, b.clone(), None, a.clone(), None]);
    assert_eq!(forward.files, 3 - 1);
    assert_eq!(forward.nodes.len(), na + nb);
    assert_eq!(forward.relationships.len(), ea + eb);
    assert_eq!(backward.files, forward.files);
    let mut ids_f: Vec<String> = forward.nodes.iter().map(|n| n.id.clone()).collect();
    let mut ids_b: Vec<String> = backward.nodes.iter().map(|n| n.id.clone()).collect();
    ids_f.sort();
    ids_b.sort();
    assert_eq!(ids_f, ids_b);
    assert_eq!(forward.nodes[0], a.unwrap().0[0]);
}

#[test]
fn empty_run_sends_nothing() {
    let run = aggregate(Vec::new());
    assert!(run.nodes.is_empty());
    assert!(run.relationships.is_empty());
    assert_eq!(run.files, 0);
    assert!(run.ingestion_request().is_none());
    assert!(aggregate(vec![None, None]).ingestion_request().is_none());
}

#[test]
fn merge_appends_in_order() {
    let mut run = RunGraph::new();
    let a = parse_code_to_ast_nodes("def f(): pass", "a.py", "c").ok();
    let b = parse_code_to_ast_nodes("def g(): pass", "b.py", "c").ok();
    run.merge(a.clone());
    run.merge(None);
    run.merge(b.clone());
    assert_eq!(run.files, 2);
    let mut want = a.unwrap().0;
    want.extend(b.unwrap().0);
    assert_eq!(run.nodes, want);
}

#[test]
fn tree_sitter_tree_reads_depth_first() {
    let parsed = parse_source("def f(): pass", Lang::Python).unwrap();
    let tree = read_tree(&parsed).unwrap();
    assert_eq!(tree.nodes[0].kind, "module");
    assert_eq!(tree.parents[0], None);
    for (i, p) in tree.parents.iter().enumerate().skip(1) {
        assert!(p.unwrap() < i);
    }
    let def = tree.nodes.iter().position(|n| n.kind == "function_definition").unwrap();
    assert_eq!(tree.nodes[def].name_span, Some((4, 5)));
    assert_eq!(tree.nodes[def + 1].kind, "def");
}

#[test]
fn deep_nesting_is_refused() {
    let code = format!("x = {}1{}", "(".repeat(3000), ")".repeat(3000));
    assert_eq!(parse_code_to_ast_nodes(&code, "deep.py", "c"), Err(ParseFailure::TooDeep));
    let shallow = format!("x = {}1{}", "(".repeat(20), ")".repeat(20));
    assert!(parse_code_to_ast_nodes(&shallow, "ok.py", "c").is_ok());
}

#[test]
fn ids_distinct_within_a_file() {
    let code = "def f(a, b):\n    return a + b\n\nclass C:\n    x = [1, 2, 3]\n";
    let (nodes, rels) = parse_code_to_ast_nodes(code, "m.py", "c").unwrap();
    let mut ids: Vec<&String> = nodes.iter().map(|n| &n.id).collect();
    assert!(ids.iter().all(|id| id.len() == 36));
    ids.sort();
    ids.dedup();
    assert_eq!(ids.len(), nodes.len());
    for r in &rels {
        assert_ne!(r.source_node_id, r.target_node_id);
    }
    for (k, n) in nodes.iter().enumerate() {
        let into = rels.iter().filter(|r| r.target_node_id == n.id).count();
        assert_eq!(into, if k == 0 { 0 } else { 1 });
    }
    assert!(nodes.iter().all(|n| n.end_byte <= code.len()));
}

#[test]
fn spans_beyond_source_are_refused() {
    let parsed = parse_source("def f(): pass", Lang::Python).unwrap();
    let tree = read_tree(&parsed).unwrap();
    assert_eq!(file_graph(&tree, "def f()", "foo.py", "c"), Err(ParseFailure::OutOfSource));
    let (nodes, rels) = file_graph(&tree, "def f(): pass", "foo.py", "c").unwrap();
    assert_eq!(nodes.len(), tree.nodes.len());
    assert_eq!(rels.len() + 1, nodes.len());
}
