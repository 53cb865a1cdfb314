use embargo::analysis::build_dependency_graph;
use embargo::extract::{CallSiteExtractor, SyntaxNode};
use embargo::graph::{EdgeType, Node, NodeType};
use embargo::parse::ParseResult;
use embargo::resolver::{CallType, FunctionResolver};

fn leaf(kind: &str, text: &str, row: usize, start_byte: usize) -> SyntaxNode {
    SyntaxNode {
        kind: kind.to_string(),
        text: text.to_string(),
        row,
        start_byte,
        field: None,
        children: vec![],
    }
}

fn named_leaf(kind: &str, text: &str, row: usize, start_byte: usize, field: &str) -> SyntaxNode {
    SyntaxNode {
        kind: kind.to_string(),
        text: text.to_string(),
        row,
        start_byte,
        field: Some(field.to_string()),
        children: vec![],
    }
}

fn node(kind: &str, text: &str, row: usize, start_byte: usize, children: Vec<SyntaxNode>) -> SyntaxNode {
    SyntaxNode {
        kind: kind.to_string(),
        text: text.to_string(),
        row,
        start_byte,
        field: None,
        children,
    }
}

/// A tree for source that defines `foo` and calls `bar()` inside it.
fn caller_tree() -> SyntaxNode {
    let call = node("call", "bar()", 1, 20, vec![leaf("identifier", "bar", 1, 20)]);
    let body = node("block", "bar()", 1, 18, vec![call]);
    let foo_def = node(
        "function_definition",
        "def foo():\n    bar()",
        0,
        0,
        vec![named_leaf("identifier", "foo", 0, 4, "name"), body],
    );
    node("module", "def foo():\n    bar()", 0, 0, vec![foo_def])
}

#[test]
fn extractor_attributes_call_to_enclosing_function() {
    let mut extractor = CallSiteExtractor::new();
    let sites = extractor.extract_from_ast(&caller_tree(), "src/lib.py");

    assert_eq!(sites.len(), 1);
    assert_eq!(sites[0].caller_id, "src_lib.py:function:foo:1");
    assert_eq!(sites[0].called_name, "bar");
    assert_eq!(sites[0].call_type, CallType::SimpleCall);
    assert_eq!(sites[0].context, Some("ast_node:call".to_string()));
    assert_eq!(sites[0].line_number, 2);
}

#[test]
fn extractor_classifies_call_shapes() {
    // attribute access with a self receiver, a qualified module call, a
    // constructor-looking identifier, and a macro invocation
    let self_call = node(
        "call",
        "self.update()",
        0,
        0,
        vec![leaf("attribute", "self.update", 0, 0)],
    );
    let module_call = node(
        "call",
        "json.dumps(x)",
        1,
        20,
        vec![node(
            "attribute",
            "json.dumps",
            1,
            20,
            vec![leaf("identifier", "json", 1, 20), leaf("identifier", "dumps", 1, 25)],
        )],
    );
    let ctor_call = node(
        "call_expression",
        "Widget()",
        2,
        40,
        vec![leaf("identifier", "Widget", 2, 40)],
    );
    let macro_call = node(
        "macro_invocation",
        "println!(\"hi\")",
        3,
        60,
        vec![leaf("identifier", "println", 3, 60)],
    );
    let root = node("module", "", 0, 0, vec![self_call, module_call, ctor_call, macro_call]);

    let mut extractor = CallSiteExtractor::new();
    let sites = extractor.extract_from_ast(&root, "m.py");

    assert_eq!(sites.len(), 4);
    assert_eq!(sites[0].called_name, "update");
    assert_eq!(sites[0].call_type, CallType::MethodCall);
    assert_eq!(sites[0].caller_id, "module_level");
    assert_eq!(sites[1].called_name, "dumps");
    assert_eq!(sites[1].call_type, CallType::MethodCall);
    assert_eq!(sites[2].called_name, "Widget");
    assert_eq!(sites[2].call_type, CallType::ConstructorCall);
    assert_eq!(sites[3].called_name, "println");
    assert_eq!(sites[3].call_type, CallType::SimpleCall);
}

#[test]
fn extractor_constructor_test_covers_unicode_capitals() {
    // an identifier starting with a non-ASCII capital still reads as a
    // constructor, and a lowercase one stays a simple call
    let unicode_ctor = node(
        "call",
        "\u{c9}cran()",
        0,
        0,
        vec![leaf("identifier", "\u{c9}cran", 0, 0)],
    );
    let plain = node("call", "run()", 1, 20, vec![leaf("identifier", "run", 1, 20)]);
    let root = node("module", "", 0, 0, vec![unicode_ctor, plain]);

    let mut extractor = CallSiteExtractor::new();
    let sites = extractor.extract_from_ast(&root, "m.py");

    assert_eq!(sites.len(), 2);
    assert_eq!(sites[0].call_type, CallType::ConstructorCall);
    assert_eq!(sites[1].call_type, CallType::SimpleCall);
}

#[test]
fn extractor_clears_tracking_when_a_function_ends() {
    // a call that follows a nested function definition is attributed to the
    // module level, since leaving a function clears the tracked state
    let inner_def = node(
        "function_definition",
        "def inner(): pass",
        1,
        10,
        vec![named_leaf("identifier", "inner", 1, 14, "name")],
    );
    let late_call = node("call", "tail()", 3, 40, vec![leaf("identifier", "tail", 3, 40)]);
    let root = node("module", "", 0, 0, vec![inner_def, late_call]);

    let mut extractor = CallSiteExtractor::new();
    let sites = extractor.extract_from_ast(&root, "m.py");

    assert_eq!(sites.len(), 1);
    assert_eq!(sites[0].caller_id, "module_level");
}

#[test]
fn end_to_end_caller_resolves_to_callee() {
    // source defining a caller `foo` invoking `bar`, as the extractor sees
    // it, resolved against both functions' nodes
    let mut extractor = CallSiteExtractor::new();
    let sites = extractor.extract_from_ast(&caller_tree(), "src/lib.py");
    assert_eq!(sites.len(), 1);
    assert_eq!(sites[0].called_name, "bar");
    assert_eq!(sites[0].call_type, CallType::SimpleCall);

    let foo = Node::new(
        "src_lib.py:function:foo:1".to_string(),
        "foo".to_string(),
        NodeType::Function,
        "src/lib.py".to_string(),
        1,
        "python".to_string(),
    );
    let bar = Node::new(
        "src_lib.py:function:bar:5".to_string(),
        "bar".to_string(),
        NodeType::Function,
        "src/lib.py".to_string(),
        5,
        "python".to_string(),
    );

    let mut resolver = FunctionResolver::new();
    resolver.build_indexes(&vec![foo.clone(), bar.clone()]).unwrap();
    let edges = resolver.resolve_calls(&sites);
    assert_eq!(edges.len(), 1);
    assert_eq!(edges[0].edge_type, EdgeType::Call);
    assert_eq!(edges[0].source_id, foo.id);
    assert_eq!(edges[0].target_id, bar.id);

    // the full pipeline merges the resolved edge into the graph
    let results = vec![ParseResult { nodes: vec![foo, bar], edges: vec![], call_sites: Some(sites) }];
    let (graph, resolved) = build_dependency_graph(&results);
    assert_eq!(resolved, 1);
    assert_eq!(graph.node_count(), 2);
    assert_eq!(graph.edge_count(), 1);
    assert_eq!(graph.edge_endpoints(0), Some((0, 1)));
}
