use embargo::graph::{EdgeType, Node, NodeType};
use embargo::resolver::{CallSite, CallType, FunctionResolver};

fn func(id: &str, name: &str) -> Node {
    Node::new(
        id.to_string(),
        name.to_string(),
        NodeType::Function,
        "/tmp/mod.rs".to_string(),
        1,
        "rust".to_string(),
    )
}

#[test]
fn resolver_simple_call_matches_function() {
    let nodes = vec![
        func("id:function:foo:1", "foo"),
        func("id:function:bar:2", "bar"),
    ];

    let mut resolver = FunctionResolver::new();
    resolver.build_indexes(&nodes).unwrap();

    let call = CallSite {
        caller_id: nodes[0].id.clone(),
        called_name: "bar".to_string(),
        call_type: CallType::SimpleCall,
        context: None,
        line_number: 42,
    };

    let edges = resolver.resolve_calls(&vec![call]);
    assert_eq!(edges.len(), 1);
    let e = &edges[0];
    assert_eq!(e.edge_type, EdgeType::Call);
    assert_eq!(e.source_id, nodes[0].id);
    assert_eq!(e.target_id, nodes[1].id);
    assert_eq!(e.context, Some("line:42".to_string()));
}

#[test]
fn resolver_far_name_yields_no_edge() {
    // "quartz" is farther than edit distance two from both indexed names
    let nodes = vec![
        func("id:function:compute:1", "compute"),
        func("id:function:render:2", "render"),
    ];

    let mut resolver = FunctionResolver::new();
    resolver.build_indexes(&nodes).unwrap();

    let call = CallSite {
        caller_id: nodes[0].id.clone(),
        called_name: "quartz".to_string(),
        call_type: CallType::SimpleCall,
        context: None,
        line_number: 7,
    };

    let edges = resolver.resolve_calls(&vec![call]);
    assert_eq!(edges.len(), 0);
}

#[test]
fn resolver_close_name_matches_by_edit_distance() {
    // "comptue" is one transposition, two substitutions, from "compute"
    let nodes = vec![func("id:function:compute:1", "compute")];

    let mut resolver = FunctionResolver::new();
    resolver.build_indexes(&nodes).unwrap();

    let call = CallSite {
        caller_id: "caller".to_string(),
        called_name: "comptue".to_string(),
        call_type: CallType::SimpleCall,
        context: None,
        line_number: 9,
    };

    let edges = resolver.resolve_calls(&vec![call]);
    assert_eq!(edges.len(), 1);
    assert_eq!(edges[0].target_id, "id:function:compute:1");
    assert_eq!(edges[0].context, Some("fuzzy_match:line:9".to_string()));
}

#[test]
fn resolver_method_call_takes_first_candidate() {
    let nodes = vec![
        func("mod.py:class:Widget:3", "draw"),
        func("mod.py:class:Panel:9", "draw"),
    ];

    let mut resolver = FunctionResolver::new();
    resolver.build_indexes(&nodes).unwrap();

    let call = CallSite {
        caller_id: "caller".to_string(),
        called_name: "obj.draw".to_string(),
        call_type: CallType::MethodCall,
        context: None,
        line_number: 12,
    };

    let edges = resolver.resolve_calls(&vec![call]);
    assert_eq!(edges.len(), 1);
    assert_eq!(edges[0].target_id, "mod.py:class:Widget:3");
    assert_eq!(edges[0].context, Some("method_call:line:12".to_string()));
}

#[test]
fn resolver_constructor_falls_back_to_placeholder() {
    let nodes = vec![func("id:function:helper:1", "helper")];

    let mut resolver = FunctionResolver::new();
    resolver.build_indexes(&nodes).unwrap();

    let call = CallSite {
        caller_id: "caller".to_string(),
        called_name: "Widget".to_string(),
        call_type: CallType::ConstructorCall,
        context: None,
        line_number: 3,
    };

    let edges = resolver.resolve_calls(&vec![call]);
    assert_eq!(edges.len(), 1);
    assert_eq!(edges[0].target_id, "external:class:Widget:0");
    assert_eq!(edges[0].context, None);
}

#[test]
fn resolver_constructor_matches_named_function() {
    let nodes = vec![func("id:function:Widget:4", "Widget")];

    let mut resolver = FunctionResolver::new();
    resolver.build_indexes(&nodes).unwrap();

    let call = CallSite {
        caller_id: "caller".to_string(),
        called_name: "Widget".to_string(),
        call_type: CallType::ConstructorCall,
        context: None,
        line_number: 3,
    };

    let edges = resolver.resolve_calls(&vec![call]);
    assert_eq!(edges.len(), 1);
    assert_eq!(edges[0].target_id, "id:function:Widget:4");
}

#[test]
fn resolver_qualified_and_dynamic_calls_stay_unresolved() {
    let nodes = vec![func("id:function:foo:1", "foo")];

    let mut resolver = FunctionResolver::new();
    resolver.build_indexes(&nodes).unwrap();

    let qualified = CallSite {
        caller_id: "caller".to_string(),
        called_name: "module.foo".to_string(),
        call_type: CallType::QualifiedCall,
        context: None,
        line_number: 1,
    };
    let dynamic = CallSite {
        caller_id: "caller".to_string(),
        called_name: "getattr(obj, name)".to_string(),
        call_type: CallType::DynamicCall,
        context: None,
        line_number: 2,
    };

    let edges = resolver.resolve_calls(&vec![qualified, dynamic]);
    assert_eq!(edges.len(), 0);
}

#[test]
fn resolver_exact_name_beats_colliding_context_bonuses() {
    // both candidates share the called name's bucket only through their own
    // names; the exact name must win over file and module context bonuses
    let far = Node::new(
        "far.py:function:target:1".to_string(),
        "target".to_string(),
        NodeType::Function,
        "far.py".to_string(),
        1,
        "python".to_string(),
    );
    let near = Node::new(
        "ctx.py:function:other:2".to_string(),
        "target".to_string(),
        NodeType::Function,
        "ctx.py".to_string(),
        2,
        "python".to_string(),
    );
    let nodes = vec![far.clone(), near.clone()];

    let mut resolver = FunctionResolver::new();
    resolver.build_indexes(&nodes).unwrap();

    let call = CallSite {
        caller_id: "caller".to_string(),
        called_name: "target".to_string(),
        call_type: CallType::SimpleCall,
        context: Some("ctx.py".to_string()),
        line_number: 5,
    };

    // both entries are named "target": the context bonus breaks the tie
    let edges = resolver.resolve_calls(&vec![call]);
    assert_eq!(edges.len(), 1);
    assert_eq!(edges[0].target_id, "ctx.py:function:other:2");
}
