use embargo::graph::{DependencyGraph, Edge, EdgeType, GraphBuilder, Node, NodeType};

fn make_node(id: &str, name: &str, ty: NodeType) -> Node {
    Node::new(
        id.to_string(),
        name.to_string(),
        ty,
        "/tmp/file.rs".to_string(),
        1,
        "rust".to_string(),
    )
}

#[test]
fn graph_builder_adds_nodes_and_edges() {
    let mut gb = GraphBuilder::new();

    let n1 = make_node("id:module:m", "m", NodeType::Module);
    let n2 = make_node("id:function:f", "f", NodeType::Function);
    let n3 = make_node("id:variable:v", "v", NodeType::Variable);

    gb.add_node(n1.clone());
    gb.add_node(n2.clone());
    gb.add_node(n3.clone());

    let e1 = Edge::new(EdgeType::Contains, n1.id.clone(), n2.id.clone());
    let e2 = Edge::new(EdgeType::Uses, n2.id.clone(), n3.id.clone());

    assert!(gb.add_edge(e1).is_some());
    assert!(gb.add_edge(e2).is_some());

    let graph: DependencyGraph = gb.build();
    assert_eq!(graph.node_count(), 3);
    assert_eq!(graph.edge_count(), 2);
}

#[test]
fn add_edge_returns_none_when_missing_nodes() {
    let mut gb = GraphBuilder::new();
    let n1 = make_node("A", "a", NodeType::Function);
    gb.add_node(n1.clone());

    // target not present
    let e = Edge::new(EdgeType::Call, n1.id.clone(), "missing".to_string());
    assert!(gb.add_edge(e).is_none());
}

#[test]
fn duplicate_id_keeps_stored_nodes_and_repoints_index() {
    let mut gb = GraphBuilder::new();
    let first = make_node("dup", "first", NodeType::Function);
    let second = make_node("dup", "second", NodeType::Function);
    let other = make_node("other", "other", NodeType::Function);

    gb.add_node(first);
    gb.add_node(second);
    gb.add_node(other);

    // the index points at the latest insert under the shared id
    assert_eq!(gb.get_node_index("dup"), Some(1));
    assert_eq!(gb.get_node_index("other"), Some(2));
    assert_eq!(gb.get_node_index("absent"), None);

    // an edge through the shared id reaches the newer node
    let e = Edge::new(EdgeType::Call, "other".to_string(), "dup".to_string());
    assert!(gb.add_edge(e).is_some());

    let graph = gb.build();
    // both nodes inserted under the duplicate id stay stored
    assert_eq!(graph.node_count(), 3);
    assert_eq!(graph.edge_endpoints(0), Some((2, 1)));
    assert_eq!(graph.node_weight(1).unwrap().name, "second");
}

#[test]
fn edge_added_only_after_both_endpoints() {
    let mut gb = GraphBuilder::new();
    gb.add_node(make_node("a", "a", NodeType::Function));

    let early = Edge::new(EdgeType::Call, "a".to_string(), "b".to_string());
    assert!(gb.add_edge(early).is_none());

    gb.add_node(make_node("b", "b", NodeType::Function));
    let late = Edge::new(EdgeType::Call, "a".to_string(), "b".to_string());
    assert!(gb.add_edge(late).is_some());

    let graph = gb.build();
    assert_eq!(graph.edge_count(), 1);
    assert_eq!(graph.edge_weight(0).unwrap().edge_type, EdgeType::Call);
}
