use embargo::format::{JsonCompactFormatter, OutputFormat, PythonLanguageAdapter};
use embargo::graph::{EdgeType, Node, NodeType};
use embargo::parse::{generate_node_id, language_for_extension, Language, ParserFactory};
use embargo::resolver::extract_module_from_path;
use embargo::text::{levenshtein, str_chars};

#[test]
fn node_ids_flatten_path_separators() {
    let id = generate_node_id("src/app/main.py", "function", "run", 42);
    assert_eq!(id, "src_app_main.py:function:run:42");
    let id2 = generate_node_id("a\\b.cs", "class", "C", 7);
    assert_eq!(id2, "a_b.cs:class:C:7");
}

#[test]
fn parser_registry_accepts_known_keys_only() {
    let factory = ParserFactory::new();
    assert_eq!(factory.get_parser("python").unwrap(), Language::Python);
    assert_eq!(factory.get_parser("c++").unwrap(), Language::Cpp);
    assert_eq!(factory.get_parser("cpp").unwrap(), Language::Cpp);
    assert_eq!(factory.get_parser("c#").unwrap(), Language::CSharp);
    assert_eq!(factory.get_parser("rust").unwrap(), Language::Rust);
    let err = factory.get_parser("cobol").unwrap_err();
    assert_eq!(err.language, "cobol");
}

#[test]
fn scanner_filters_by_language_extensions() {
    let languages = vec![
        "rust".to_string(),
        "python".to_string(),
        "javascript".to_string(),
    ];
    assert_eq!(language_for_extension(&languages, "rs"), Some("rust".to_string()));
    assert_eq!(language_for_extension(&languages, "py"), Some("python".to_string()));
    assert_eq!(language_for_extension(&languages, "js"), Some("javascript".to_string()));
    assert_eq!(language_for_extension(&languages, "txt"), None);
    // an extension of an unlisted language stays out
    assert_eq!(language_for_extension(&languages, "go"), None);
}

#[test]
fn module_names_follow_file_stems() {
    assert_eq!(extract_module_from_path("proj/src/mod.rs"), "mod");
    assert_eq!(extract_module_from_path("archive.tar.gz"), "archive.tar");
    assert_eq!(extract_module_from_path(".hidden"), ".hidden");
    // trailing separators are ignored, as path handling ignores them
    assert_eq!(extract_module_from_path("proj/src/"), "src");
    // relative-dot components name no file
    assert_eq!(extract_module_from_path("a/.."), "unknown");
    assert_eq!(extract_module_from_path(""), "unknown");
}

#[test]
fn levenshtein_matches_known_distances() {
    let a = str_chars("kitten");
    let b = str_chars("sitting");
    assert_eq!(levenshtein(&a, &b), 3);
    let c = str_chars("flaw");
    let d = str_chars("lawn");
    assert_eq!(levenshtein(&c, &d), 2);
    let e = str_chars("same");
    assert_eq!(levenshtein(&e, &e), 0);
    let empty = str_chars("");
    assert_eq!(levenshtein(&empty, &e), 4);
}

#[test]
fn compact_codes_match_the_format() {
    let f = JsonCompactFormatter::new();
    assert!(f.minimal);
    assert_eq!(f.type_code(NodeType::Module), 0);
    assert_eq!(f.type_code(NodeType::Class), 1);
    assert_eq!(f.type_code(NodeType::Function), 2);
    assert_eq!(f.type_code(NodeType::Variable), 3);
    assert_eq!(f.type_code(NodeType::Interface), 4);
    assert_eq!(f.type_code(NodeType::Enum), 5);
    assert_eq!(f.edge_code(EdgeType::Import), 0);
    assert_eq!(f.edge_code(EdgeType::Call), 1);
    assert_eq!(f.edge_code(EdgeType::Contains), 5);
}

#[test]
fn compact_rows_code_the_graph() {
    let mut gb = embargo::graph::GraphBuilder::new();
    let a = Node::new(
        "a.rs:module:mod_a:1".to_string(),
        "mod_a".to_string(),
        NodeType::Module,
        "proj/src/a.rs".to_string(),
        1,
        "rust".to_string(),
    );
    let b = Node::new(
        "a.rs:function:func_b:3".to_string(),
        "func_b".to_string(),
        NodeType::Function,
        "proj/src/a.rs".to_string(),
        3,
        "rust".to_string(),
    );
    let c = Node::new(
        "b.rs:variable:var_c:2".to_string(),
        "var_c".to_string(),
        NodeType::Variable,
        "proj/src/b.rs".to_string(),
        2,
        "rust".to_string(),
    );
    gb.add_node(a.clone());
    gb.add_node(b.clone());
    gb.add_node(c.clone());
    let e = embargo::graph::Edge::new(EdgeType::Contains, a.id.clone(), b.id.clone());
    assert!(gb.add_edge(e).is_some());
    let graph = gb.build();

    let rows = JsonCompactFormatter::new().compact_rows(&graph);
    assert_eq!(rows.files, vec!["proj/src/a.rs".to_string(), "proj/src/b.rs".to_string()]);
    assert_eq!(rows.nodes.len(), 3);
    assert_eq!(rows.nodes[0], ("mod_a".to_string(), 0, 0, 1));
    assert_eq!(rows.nodes[1], ("func_b".to_string(), 2, 0, 3));
    assert_eq!(rows.nodes[2], ("var_c".to_string(), 3, 1, 2));
    assert_eq!(rows.edges, vec![(0, 1, 5)]);
}

#[test]
fn common_prefix_trims_to_directories() {
    let paths = vec!["proj/src/a.rs".to_string(), "proj/src/b.rs".to_string()];
    assert_eq!(embargo::format::find_common_prefix(&paths), "proj/src/");

    let mixed = vec!["proj/src/a.rs".to_string(), "proj/services/svc.rs".to_string()];
    assert_eq!(embargo::format::find_common_prefix(&mixed), "proj/");

    let single = vec!["proj/src/a.rs".to_string()];
    assert_eq!(embargo::format::find_common_prefix(&single), "proj/src/");

    let unrelated = vec!["alpha.rs".to_string(), "beta.rs".to_string()];
    assert_eq!(embargo::format::find_common_prefix(&unrelated), "");

    let none: Vec<String> = vec![];
    assert_eq!(embargo::format::find_common_prefix(&none), "");
}

#[test]
fn semantic_prefixes_tag_relative_paths() {
    let paths = vec![
        "proj/services/svc.rs".to_string(),
        "proj/models/m.rs".to_string(),
        "proj/widgets/ribbon/r.rs".to_string(),
        "proj/other/x.rs".to_string(),
    ];
    let tags = embargo::format::build_semantic_prefixes(&paths, "proj/");
    assert_eq!(tags.get("proj/services/svc.rs"), Some(&"S".to_string()));
    assert_eq!(tags.get("proj/models/m.rs"), Some(&"E".to_string()));
    assert_eq!(tags.get("proj/widgets/ribbon/r.rs"), Some(&"R".to_string()));
    assert_eq!(tags.get("proj/other/x.rs"), Some(&"U".to_string()));
    assert_eq!(tags.get("proj/absent.rs"), None);
}

#[test]
fn output_format_names() {
    assert_eq!(OutputFormat::Markdown.as_str(), "markdown");
    assert_eq!(OutputFormat::LlmOptimized.as_str(), "llm-optimized");
    assert_eq!(OutputFormat::JsonCompact.as_str(), "json-compact");
}

#[test]
fn python_adapter_rules() {
    let adapter = PythonLanguageAdapter::new();
    let node = Node::new(
        "app/models/user.py:function:save:3".to_string(),
        "save".to_string(),
        NodeType::Function,
        "app/models/user.py".to_string(),
        3,
        "python".to_string(),
    );
    assert_eq!(adapter.classify_node_cluster(&node), "DATA_MODELS");
    assert_eq!(adapter.get_call_priority("load_data"), 1);
    assert_eq!(adapter.get_call_priority("__init__"), 1);
    assert_eq!(adapter.get_call_priority("predict_one"), 2);
    assert_eq!(adapter.get_call_priority("mystery"), 5);

    let dunder = Node::new(
        "m.py:function:__str__:9".to_string(),
        "__str__".to_string(),
        NodeType::Function,
        "m.py".to_string(),
        9,
        "python".to_string(),
    );
    let ann = adapter.language_specific_annotations(&dunder);
    assert_eq!(ann, vec!["DUNDER".to_string()]);

    let init = Node::new(
        "m.py:function:__init__:2".to_string(),
        "__init__".to_string(),
        NodeType::Function,
        "m.py".to_string(),
        2,
        "python".to_string(),
    );
    let ann2 = adapter.language_specific_annotations(&init);
    assert_eq!(ann2, vec!["CTOR".to_string(), "DUNDER".to_string()]);
}

#[test]
fn builder_setters_keep_other_fields() {
    let node = Node::new(
        "id".to_string(),
        "n".to_string(),
        NodeType::Function,
        "f.rs".to_string(),
        1,
        "rust".to_string(),
    )
    .with_signature("fn n()".to_string())
    .with_docstring("doc".to_string())
    .with_visibility("public".to_string());
    assert_eq!(node.signature, Some("fn n()".to_string()));
    assert_eq!(node.docstring, Some("doc".to_string()));
    assert_eq!(node.visibility, Some("public".to_string()));
    assert_eq!(node.name, "n");

    let edge = embargo::graph::Edge::new(
        EdgeType::Uses,
        "a".to_string(),
        "b".to_string(),
    )
    .with_context("ctx".to_string());
    assert_eq!(edge.context, Some("ctx".to_string()));
    assert_eq!(edge.source_id, "a");
}
