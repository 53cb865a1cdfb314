use embargo::cache::ParseCache;
use embargo::graph::{Node, NodeType};
use embargo::parse::ParseResult;

fn sample_result() -> ParseResult {
    let node = Node::new(
        "prog.rs:function:a:1".to_string(),
        "a".to_string(),
        NodeType::Function,
        "prog.rs".to_string(),
        1,
        "rust".to_string(),
    );
    ParseResult { nodes: vec![node], edges: vec![], call_sites: Some(vec![]) }
}

#[test]
fn cache_store_then_fresh_while_unchanged() {
    let mut cache = ParseCache::in_memory_only();
    let path = "/tmp/prog.rs".to_string();
    let result = sample_result();

    // nothing stored yet: the file needs parsing
    assert!(cache.needs_update(&path, 100, 10));

    cache.store(&path, &result, 100, 10);

    // unchanged metadata: no reparse needed
    assert!(!cache.needs_update(&path, 100, 10));
}

#[test]
fn cache_round_trip_returns_stored_result() {
    let mut cache = ParseCache::in_memory_only();
    let path = "/tmp/prog.rs".to_string();
    let result = sample_result();

    assert!(cache.get(&path).is_none());
    cache.store(&path, &result, 100, 10);

    let got = cache.get(&path).unwrap();
    assert_eq!(got.nodes.len(), 1);
    assert_eq!(got.nodes[0].id, result.nodes[0].id);
    assert_eq!(got.nodes[0].name, result.nodes[0].name);
    assert_eq!(got.edges.len(), 0);
    assert_eq!(got.call_sites.unwrap().len(), 0);
}

#[test]
fn cache_detects_changed_metadata() {
    let mut cache = ParseCache::in_memory_only();
    let path = "/tmp/prog.rs".to_string();
    let result = sample_result();

    cache.store(&path, &result, 100, 10);
    assert!(!cache.needs_update(&path, 100, 10));

    // a different size, a different timestamp, or both, all mean stale
    assert!(cache.needs_update(&path, 100, 20));
    assert!(cache.needs_update(&path, 200, 10));
    assert!(cache.needs_update(&path, 200, 20));
}

#[test]
fn cache_clear_forgets_everything() {
    let mut cache = ParseCache::in_memory_only();
    let path = "/tmp/prog.rs".to_string();
    cache.store(&path, &sample_result(), 100, 10);
    assert!(cache.get(&path).is_some());

    cache.clear();
    assert!(cache.get(&path).is_none());
    assert!(cache.needs_update(&path, 100, 10));
    assert_eq!(cache.stats().memory_entries, 0);
}

#[test]
fn cache_eviction_keeps_the_bound() {
    let mut cache = ParseCache::in_memory_only();
    let result = sample_result();
    let mut i: usize = 0;
    while i < 1001 {
        let path = format!("/tmp/file_{}.rs", i);
        cache.store(&path, &result, i as u64, 1);
        i += 1;
    }
    let stats = cache.stats();
    assert_eq!(stats.memory_entries, 1000);
    assert_eq!(stats.disk_cache_size, 0);
}
