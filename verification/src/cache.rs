//! The in-memory tier of the parse cache: per-path parse results validated
//! by the file's modification time and byte size.
//!
//! A stored entry is valid only while both the timestamp and the size it was
//! stored under match the file's current metadata; any mismatch, or the
//! absence of an entry, means the file needs reparsing. The memory tier is
//! bounded; storing into a full cache first evicts one arbitrary entry.

use vstd::prelude::*;

use crate::graph::{Edge, Node};
use crate::parse::ParseResult;
use crate::resolver::CallSite;

verus! {

/// The unit the cache persists for one file: the parse result plus the
/// metadata it is valid under.
#[derive(Debug, Clone)]
pub struct ParsedFileEntry {
    pub nodes: Vec<Node>,
    pub edges: Vec<Edge>,
    pub call_sites: Option<Vec<CallSite>>,
    pub timestamp: u64,
    pub file_size: u64,
}

/// How many entries the memory tier holds at most, by default.
pub const DEFAULT_MAX_MEMORY_ENTRIES: usize = 1000;

/// Counters describing the cache: its memory-tier entries, and the entries a
/// disk tier holds when one is attached (always zero for the bare memory
/// tier).
#[derive(Debug)]
pub struct CacheStats {
    pub memory_entries: usize,
    pub disk_cache_size: usize,
}

/// Declares dashmap's `DashMap` so it can stand in a field; its contents are
/// reached only through the trusted accessors below.
#[verifier::external_type_specification]
#[verifier::external_body]
#[verifier::reject_recursive_types(K)]
#[verifier::reject_recursive_types(V)]
#[verifier::reject_recursive_types(S)]
pub struct ExDashMap<K, V, S>(dashmap::DashMap<K, V, S>);

/// The thread-safe map backing the memory tier.
pub struct MemoryStore {
    inner: dashmap::DashMap<String, ParsedFileEntry, std::hash::RandomState>,
}

/// The view of a stored entry: the parse result's contents as sequences,
/// with the metadata it is valid under.
pub struct EntryModel {
    pub nodes: Seq<Node>,
    pub edges: Seq<Edge>,
    pub call_sites: Option<Seq<CallSite>>,
    pub timestamp: u64,
    pub file_size: u64,
}

/// The view of a parse result as sequences.
pub struct ParseResultModel {
    pub nodes: Seq<Node>,
    pub edges: Seq<Edge>,
    pub call_sites: Option<Seq<CallSite>>,
}

pub open spec fn opt_sites_view(o: Option<Vec<CallSite>>) -> Option<Seq<CallSite>> {
    match o {
        Some(v) => Some(v@),
        None => None,
    }
}

/// The view of a stored entry.
pub open spec fn pfe_model(e: ParsedFileEntry) -> EntryModel {
    EntryModel {
        nodes: e.nodes@,
        edges: e.edges@,
        call_sites: opt_sites_view(e.call_sites),
        timestamp: e.timestamp,
        file_size: e.file_size,
    }
}

/// The view of a parse result.
pub open spec fn pr_model(r: ParseResult) -> ParseResultModel {
    ParseResultModel {
        nodes: r.nodes@,
        edges: r.edges@,
        call_sites: opt_sites_view(r.call_sites),
    }
}

pub open spec fn opt_pr_model(r: Option<ParseResult>) -> Option<ParseResultModel> {
    match r {
        Some(p) => Some(pr_model(p)),
        None => None,
    }
}

/// The entries the memory store holds, keyed by path.
pub uninterp spec fn store_contents(m: &MemoryStore) -> Map<Seq<char>, EntryModel>;

/// The contents of a store holding nothing.
pub open spec fn no_entries() -> Map<Seq<char>, EntryModel> {
    Map::empty()
}

impl MemoryStore {
    /// Relies on dashmap's `DashMap::with_capacity_and_hasher`: an empty map.
    #[verifier::external_body]
    fn new(capacity: usize) -> (r: Self)
        ensures
            store_contents(&r) == no_entries(),
            store_contents(&r).dom().finite(),
    {
        MemoryStore {
            inner: dashmap::DashMap::with_capacity_and_hasher(
                capacity,
                std::hash::RandomState::new(),
            ),
        }
    }

    /// Relies on dashmap's `DashMap::len`: the number of stored entries.
    #[verifier::external_body]
    fn len(&self) -> (r: usize)
        ensures
            r == store_contents(self).len(),
    {
        self.inner.len()
    }

    /// Relies on dashmap's `DashMap::get`: the entry stored under the key,
    /// exactly when one is stored; the body hands out a copy of it.
    #[verifier::external_body]
    fn get(&self, path: &String) -> (r: Option<ParsedFileEntry>)
        ensures
            match r {
                Some(e) => store_contents(self).contains_key(path@) && pfe_model(e)
                    == store_contents(self)[path@],
                None => !store_contents(self).contains_key(path@),
            },
    {
        self.inner.get(path).map(|e| e.value().clone())
    }

    /// Relies on dashmap's `DashMap::insert`: binds the key to the entry,
    /// replacing any earlier binding.
    #[verifier::external_body]
    fn insert(&mut self, path: String, entry: ParsedFileEntry)
        ensures
            store_contents(final (self)) == store_contents(old(self)).insert(path@, pfe_model(entry)),
            store_contents(old(self)).dom().finite() ==> store_contents(
                final (self),
            ).dom().finite(),
    {
        self.inner.insert(path, entry);
    }

    /// Relies on dashmap's `DashMap::iter` and `DashMap::remove`: removes one
    /// arbitrary entry from a non-empty map, and nothing from an empty one.
    #[verifier::external_body]
    fn evict_one(&mut self)
        ensures
            store_contents(old(self)).len() > 0 ==> exists|k: Seq<char>|
                store_contents(old(self)).dom().contains(k) && store_contents(final (self))
                    == store_contents(old(self)).remove(k),
            store_contents(old(self)).len() == 0 ==> store_contents(final (self))
                == store_contents(old(self)),
            store_contents(old(self)).dom().finite() ==> store_contents(
                final (self),
            ).dom().finite(),
    {
        let key = self.inner.iter().next().map(|e| e.key().clone());
        if let Some(key) = key {
            self.inner.remove(&key);
        }
    }

    /// Relies on dashmap's `DashMap::clear`: removes every entry.
    #[verifier::external_body]
    fn clear(&mut self)
        ensures
            store_contents(final (self)) == no_entries(),
            store_contents(final (self)).dom().finite(),
    {
        self.inner.clear();
    }
}

/// Duplicates a node list, element by element.
fn clone_nodes(v: &Vec<Node>) -> (r: Vec<Node>)
    ensures
        r@ == v@,
{
    let mut r: Vec<Node> = Vec::new();
    let mut i: usize = 0;
    while i < v.len()
        invariant
            i <= v@.len(),
            r@ == v@.take(i as int),
        decreases v@.len() - i,
    {
        r.push(v[i].duplicate());
        i = i + 1;
        proof {
            assert(r@ =~= v@.take(i as int));
        }
    }
    proof {
        assert(r@ =~= v@);
    }
    r
}

/// Duplicates an edge list, element by element.
fn clone_edges(v: &Vec<Edge>) -> (r: Vec<Edge>)
    ensures
        r@ == v@,
{
    let mut r: Vec<Edge> = Vec::new();
    let mut i: usize = 0;
    while i < v.len()
        invariant
            i <= v@.len(),
            r@ == v@.take(i as int),
        decreases v@.len() - i,
    {
        r.push(v[i].duplicate());
        i = i + 1;
        proof {
            assert(r@ =~= v@.take(i as int));
        }
    }
    proof {
        assert(r@ =~= v@);
    }
    r
}

/// Duplicates an optional call-site list, element by element.
fn clone_call_sites(v: &Option<Vec<CallSite>>) -> (r: Option<Vec<CallSite>>)
    ensures
        opt_sites_view(r) == opt_sites_view(*v),
{
    match v {
        Some(sites) => {
            let mut r: Vec<CallSite> = Vec::new();
            let mut i: usize = 0;
            while i < sites.len()
                invariant
                    i <= sites@.len(),
                    r@ == sites@.take(i as int),
                decreases sites@.len() - i,
            {
                r.push(sites[i].duplicate());
                i = i + 1;
                proof {
                    assert(r@ =~= sites@.take(i as int));
                }
            }
            proof {
                assert(r@ =~= sites@);
            }
            Some(r)
        },
        None => None,
    }
}

/// The entry that caching `result` under the given metadata stores.
pub open spec fn entry_of(result: ParseResult, timestamp: u64, file_size: u64) -> EntryModel {
    EntryModel {
        nodes: result.nodes@,
        edges: result.edges@,
        call_sites: opt_sites_view(result.call_sites),
        timestamp,
        file_size,
    }
}

/// Whether a file must be reparsed given the cache contents and the file's
/// current metadata: there is no entry for it, or the stored metadata
/// differs.
pub open spec fn needs_update_spec(
    m: Map<Seq<char>, EntryModel>,
    path: Seq<char>,
    timestamp: u64,
    file_size: u64,
) -> bool {
    if m.contains_key(path) {
        m[path].timestamp != timestamp || m[path].file_size != file_size
    } else {
        true
    }
}

/// The parse result the cache returns for a path, if any.
pub open spec fn get_spec(m: Map<Seq<char>, EntryModel>, path: Seq<char>) -> Option<
    ParseResultModel,
> {
    if m.contains_key(path) {
        Some(
            ParseResultModel {
                nodes: m[path].nodes,
                edges: m[path].edges,
                call_sites: m[path].call_sites,
            },
        )
    } else {
        None
    }
}

/// How storing relates the old and new cache contents: the entry is bound to
/// the path, after one arbitrary entry was evicted if the cache was full.
pub open spec fn store_post(
    m0: Map<Seq<char>, EntryModel>,
    m1: Map<Seq<char>, EntryModel>,
    path: Seq<char>,
    e: EntryModel,
    capacity: nat,
) -> bool {
    if m0.len() >= capacity {
        exists|k: Seq<char>| m0.dom().contains(k) && m1 == m0.remove(k).insert(path, e)
    } else {
        m1 == m0.insert(path, e)
    }
}

/// The bounded in-memory parse cache.
pub struct ParseCache {
    memory_cache: MemoryStore,
    max_memory_entries: usize,
}

impl ParseCache {
    /// The cached entries, keyed by file path.
    pub closed spec fn view(&self) -> Map<Seq<char>, EntryModel> {
        store_contents(&self.memory_cache)
    }

    /// The bound on the memory tier.
    pub closed spec fn capacity(&self) -> nat {
        self.max_memory_entries as nat
    }

    /// Well-formedness: the contents are a finite map and the bound admits
    /// at least one entry.
    pub closed spec fn inv(&self) -> bool {
        self@.dom().finite() && self.max_memory_entries >= 1
    }

    /// An empty cache bounded at the default entry count, touching no
    /// filesystem.
    pub fn in_memory_only() -> (r: Self)
        ensures
            r.inv(),
            r@ == no_entries(),
            r.capacity() == DEFAULT_MAX_MEMORY_ENTRIES,
    {
        ParseCache {
            memory_cache: MemoryStore::new(DEFAULT_MAX_MEMORY_ENTRIES),
            max_memory_entries: DEFAULT_MAX_MEMORY_ENTRIES,
        }
    }

    /// Whether the file must be reparsed, given its current metadata, as
    /// `needs_update_spec` describes.
    pub fn needs_update(&self, file_path: &String, timestamp: u64, file_size: u64) -> (r: bool)
        requires
            self.inv(),
        ensures
            r == needs_update_spec(self@, file_path@, timestamp, file_size),
    {
        match self.memory_cache.get(file_path) {
            Some(entry) => entry.timestamp != timestamp || entry.file_size != file_size,
            None => true,
        }
    }

    /// The cached parse result for the path, structurally equal to what was
    /// stored, as `get_spec` describes.
    pub fn get(&self, file_path: &String) -> (r: Option<ParseResult>)
        requires
            self.inv(),
        ensures
            opt_pr_model(r) == get_spec(self@, file_path@),
    {
        match self.memory_cache.get(file_path) {
            Some(entry) => Some(
                ParseResult {
                    nodes: clone_nodes(&entry.nodes),
                    edges: clone_edges(&entry.edges),
                    call_sites: clone_call_sites(&entry.call_sites),
                },
            ),
            None => None,
        }
    }

    /// Stores the parse result for the path under the given metadata,
    /// evicting one arbitrary entry first when the cache is full, as
    /// `store_post` describes.
    pub fn store(&mut self, file_path: &String, result: &ParseResult, timestamp: u64, file_size: u64)
        requires
            old(self).inv(),
        ensures
            final (self).inv(),
            final (self).capacity() == old(self).capacity(),
            store_post(
                old(self)@,
                final (self)@,
                file_path@,
                entry_of(*result, timestamp, file_size),
                old(self).capacity(),
            ),
    {
        let entry = ParsedFileEntry {
            nodes: clone_nodes(&result.nodes),
            edges: clone_edges(&result.edges),
            call_sites: clone_call_sites(&result.call_sites),
            timestamp,
            file_size,
        };
        proof {
            assert(pfe_model(entry) == entry_of(*result, timestamp, file_size));
        }
        let ghost m0 = self@;
        let full = self.memory_cache.len() >= self.max_memory_entries;
        if full {
            self.memory_cache.evict_one();
        }
        let ghost mid = self@;
        self.memory_cache.insert(file_path.clone(), entry);
        proof {
            if full {
                let k = choose|k: Seq<char>|
                    m0.dom().contains(k) && mid == m0.remove(k);
                assert(m0.dom().contains(k) && self@ == m0.remove(k).insert(
                    file_path@,
                    entry_of(*result, timestamp, file_size),
                ));
            }
        }
    }

    /// Empties the cache.
    pub fn clear(&mut self)
        requires
            old(self).inv(),
        ensures
            final (self).inv(),
            final (self)@ == no_entries(),
            final (self).capacity() == old(self).capacity(),
    {
        self.memory_cache.clear();
    }

    /// The cache's counters; the bare memory tier has no disk entries.
    pub fn stats(&self) -> (r: CacheStats)
        requires
            self.inv(),
        ensures
            r.memory_entries == self@.len(),
            r.disk_cache_size == 0,
    {
        CacheStats { memory_entries: self.memory_cache.len(), disk_cache_size: 0 }
    }
}

/// Law: storing a result and then asking whether the file changed, while its
/// metadata still matches what was stored, reports that no reparse is
/// needed.
pub proof fn lemma_store_then_fresh(
    m0: Map<Seq<char>, EntryModel>,
    m1: Map<Seq<char>, EntryModel>,
    path: Seq<char>,
    e: EntryModel,
    capacity: nat,
)
    requires
        store_post(m0, m1, path, e, capacity),
    ensures
        needs_update_spec(m1, path, e.timestamp, e.file_size) == false,
{
    if m0.len() >= capacity {
        let k = choose|k: Seq<char>|
            m0.dom().contains(k) && m1 == m0.remove(k).insert(path, e);
        assert(m1.contains_key(path) && m1[path] == e);
    } else {
        assert(m1.contains_key(path) && m1[path] == e);
    }
}

/// Law: reading a path right after storing a result for it returns nodes,
/// edges and call sites structurally equal to what was stored.
pub proof fn lemma_store_then_get(
    m0: Map<Seq<char>, EntryModel>,
    m1: Map<Seq<char>, EntryModel>,
    path: Seq<char>,
    result: ParseResult,
    timestamp: u64,
    file_size: u64,
    capacity: nat,
)
    requires
        store_post(m0, m1, path, entry_of(result, timestamp, file_size), capacity),
    ensures
        get_spec(m1, path) == Some(pr_model(result)),
{
    let e = entry_of(result, timestamp, file_size);
    if m0.len() >= capacity {
        let k = choose|k: Seq<char>|
            m0.dom().contains(k) && m1 == m0.remove(k).insert(path, e);
        assert(m1.contains_key(path) && m1[path] == e);
    } else {
        assert(m1.contains_key(path) && m1[path] == e);
    }
}

/// Law: after a store, metadata that differs from what was stored in its
/// timestamp or its size makes the file need reparsing again.
pub proof fn lemma_store_then_stale(
    m0: Map<Seq<char>, EntryModel>,
    m1: Map<Seq<char>, EntryModel>,
    path: Seq<char>,
    e: EntryModel,
    capacity: nat,
    new_timestamp: u64,
    new_file_size: u64,
)
    requires
        store_post(m0, m1, path, e, capacity),
        new_timestamp != e.timestamp || new_file_size != e.file_size,
    ensures
        needs_update_spec(m1, path, new_timestamp, new_file_size) == true,
{
    if m0.len() >= capacity {
        let k = choose|k: Seq<char>|
            m0.dom().contains(k) && m1 == m0.remove(k).insert(path, e);
        assert(m1.contains_key(path) && m1[path] == e);
    } else {
        assert(m1.contains_key(path) && m1[path] == e);
    }
}

} // verus!
