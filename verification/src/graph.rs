//! Graph data model: typed nodes and edges, the petgraph-backed dependency
//! graph, and the incremental builder that resolves string ids to graph
//! indices.

use vstd::prelude::*;

use crate::strmap::StrMap;

verus! {

/// Classification of a code entity.
#[derive(Debug, Clone, Copy, PartialEq, Eq, Hash, Structural)]
pub enum NodeType {
    Module,
    Class,
    Function,
    Variable,
    Interface,
    Enum,
}

/// Classification of a relationship between two entities.
#[derive(Debug, Clone, Copy, PartialEq, Eq, Hash, Structural)]
pub enum EdgeType {
    Import,
    Call,
    Inheritance,
    Implements,
    Uses,
    Contains,
}

/// A code entity. The `id` is globally unique within one analysis run and has
/// the shape `path:type:name:line`.
#[derive(Debug, Clone)]
pub struct Node {
    pub id: String,
    pub name: String,
    pub node_type: NodeType,
    pub file_path: String,
    pub line_number: usize,
    pub language: String,
    pub signature: Option<String>,
    pub docstring: Option<String>,
    pub visibility: Option<String>,
}

/// A relationship between two entities, referring to them by id.
#[derive(Debug, Clone)]
pub struct Edge {
    pub edge_type: EdgeType,
    pub source_id: String,
    pub target_id: String,
    pub context: Option<String>,
}

impl Node {
    /// Builds a node with the three optional fields absent.
    pub fn new(
        id: String,
        name: String,
        node_type: NodeType,
        file_path: String,
        line_number: usize,
        language: String,
    ) -> (r: Self)
        ensures
            r.id == id,
            r.name == name,
            r.node_type == node_type,
            r.file_path == file_path,
            r.line_number == line_number,
            r.language == language,
            r.signature is None,
            r.docstring is None,
            r.visibility is None,
    {
        Self {
            id,
            name,
            node_type,
            file_path,
            line_number,
            language,
            signature: None,
            docstring: None,
            visibility: None,
        }
    }

    /// Sets the signature, keeping every other field.
    pub fn with_signature(self, signature: String) -> (r: Self)
        ensures
            r == (Self { signature: Some(signature), ..self }),
    {
        Self { signature: Some(signature), ..self }
    }

    /// Sets the docstring, keeping every other field.
    pub fn with_docstring(self, docstring: String) -> (r: Self)
        ensures
            r == (Self { docstring: Some(docstring), ..self }),
    {
        Self { docstring: Some(docstring), ..self }
    }

    /// Sets the visibility, keeping every other field.
    pub fn with_visibility(self, visibility: String) -> (r: Self)
        ensures
            r == (Self { visibility: Some(visibility), ..self }),
    {
        Self { visibility: Some(visibility), ..self }
    }

    /// Duplicates the node, field by field.
    pub fn duplicate(&self) -> (r: Self)
        ensures
            r == *self,
    {
        Node {
            id: self.id.clone(),
            name: self.name.clone(),
            node_type: self.node_type,
            file_path: self.file_path.clone(),
            line_number: self.line_number,
            language: self.language.clone(),
            signature: crate::text::clone_opt_string(&self.signature),
            docstring: crate::text::clone_opt_string(&self.docstring),
            visibility: crate::text::clone_opt_string(&self.visibility),
        }
    }
}

impl Edge {
    /// Builds an edge with no context.
    pub fn new(edge_type: EdgeType, source_id: String, target_id: String) -> (r: Self)
        ensures
            r.edge_type == edge_type,
            r.source_id == source_id,
            r.target_id == target_id,
            r.context is None,
    {
        Self { edge_type, source_id, target_id, context: None }
    }

    /// Sets the context, keeping every other field.
    pub fn with_context(self, context: String) -> (r: Self)
        ensures
            r == (Self { context: Some(context), ..self }),
    {
        Self { context: Some(context), ..self }
    }

    /// Duplicates the edge, field by field.
    pub fn duplicate(&self) -> (r: Self)
        ensures
            r == *self,
    {
        Edge {
            edge_type: self.edge_type,
            source_id: self.source_id.clone(),
            target_id: self.target_id.clone(),
            context: crate::text::clone_opt_string(&self.context),
        }
    }
}

/// Declares petgraph's `Graph` so it can stand in a field; its contents are
/// reached only through the trusted accessors below.
#[verifier::external_type_specification]
#[verifier::external_body]
#[verifier::reject_recursive_types(N)]
#[verifier::reject_recursive_types(E)]
#[verifier::reject_recursive_types(Ty)]
#[verifier::reject_recursive_types(Ix)]
pub struct ExGraph<N, E, Ty, Ix>(petgraph::graph::Graph<N, E, Ty, Ix>);

/// Declares petgraph's `Directed` edge-type marker.
#[verifier::external_type_specification]
#[verifier::external_body]
pub struct ExDirected(petgraph::Directed);

/// Graphs backed by a 32-bit index type refuse to grow past this many nodes
/// or edges.
pub const GRAPH_INDEX_LIMIT: usize = 0xFFFF_FFFF;

/// The finished dependency graph: nodes and typed edges, immutable once
/// built.
pub struct DependencyGraph {
    inner: petgraph::graph::Graph<Node, Edge, petgraph::Directed, u32>,
}

/// The nodes stored in the graph's petgraph storage, in insertion order.
pub uninterp spec fn graph_nodes(g: &DependencyGraph) -> Seq<Node>;

/// The edges stored in the graph's petgraph storage, in insertion order,
/// each as (source index, target index, weight).
pub uninterp spec fn graph_edges(g: &DependencyGraph) -> Seq<(usize, usize, Edge)>;

impl DependencyGraph {
    /// The stored nodes, in insertion order.
    pub open spec fn nodes(&self) -> Seq<Node> {
        graph_nodes(self)
    }

    /// The stored edges, in insertion order.
    pub open spec fn edges(&self) -> Seq<(usize, usize, Edge)> {
        graph_edges(self)
    }

    /// Relies on petgraph's `Graph::new`: an empty graph.
    #[verifier::external_body]
    pub(crate) fn new_empty() -> (r: Self)
        ensures
            graph_nodes(&r) == Seq::<Node>::empty(),
            graph_edges(&r) == Seq::<(usize, usize, Edge)>::empty(),
    {
        DependencyGraph { inner: petgraph::graph::Graph::new() }
    }

    /// Relies on petgraph's `Graph::add_node`: appends a node and returns its
    /// index; it panics only at the index-type limit, which the caller rules
    /// out.
    #[verifier::external_body]
    pub(crate) fn push_node(&mut self, node: Node) -> (i: usize)
        requires
            old(self).nodes().len() < GRAPH_INDEX_LIMIT,
        ensures
            graph_nodes(final (self)) == graph_nodes(old(self)).push(node),
            graph_edges(final (self)) == graph_edges(old(self)),
            i == graph_nodes(old(self)).len(),
    {
        self.inner.add_node(node).index()
    }

    /// Relies on petgraph's `Graph::add_edge`: appends an edge between two
    /// existing node indices and returns its index; it panics only on an
    /// absent endpoint or at the index-type limit, which the caller rules
    /// out.
    #[verifier::external_body]
    pub(crate) fn push_edge(&mut self, source: usize, target: usize, edge: Edge) -> (i: usize)
        requires
            source < old(self).nodes().len(),
            target < old(self).nodes().len(),
            old(self).edges().len() < GRAPH_INDEX_LIMIT,
        ensures
            graph_nodes(final (self)) == graph_nodes(old(self)),
            graph_edges(final (self)) == graph_edges(old(self)).push((source, target, edge)),
            i == graph_edges(old(self)).len(),
    {
        self.inner.add_edge(
            petgraph::graph::NodeIndex::new(source),
            petgraph::graph::NodeIndex::new(target),
            edge,
        ).index()
    }

    /// Relies on petgraph's `Graph::node_count`: the number of stored nodes.
    /// The 32-bit-indexed storage never holds more than `GRAPH_INDEX_LIMIT`
    /// nodes: growing past the index sentinel is refused, and this graph is
    /// only ever grown through `push_node`.
    #[verifier::external_body]
    pub fn node_count(&self) -> (r: usize)
        ensures
            r == graph_nodes(self).len(),
            r <= GRAPH_INDEX_LIMIT,
    {
        self.inner.node_count()
    }

    /// Relies on petgraph's `Graph::edge_count`: the number of stored edges.
    /// The 32-bit-indexed storage never holds more than `GRAPH_INDEX_LIMIT`
    /// edges: growing past the index sentinel is refused, and this graph is
    /// only ever grown through `push_edge`.
    #[verifier::external_body]
    pub fn edge_count(&self) -> (r: usize)
        ensures
            r == graph_edges(self).len(),
            r <= GRAPH_INDEX_LIMIT,
    {
        self.inner.edge_count()
    }

    /// Relies on petgraph's `Graph::node_weight`: the node stored at an
    /// index, present exactly for indices below the node count. The bound on
    /// `i` keeps it inside the 32-bit index space, where building the
    /// petgraph index loses nothing.
    #[verifier::external_body]
    pub fn node_weight(&self, i: usize) -> (r: Option<&Node>)
        requires
            i <= GRAPH_INDEX_LIMIT,
        ensures
            match r {
                Some(n) => i < graph_nodes(self).len() && *n == graph_nodes(self)[i as int],
                None => i >= graph_nodes(self).len(),
            },
    {
        self.inner.node_weight(petgraph::graph::NodeIndex::new(i)).map(|n| n)
    }

    /// Relies on petgraph's `Graph::edge_endpoints`: the source and target
    /// indices of the edge stored at an index. The bound on `i` keeps it
    /// inside the 32-bit index space, where building the petgraph index
    /// loses nothing.
    #[verifier::external_body]
    pub fn edge_endpoints(&self, i: usize) -> (r: Option<(usize, usize)>)
        requires
            i <= GRAPH_INDEX_LIMIT,
        ensures
            match r {
                Some(p) => i < graph_edges(self).len() && p.0 == graph_edges(self)[i as int].0
                    && p.1 == graph_edges(self)[i as int].1,
                None => i >= graph_edges(self).len(),
            },
    {
        self.inner.edge_endpoints(petgraph::graph::EdgeIndex::new(i)).map(
            |p| (p.0.index(), p.1.index()),
        )
    }

    /// Relies on petgraph's `Graph::edge_weight`: the edge value stored at an
    /// index. The bound on `i` keeps it inside the 32-bit index space, where
    /// building the petgraph index loses nothing.
    #[verifier::external_body]
    pub fn edge_weight(&self, i: usize) -> (r: Option<&Edge>)
        requires
            i <= GRAPH_INDEX_LIMIT,
        ensures
            match r {
                Some(e) => i < graph_edges(self).len() && *e == graph_edges(self)[i as int].2,
                None => i >= graph_edges(self).len(),
            },
    {
        self.inner.edge_weight(petgraph::graph::EdgeIndex::new(i))
    }
}

/// Accumulates nodes and edges, indexing nodes by their string id; `build`
/// freezes it into the final graph.
pub struct GraphBuilder {
    graph: DependencyGraph,
    node_map: StrMap<usize>,
}

impl GraphBuilder {
    /// The nodes stored so far, in insertion order. Every `add_node` call
    /// appends one node, so this also counts the inserts.
    pub closed spec fn nodes(&self) -> Seq<Node> {
        self.graph.nodes()
    }

    /// The edges stored so far, each as (source index, target index, value).
    pub closed spec fn edges(&self) -> Seq<(usize, usize, Edge)> {
        self.graph.edges()
    }

    /// The id index: the graph index of the last node inserted under each id.
    pub closed spec fn ids(&self) -> Map<Seq<char>, usize> {
        self.node_map@
    }

    /// Well-formedness: the id index is a valid map and points into the
    /// stored nodes.
    pub closed spec fn inv(&self) -> bool {
        &&& self.node_map.inv()
        &&& forall|k: Seq<char>|
            self.ids().contains_key(k) ==> (#[trigger] self.ids()[k]) < self.nodes().len()
    }

    /// An empty builder.
    pub fn new() -> (r: Self)
        ensures
            r.inv(),
            r.nodes() == Seq::<Node>::empty(),
            r.edges() == Seq::<(usize, usize, Edge)>::empty(),
            r.ids() == Map::<Seq<char>, usize>::empty(),
    {
        GraphBuilder { graph: DependencyGraph::new_empty(), node_map: StrMap::new() }
    }

    /// Stores the node and points the id index at it; an id seen before is
    /// re-pointed while its older node stays stored. Returns the new node's
    /// index.
    pub fn add_node(&mut self, node: Node) -> (i: usize)
        requires
            old(self).inv(),
            old(self).nodes().len() < GRAPH_INDEX_LIMIT,
        ensures
            final (self).inv(),
            final (self).nodes() == old(self).nodes().push(node),
            final (self).edges() == old(self).edges(),
            final (self).ids() == old(self).ids().insert(node.id@, old(self).nodes().len() as usize),
            (final (self).nodes(), final (self).ids()) == insert_step(
                (old(self).nodes(), old(self).ids()),
                node,
            ),
            i == old(self).nodes().len(),
    {
        let id = node.id.clone();
        let index = self.graph.push_node(node);
        self.node_map.insert(id, index);
        proof {
            assert forall|k: Seq<char>| self.ids().contains_key(k) implies (
            #[trigger] self.ids()[k]) < self.nodes().len() by {
                if k != node.id@ {
                    assert(old(self).ids().contains_key(k));
                    assert(self.ids()[k] == old(self).ids()[k]);
                }
            }
        }
        index
    }

    /// Appends an edge when both endpoint ids are indexed, and reports
    /// whether it was added: `None` exactly when `source_id` or `target_id`
    /// is absent from the id index.
    pub fn add_edge(&mut self, edge: Edge) -> (r: Option<usize>)
        requires
            old(self).inv(),
            old(self).edges().len() < GRAPH_INDEX_LIMIT,
        ensures
            final (self).inv(),
            final (self).nodes() == old(self).nodes(),
            final (self).ids() == old(self).ids(),
            r is Some <==> (old(self).ids().contains_key(edge.source_id@) && old(self).ids().contains_key(
                edge.target_id@,
            )),
            r is Some ==> final (self).edges() == old(self).edges().push(
                (old(self).ids()[edge.source_id@], old(self).ids()[edge.target_id@], edge),
            ) && r == Some(old(self).edges().len() as usize),
            r is None ==> final (self).edges() == old(self).edges(),
    {
        let source_idx = match self.node_map.get(edge.source_id.as_str()) {
            Some(i) => *i,
            None => {
                return None;
            },
        };
        let target_idx = match self.node_map.get(edge.target_id.as_str()) {
            Some(i) => *i,
            None => {
                return None;
            },
        };
        Some(self.graph.push_edge(source_idx, target_idx, edge))
    }

    /// Freezes the builder into the final immutable graph.
    pub fn build(self) -> (g: DependencyGraph)
        ensures
            g.nodes() == self.nodes(),
            g.edges() == self.edges(),
    {
        self.graph
    }

    /// The index the id index currently assigns to `id`, if any.
    pub fn get_node_index(&self, id: &str) -> (r: Option<usize>)
        requires
            self.inv(),
        ensures
            match r {
                Some(i) => self.ids().contains_key(id@) && i == self.ids()[id@],
                None => !self.ids().contains_key(id@),
            },
    {
        match self.node_map.get(id) {
            Some(i) => Some(*i),
            None => None,
        }
    }
}

/// One `add_node` step, at the level of the builder's view: the node is
/// appended and its id is pointed at the new index.
pub open spec fn insert_step(
    st: (Seq<Node>, Map<Seq<char>, usize>),
    node: Node,
) -> (Seq<Node>, Map<Seq<char>, usize>) {
    (st.0.push(node), st.1.insert(node.id@, st.0.len() as usize))
}

/// The builder's view after inserting each node of `ns` in order into the
/// state `st`.
pub open spec fn run_inserts(
    st: (Seq<Node>, Map<Seq<char>, usize>),
    ns: Seq<Node>,
) -> (Seq<Node>, Map<Seq<char>, usize>)
    decreases ns.len(),
{
    if ns.len() == 0 {
        st
    } else {
        insert_step(run_inserts(st, ns.drop_last()), ns.last())
    }
}

/// Law: inserting `ns` into an empty builder stores exactly one node per
/// insert, while the id index holds one entry per distinct id, so the stored
/// node count never falls below it; when the ids are pairwise distinct the
/// two counts agree.
pub proof fn lemma_builder_counts(ns: Seq<Node>)
    ensures
        run_inserts((Seq::<Node>::empty(), Map::<Seq<char>, usize>::empty()), ns).0 == ns,
        run_inserts((Seq::<Node>::empty(), Map::<Seq<char>, usize>::empty()), ns).1.dom().finite(),
        run_inserts((Seq::<Node>::empty(), Map::<Seq<char>, usize>::empty()), ns).1.len()
            <= ns.len(),
        (forall|i: int, j: int| 0 <= i < j < ns.len() ==> ns[i].id@ != ns[j].id@) ==> run_inserts(
            (Seq::<Node>::empty(), Map::<Seq<char>, usize>::empty()),
            ns,
        ).1.len() == ns.len(),
    decreases ns.len(),
{
    let st0 = (Seq::<Node>::empty(), Map::<Seq<char>, usize>::empty());
    if ns.len() == 0 {
        assert(run_inserts(st0, ns).0 =~= ns);
    } else {
        lemma_builder_counts(ns.drop_last());
        let prev = run_inserts(st0, ns.drop_last());
        assert(run_inserts(st0, ns).0 =~= ns);
        let k = ns.last().id@;
        assert(run_inserts(st0, ns).1.dom() =~= prev.1.dom().insert(k));
        vstd::set::axiom_set_insert_len(prev.1.dom(), k);
        if forall|i: int, j: int| 0 <= i < j < ns.len() ==> ns[i].id@ != ns[j].id@ {
            assert(forall|i: int, j: int|
                0 <= i < j < ns.drop_last().len() ==> ns.drop_last()[i].id@
                    != ns.drop_last()[j].id@);
            lemma_ids_after_contains(ns.drop_last(), k);
            assert(forall|i: int| 0 <= i < ns.len() - 1 ==> ns[i].id@ != k);
            assert(!prev.1.contains_key(k));
        }
    }
}

/// Law: re-inserting a node under an already-indexed id still appends it —
/// the stale duplicate stays stored, so the stored count never drops — while
/// the index is re-pointed at the new node and no other entry changes.
pub proof fn lemma_duplicate_id_insert(st: (Seq<Node>, Map<Seq<char>, usize>), node: Node)
    requires
        st.1.contains_key(node.id@),
    ensures
        insert_step(st, node).0.len() == st.0.len() + 1,
        insert_step(st, node).1[node.id@] == st.0.len() as usize,
        insert_step(st, node).1.dom() == st.1.dom(),
        forall|k: Seq<char>|
            st.1.contains_key(k) && k != node.id@ ==> insert_step(st, node).1[k] == st.1[k],
{
    assert(insert_step(st, node).1.dom() =~= st.1.dom());
}

/// After inserting `ns` into an empty builder, the id index holds exactly
/// the ids of `ns`.
pub proof fn lemma_ids_after_contains(ns: Seq<Node>, k: Seq<char>)
    ensures
        run_inserts((Seq::<Node>::empty(), Map::<Seq<char>, usize>::empty()), ns).1.contains_key(k)
            <==> exists|i: int| 0 <= i < ns.len() && ns[i].id@ == k,
    decreases ns.len(),
{
    let st0 = (Seq::<Node>::empty(), Map::<Seq<char>, usize>::empty());
    if ns.len() == 0 {
    } else {
        lemma_ids_after_contains(ns.drop_last(), k);
        if run_inserts(st0, ns).1.contains_key(k) {
            if ns.last().id@ == k {
                assert(ns[ns.len() - 1].id@ == k);
            } else {
                let i = choose|i: int|
                    0 <= i < ns.drop_last().len() && ns.drop_last()[i].id@ == k;
                assert(ns[i].id@ == k);
            }
        }
        if exists|i: int| 0 <= i < ns.len() && ns[i].id@ == k {
            let i = choose|i: int| 0 <= i < ns.len() && ns[i].id@ == k;
            if i < ns.len() - 1 {
                assert(ns.drop_last()[i].id@ == k);
            }
        }
    }
}

} // verus!
