//! The assembly pipeline: per-file parse results are merged into one graph
//! builder, the resolver indexes are built once over every accumulated node,
//! all call sites are resolved, and the resulting `Call` edges are merged
//! back before the graph is frozen.

use vstd::prelude::*;

use crate::extract::{
    called_info, caller_id_of, call_site_of, call_type_of, fn_info, is_call_kind,
    is_function_kind, line_of, name_from_node, unicode_upper, walk, walk_children, SyntaxNode,
};
use crate::graph::{DependencyGraph, Edge, GraphBuilder, Node, GRAPH_INDEX_LIMIT};
use crate::parse::ParseResult;
use crate::resolver::{
    call_edge_model, cs_model, edge_model, empty_model, index_run, lemma_resolver_exact_match,
    line_ctx, name_hash, resolve_all, resolve_one, CallModel, CallSite, CallType, EdgeModel,
    FunctionResolver, ResolverModel,
};
use crate::text::{contains_char, contains_seq};

verus! {

/// The view of a builder while the pipeline fills it: its stored nodes, its
/// id index, and its stored edges with their values as sequences.
pub struct BuilderState {
    pub nodes: Seq<Node>,
    pub ids: Map<Seq<char>, usize>,
    pub edges: Seq<(usize, usize, EdgeModel)>,
}

pub open spec fn empty_builder_state() -> BuilderState {
    BuilderState { nodes: Seq::empty(), ids: Map::empty(), edges: Seq::empty() }
}

/// The view of one stored edge.
pub open spec fn stored_edge_model(t: (usize, usize, Edge)) -> (usize, usize, EdgeModel) {
    (t.0, t.1, edge_model(t.2))
}

/// The view of a builder.
pub open spec fn builder_state_of_b(b: GraphBuilder) -> BuilderState {
    BuilderState {
        nodes: b.nodes(),
        ids: b.ids(),
        edges: b.edges().map_values(|t: (usize, usize, Edge)| stored_edge_model(t)),
    }
}

/// One node insert: the node is appended and its id points at it.
pub open spec fn bs_add_node(st: BuilderState, n: Node) -> BuilderState {
    BuilderState {
        nodes: st.nodes.push(n),
        ids: st.ids.insert(n.id@, st.nodes.len() as usize),
        ..st
    }
}

pub open spec fn bs_add_nodes(st: BuilderState, ns: Seq<Node>) -> BuilderState
    decreases ns.len(),
{
    if ns.len() == 0 {
        st
    } else {
        bs_add_node(bs_add_nodes(st, ns.drop_last()), ns.last())
    }
}

/// One edge insert: stored only when both endpoint ids are indexed.
pub open spec fn bs_add_edge(st: BuilderState, e: Edge) -> BuilderState {
    if st.ids.contains_key(e.source_id@) && st.ids.contains_key(e.target_id@) {
        BuilderState {
            edges: st.edges.push((st.ids[e.source_id@], st.ids[e.target_id@], edge_model(e))),
            ..st
        }
    } else {
        st
    }
}

pub open spec fn bs_add_edges(st: BuilderState, es: Seq<Edge>) -> BuilderState
    decreases es.len(),
{
    if es.len() == 0 {
        st
    } else {
        bs_add_edge(bs_add_edges(st, es.drop_last()), es.last())
    }
}

/// Merging one file's results: its nodes, then its edges.
pub open spec fn bs_apply_result(st: BuilderState, r: ParseResult) -> BuilderState {
    bs_add_edges(bs_add_nodes(st, r.nodes@), r.edges@)
}

pub open spec fn bs_apply_results(st: BuilderState, rs: Seq<ParseResult>) -> BuilderState
    decreases rs.len(),
{
    if rs.len() == 0 {
        st
    } else {
        bs_apply_result(bs_apply_results(st, rs.drop_last()), rs.last())
    }
}

/// One resolved call edge merged back, counted when both endpoints are
/// indexed.
pub open spec fn bs_add_call(st: BuilderState, em: EdgeModel) -> (BuilderState, nat) {
    if st.ids.contains_key(em.source_id) && st.ids.contains_key(em.target_id) {
        (
            BuilderState {
                edges: st.edges.push((st.ids[em.source_id], st.ids[em.target_id], em)),
                ..st
            },
            1nat,
        )
    } else {
        (st, 0nat)
    }
}

pub open spec fn bs_add_calls(st: BuilderState, ems: Seq<EdgeModel>) -> (BuilderState, nat)
    decreases ems.len(),
{
    if ems.len() == 0 {
        (st, 0nat)
    } else {
        let prev = bs_add_calls(st, ems.drop_last());
        let step = bs_add_call(prev.0, ems.last());
        (step.0, prev.1 + step.1)
    }
}

/// Every node of every result, in merge order.
pub open spec fn all_nodes_of(rs: Seq<ParseResult>) -> Seq<Node>
    decreases rs.len(),
{
    if rs.len() == 0 {
        Seq::empty()
    } else {
        all_nodes_of(rs.drop_last()) + rs.last().nodes@
    }
}

/// Every edge of every result, in merge order.
pub open spec fn all_edges_of(rs: Seq<ParseResult>) -> Seq<Edge>
    decreases rs.len(),
{
    if rs.len() == 0 {
        Seq::empty()
    } else {
        all_edges_of(rs.drop_last()) + rs.last().edges@
    }
}

/// Every call site of every result, in merge order; absent lists contribute
/// nothing.
pub open spec fn all_sites_of(rs: Seq<ParseResult>) -> Seq<CallSite>
    decreases rs.len(),
{
    if rs.len() == 0 {
        Seq::empty()
    } else {
        all_sites_of(rs.drop_last()) + (match rs.last().call_sites {
            Some(v) => v@,
            None => Seq::<CallSite>::empty(),
        })
    }
}

/// What the pipeline produces: the filled builder state and how many call
/// edges were merged back.
pub open spec fn analysis_outcome(rs: Seq<ParseResult>) -> (BuilderState, nat) {
    let st1 = bs_apply_results(empty_builder_state(), rs);
    let m = index_run(empty_model(), all_nodes_of(rs));
    let ems = resolve_all(m, all_sites_of(rs).map_values(|cs: CallSite| cs_model(cs)));
    bs_add_calls(st1, ems)
}

proof fn lemma_all_nodes_take_step(rs: Seq<ParseResult>, k: int)
    requires
        0 <= k < rs.len(),
    ensures
        all_nodes_of(rs.take(k + 1)) == all_nodes_of(rs.take(k)) + rs[k].nodes@,
        all_edges_of(rs.take(k + 1)) == all_edges_of(rs.take(k)) + rs[k].edges@,
        all_sites_of(rs.take(k + 1)) == all_sites_of(rs.take(k)) + (match rs[k].call_sites {
            Some(v) => v@,
            None => Seq::<CallSite>::empty(),
        }),
{
    assert(rs.take(k + 1).drop_last() =~= rs.take(k));
    assert(rs.take(k + 1).last() == rs[k]);
}

proof fn lemma_prefix_lens(rs: Seq<ParseResult>, k: int)
    requires
        0 <= k <= rs.len(),
    ensures
        all_nodes_of(rs.take(k)).len() <= all_nodes_of(rs).len(),
        all_edges_of(rs.take(k)).len() <= all_edges_of(rs).len(),
        all_sites_of(rs.take(k)).len() <= all_sites_of(rs).len(),
    decreases rs.len() - k,
{
    if k == rs.len() {
        assert(rs.take(k) =~= rs);
    } else {
        lemma_all_nodes_take_step(rs, k);
        lemma_prefix_lens(rs, k + 1);
    }
}

/// Resolution yields at most one edge per call site.
proof fn lemma_resolve_all_len(m: ResolverModel, sites: Seq<crate::resolver::CallModel>)
    ensures
        resolve_all(m, sites).len() <= sites.len(),
    decreases sites.len(),
{
    if sites.len() > 0 {
        lemma_resolve_all_len(m, sites.drop_last());
    }
}

/// Merging call edges never touches the stored nodes or the id index, and
/// grows the edges by at most one per call edge.
proof fn lemma_bs_add_calls_frame(st: BuilderState, ems: Seq<EdgeModel>)
    ensures
        bs_add_calls(st, ems).0.nodes == st.nodes,
        bs_add_calls(st, ems).0.ids == st.ids,
        bs_add_calls(st, ems).0.edges.len() <= st.edges.len() + ems.len(),
        bs_add_calls(st, ems).1 <= ems.len(),
    decreases ems.len(),
{
    if ems.len() > 0 {
        lemma_bs_add_calls_frame(st, ems.drop_last());
    }
}

/// Merging a file's nodes stores each of them, in order, and never touches
/// the edges.
proof fn lemma_bs_add_nodes_frame(st: BuilderState, ns: Seq<Node>)
    ensures
        bs_add_nodes(st, ns).nodes == st.nodes + ns,
        bs_add_nodes(st, ns).edges == st.edges,
    decreases ns.len(),
{
    if ns.len() == 0 {
        assert(st.nodes + ns =~= st.nodes);
    } else {
        lemma_bs_add_nodes_frame(st, ns.drop_last());
        assert(st.nodes + ns =~= (st.nodes + ns.drop_last()).push(ns.last()));
    }
}

/// Merging a file's edges never touches the nodes or the id index, and grows
/// the edges by at most one per edge.
proof fn lemma_bs_add_edges_frame(st: BuilderState, es: Seq<Edge>)
    ensures
        bs_add_edges(st, es).nodes == st.nodes,
        bs_add_edges(st, es).ids == st.ids,
        bs_add_edges(st, es).edges.len() <= st.edges.len() + es.len(),
    decreases es.len(),
{
    if es.len() > 0 {
        lemma_bs_add_edges_frame(st, es.drop_last());
    }
}

/// The merged state stores exactly the accumulated nodes, and at most one
/// edge per merged edge.
proof fn lemma_bs_apply_results_frame(st: BuilderState, rs: Seq<ParseResult>)
    ensures
        bs_apply_results(st, rs).nodes == st.nodes + all_nodes_of(rs),
        bs_apply_results(st, rs).edges.len() <= st.edges.len() + all_edges_of(rs).len(),
    decreases rs.len(),
{
    if rs.len() == 0 {
        assert(st.nodes + all_nodes_of(rs) =~= st.nodes);
    } else {
        lemma_bs_apply_results_frame(st, rs.drop_last());
        let prev = bs_apply_results(st, rs.drop_last());
        lemma_bs_add_nodes_frame(prev, rs.last().nodes@);
        lemma_bs_add_edges_frame(bs_add_nodes(prev, rs.last().nodes@), rs.last().edges@);
        assert(st.nodes + all_nodes_of(rs) =~= (st.nodes + all_nodes_of(rs.drop_last()))
            + rs.last().nodes@);
    }
}

/// Duplicates a call site list.
fn clone_sites(v: &Vec<CallSite>) -> (r: Vec<CallSite>)
    ensures
        r@ == v@,
{
    let mut r: Vec<CallSite> = Vec::new();
    let mut i: usize = 0;
    while i < v.len()
        invariant
            i <= v@.len(),
            r@ == v@.take(i as int),
        decreases v@.len() - i,
    {
        r.push(v[i].duplicate());
        i = i + 1;
        proof {
            assert(r@ =~= v@.take(i as int));
        }
    }
    proof {
        assert(r@ =~= v@);
    }
    r
}

/// Builds the dependency graph from the accumulated per-file parse results
/// and returns it with the number of call edges that resolution merged back,
/// as `analysis_outcome` describes.
pub fn build_dependency_graph(results: &Vec<ParseResult>) -> (r: (DependencyGraph, usize))
    requires
        all_nodes_of(results@).len() < GRAPH_INDEX_LIMIT,
        all_edges_of(results@).len() + all_sites_of(results@).len() < GRAPH_INDEX_LIMIT,
    ensures
        r.0.nodes() == analysis_outcome(results@).0.nodes,
        r.0.nodes() == all_nodes_of(results@),
        r.0.edges().map_values(|t: (usize, usize, Edge)| stored_edge_model(t))
            == analysis_outcome(results@).0.edges,
        r.1 == analysis_outcome(results@).1,
{
    let ghost rs = results@;
    let mut builder = GraphBuilder::new();
    let mut all_nodes: Vec<Node> = Vec::new();
    let mut all_call_sites: Vec<CallSite> = Vec::new();
    proof {
        assert(builder_state_of_b(builder) =~~= bs_apply_results(
            empty_builder_state(),
            rs.take(0),
        )) by {
            assert(rs.take(0) =~= Seq::<ParseResult>::empty());
            assert(builder.edges().map_values(|t: (usize, usize, Edge)| stored_edge_model(t))
                =~= Seq::<(usize, usize, EdgeModel)>::empty());
        }
        assert(all_nodes@ =~= all_nodes_of(rs.take(0)));
        assert(all_call_sites@ =~= all_sites_of(rs.take(0)));
    }
    let mut k: usize = 0;
    while k < results.len()
        invariant
            rs == results@,
            k <= rs.len(),
            all_nodes_of(rs).len() < GRAPH_INDEX_LIMIT,
            all_edges_of(rs).len() + all_sites_of(rs).len() < GRAPH_INDEX_LIMIT,
            builder.inv(),
            builder_state_of_b(builder) == bs_apply_results(empty_builder_state(), rs.take(
                k as int,
            )),
            all_nodes@ == all_nodes_of(rs.take(k as int)),
            all_call_sites@ == all_sites_of(rs.take(k as int)),
        decreases rs.len() - k,
    {
        let ghost st_file = builder_state_of_b(builder);
        let res = &results[k];
        proof {
            lemma_prefix_lens(rs, k + 1);
            lemma_all_nodes_take_step(rs, k as int);
            lemma_bs_apply_results_frame(empty_builder_state(), rs.take(k as int));
            assert(builder.nodes() == all_nodes_of(rs.take(k as int)));
        }
        let mut j: usize = 0;
        while j < res.nodes.len()
            invariant
                rs == results@,
                k < rs.len(),
                res == &results@[k as int],
                all_nodes_of(rs).len() < GRAPH_INDEX_LIMIT,
                builder.inv(),
                st_file == bs_apply_results(empty_builder_state(), rs.take(k as int)),
                j <= res.nodes@.len(),
                builder_state_of_b(builder) == bs_add_nodes(st_file, res.nodes@.take(j as int)),
                builder.nodes() == all_nodes_of(rs.take(k as int)) + res.nodes@.take(j as int),
                all_nodes@ == builder.nodes(),
            decreases res.nodes@.len() - j,
        {
            proof {
                lemma_prefix_lens(rs, k + 1);
                lemma_all_nodes_take_step(rs, k as int);
                assert(builder.nodes().len() <= all_nodes_of(rs.take(k + 1)).len());
            }
            all_nodes.push(res.nodes[j].duplicate());
            let node = res.nodes[j].duplicate();
            let ghost before = builder_state_of_b(builder);
            builder.add_node(node);
            j = j + 1;
            proof {
                assert(res.nodes@.take(j as int).drop_last() =~= res.nodes@.take(j - 1));
                assert(res.nodes@.take(j as int).last() == res.nodes@[j - 1]);
                assert(builder.edges().map_values(
                    |t: (usize, usize, Edge)| stored_edge_model(t),
                ) =~= before.edges);
                assert(builder_state_of_b(builder) == bs_add_node(before, res.nodes@[j - 1]));
                assert(builder.nodes() =~= all_nodes_of(rs.take(k as int)) + res.nodes@.take(
                    j as int,
                ));
            }
        }
        proof {
            assert(res.nodes@.take(res.nodes@.len() as int) =~= res.nodes@);
        }
        let ghost st_edges = builder_state_of_b(builder);
        proof {
            lemma_bs_apply_results_frame(empty_builder_state(), rs.take(k as int));
            lemma_bs_add_nodes_frame(
                bs_apply_results(empty_builder_state(), rs.take(k as int)),
                res.nodes@,
            );
            assert(builder.edges().map_values(
                |t: (usize, usize, Edge)| stored_edge_model(t),
            ).len() == builder.edges().len());
        }
        let mut e: usize = 0;
        while e < res.edges.len()
            invariant
                rs == results@,
                k < rs.len(),
                res == &results@[k as int],
                all_edges_of(rs).len() + all_sites_of(rs).len() < GRAPH_INDEX_LIMIT,
                builder.inv(),
                st_edges == bs_add_nodes(
                    bs_apply_results(empty_builder_state(), rs.take(k as int)),
                    res.nodes@,
                ),
                e <= res.edges@.len(),
                builder_state_of_b(builder) == bs_add_edges(st_edges, res.edges@.take(e as int)),
                builder.edges().len() <= all_edges_of(rs.take(k as int)).len() + e,
            decreases res.edges@.len() - e,
        {
            proof {
                lemma_prefix_lens(rs, k + 1);
                lemma_all_nodes_take_step(rs, k as int);
            }
            let edge = res.edges[e].duplicate();
            let ghost before = builder_state_of_b(builder);
            let _ = builder.add_edge(edge);
            e = e + 1;
            proof {
                assert(res.edges@.take(e as int).drop_last() =~= res.edges@.take(e - 1));
                assert(res.edges@.take(e as int).last() == res.edges@[e - 1]);
                assert(builder.nodes() =~= before.nodes);
                if before.ids.contains_key(res.edges@[e - 1].source_id@)
                    && before.ids.contains_key(res.edges@[e - 1].target_id@) {
                    assert(builder.edges().map_values(
                        |t: (usize, usize, Edge)| stored_edge_model(t),
                    ) =~= before.edges.push(
                        (
                            before.ids[res.edges@[e - 1].source_id@],
                            before.ids[res.edges@[e - 1].target_id@],
                            edge_model(res.edges@[e - 1]),
                        ),
                    ));
                }
                assert(builder_state_of_b(builder) == bs_add_edge(before, res.edges@[e - 1]));
            }
        }
        proof {
            assert(res.edges@.take(res.edges@.len() as int) =~= res.edges@);
        }
        match &res.call_sites {
            Some(sites) => {
                let mut copies = clone_sites(sites);
                let ghost before_sites = all_call_sites@;
                let mut x: usize = 0;
                while x < copies.len()
                    invariant
                        x <= copies@.len(),
                        copies@ == results@[k as int].call_sites->Some_0@,
                        all_call_sites@ == before_sites + copies@.take(x as int),
                    decreases copies@.len() - x,
                {
                    all_call_sites.push(copies[x].duplicate());
                    x = x + 1;
                    proof {
                        assert(all_call_sites@ =~= before_sites + copies@.take(x as int));
                    }
                }
                proof {
                    assert(copies@.take(copies@.len() as int) =~= copies@);
                }
            },
            None => {},
        }
        k = k + 1;
        proof {
            lemma_all_nodes_take_step(rs, k - 1);
            assert(rs.take(k as int).drop_last() =~= rs.take(k - 1));
            assert(rs.take(k as int).last() == rs[k - 1]);
            assert(all_nodes@ =~= all_nodes_of(rs.take(k as int)));
            assert(all_call_sites@ =~= all_sites_of(rs.take(k as int)));
        }
    }
    proof {
        assert(rs.take(rs.len() as int) =~= rs);
    }
    let mut resolver = FunctionResolver::new();
    let build_outcome = resolver.build_indexes(&all_nodes);
    proof {
        assert(build_outcome is Ok);
    }
    let call_edges = resolver.resolve_calls(&all_call_sites);
    let ghost ems = resolve_all(
        resolver@,
        all_sites_of(rs).map_values(|cs: CallSite| cs_model(cs)),
    );
    let ghost st1 = bs_apply_results(empty_builder_state(), rs);
    proof {
        assert(all_call_sites@.map_values(|cs: CallSite| cs_model(cs)) == all_sites_of(
            rs,
        ).map_values(|cs: CallSite| cs_model(cs)));
        assert(call_edges@.map_values(|e: Edge| edge_model(e)) == ems);
        lemma_resolve_all_len(resolver@, all_sites_of(rs).map_values(|cs: CallSite| cs_model(cs)));
        assert(call_edges@.map_values(|e: Edge| edge_model(e)).len() == call_edges@.len());
        lemma_bs_apply_results_frame(empty_builder_state(), rs);
    }
    let mut added: usize = 0;
    let mut c: usize = 0;
    while c < call_edges.len()
        invariant
            rs == results@,
            all_edges_of(rs).len() + all_sites_of(rs).len() < GRAPH_INDEX_LIMIT,
            builder.inv(),
            c <= call_edges@.len(),
            call_edges@.len() <= all_sites_of(rs).len(),
            call_edges@.map_values(|e: Edge| edge_model(e)) == ems,
            st1 == bs_apply_results(empty_builder_state(), rs),
            st1.edges.len() <= all_edges_of(rs).len(),
            builder_state_of_b(builder) == bs_add_calls(st1, ems.take(c as int)).0,
            added == bs_add_calls(st1, ems.take(c as int)).1,
            added <= c,
        decreases call_edges@.len() - c,
    {
        proof {
            lemma_bs_add_calls_frame(st1, ems.take(c as int));
            assert(ems.take(c as int).len() == c);
        }
        let edge = call_edges[c].duplicate();
        let ghost before = builder_state_of_b(builder);
        let outcome = builder.add_edge(edge);
        match outcome {
            Some(_) => {
                added = added + 1;
            },
            None => {},
        }
        c = c + 1;
        proof {
            assert(ems.take(c as int).drop_last() =~= ems.take(c - 1));
            assert(ems.take(c as int).last() == ems[c - 1]);
            assert(ems[c - 1] == edge_model(call_edges@[c - 1]));
            assert(builder.nodes() =~= before.nodes);
            if before.ids.contains_key(call_edges@[c - 1].source_id@) && before.ids.contains_key(
                call_edges@[c - 1].target_id@,
            ) {
                assert(builder.edges().map_values(
                    |t: (usize, usize, Edge)| stored_edge_model(t),
                ) =~= before.edges.push(
                    (
                        before.ids[call_edges@[c - 1].source_id@],
                        before.ids[call_edges@[c - 1].target_id@],
                        edge_model(call_edges@[c - 1]),
                    ),
                ));
            }
            assert(builder_state_of_b(builder) == bs_add_call(before, ems[c - 1]).0);
        }
    }
    proof {
        assert(ems.take(ems.len() as int) =~= ems);
        lemma_bs_apply_results_frame(empty_builder_state(), rs);
        lemma_bs_add_calls_frame(st1, ems);
    }
    let graph = builder.build();
    (graph, added)
}

/// The one call site that a source tree defining a single function, whose
/// body holds a single plain-identifier call, yields: attributed to the
/// enclosing function in the node-id shape, named after the callee, and
/// classified as a simple call.
pub open spec fn single_call_model(
    file_tag: Seq<char>,
    fname: Seq<char>,
    fn_row: usize,
    call_kind: Seq<char>,
    callee_name: Seq<char>,
    call_row: usize,
) -> CallModel {
    CallModel {
        caller_id: caller_id_of(file_tag, Some((fname, line_of(fn_row)))),
        called_name: callee_name,
        call_type: CallType::SimpleCall,
        context: Some("ast_node:"@ + call_kind),
        line_number: line_of(call_row),
    }
}

/// Law (end to end): a tree that defines one function, whose body holds one
/// plain-identifier call, extracts to exactly the one call site
/// `single_call_model` describes; and when the bucket of the callee name's
/// hash holds exactly one candidate bearing that name, resolving the
/// extracted sites yields exactly one `Call` edge, from the synthesized
/// caller id to that candidate's node id.
pub proof fn lemma_caller_callee_end_to_end(
    root: SyntaxNode,
    fn_def: SyntaxNode,
    name_leaf: SyntaxNode,
    body: SyntaxNode,
    call_node: SyntaxNode,
    callee: SyntaxNode,
    file_tag: Seq<char>,
    m: ResolverModel,
    i: int,
)
    requires
        // the surrounding module node wraps the function definition alone
        !is_function_kind(root.kind@),
        !is_call_kind(root.kind@),
        root.children@ == seq![fn_def],
        // the function definition names itself through its `name` field and
        // holds one body node
        is_function_kind(fn_def.kind@),
        !is_call_kind(fn_def.kind@),
        fn_def.children@ == seq![name_leaf, body],
        name_leaf.field is Some,
        name_leaf.field->Some_0@ == "name"@,
        name_leaf.text@.len() > 0,
        !is_function_kind(name_leaf.kind@),
        !is_call_kind(name_leaf.kind@),
        name_leaf.children@ == Seq::<SyntaxNode>::empty(),
        !is_function_kind(body.kind@),
        !is_call_kind(body.kind@),
        body.children@ == seq![call_node],
        // the body's one statement is a call applying a plain identifier
        call_node.kind@ == "call"@ || call_node.kind@ == "call_expression"@,
        !is_function_kind(call_node.kind@),
        call_node.children@ == seq![callee],
        callee.kind@ == "identifier"@,
        !is_function_kind(callee.kind@),
        !is_call_kind(callee.kind@),
        callee.children@ == Seq::<SyntaxNode>::empty(),
        callee.text@.len() > 0,
        // the callee name reads as a simple call: no leading capital, no
        // scope or member separators
        !unicode_upper(callee.text@[0]),
        !contains_seq(callee.text@, "::"@),
        !contains_char(callee.text@, '.'),
        // the index holds exactly one candidate bearing the callee name in
        // its bucket
        m.fn_index.contains_key(name_hash(callee.text@)),
        0 <= i < m.fn_index[name_hash(callee.text@)].len(),
        m.fn_index[name_hash(callee.text@)][i].name == callee.text@,
        forall|j: int|
            0 <= j < m.fn_index[name_hash(callee.text@)].len() && j != i ==> m.fn_index[name_hash(
                callee.text@,
            )][j].name != callee.text@,
    ensures
        walk(root, file_tag, None).1 == seq![
            single_call_model(
                file_tag,
                name_leaf.text@,
                fn_def.row,
                call_node.kind@,
                callee.text@,
                call_node.row,
            ),
        ],
        resolve_all(m, walk(root, file_tag, None).1) == seq![
            call_edge_model(
                single_call_model(
                    file_tag,
                    name_leaf.text@,
                    fn_def.row,
                    call_node.kind@,
                    callee.text@,
                    call_node.row,
                ),
                m.fn_index[name_hash(callee.text@)][i].node_id,
                Some(line_ctx(line_of(call_node.row))),
            ),
        ],
{
    let st1: Option<(Seq<char>, usize)> = Some((name_leaf.text@, line_of(fn_def.row)));
    let cs = single_call_model(
        file_tag,
        name_leaf.text@,
        fn_def.row,
        call_node.kind@,
        callee.text@,
        call_node.row,
    );
    // the declaration's name field is its first child
    assert(fn_def.children@[0] == name_leaf);
    assert(crate::extract::field_index(fn_def.children@, "name"@, 0) == 0);
    assert(fn_info(fn_def) == Some((name_leaf.text@, line_of(fn_def.row))));
    // the callee reads as its own text and classifies as a simple call
    assert(name_from_node(callee) == callee.text@);
    assert(call_type_of(callee.text@, callee.kind@) == CallType::SimpleCall) by {
        reveal_strlit("identifier");
        reveal_strlit("attribute");
        reveal_strlit("field_expression");
        reveal_strlit("qualified_identifier");
        reveal_strlit("scoped_identifier");
        reveal_strlit("generic_function");
    }
    assert(call_node.children@[0] == callee);
    assert(called_info(call_node) == Some((callee.text@, CallType::SimpleCall)));
    assert(call_site_of(call_node, file_tag, st1) == Some(cs));
    // leaves walk to nothing
    assert(walk(name_leaf, file_tag, st1).0 == st1);
    assert(walk(name_leaf, file_tag, st1).1 =~= Seq::<CallModel>::empty());
    assert(walk(callee, file_tag, st1).0 == st1);
    assert(walk(callee, file_tag, st1).1 =~= Seq::<CallModel>::empty());
    // the call node yields exactly the one site
    assert(walk_children(call_node.children@, 1, file_tag, st1) == (
        st1,
        Seq::<CallModel>::empty(),
    ));
    assert(walk_children(call_node.children@, 0, file_tag, st1).0 == st1);
    assert(walk_children(call_node.children@, 0, file_tag, st1).1 =~= Seq::<CallModel>::empty());
    assert(walk(call_node, file_tag, st1).0 == st1);
    assert(walk(call_node, file_tag, st1).1 =~= seq![cs]);
    // the body passes it through
    assert(walk_children(body.children@, 1, file_tag, st1) == (st1, Seq::<CallModel>::empty()));
    assert(body.children@[0] == call_node);
    assert(walk_children(body.children@, 0, file_tag, st1).0 == st1);
    assert(walk_children(body.children@, 0, file_tag, st1).1 =~= seq![cs]);
    assert(walk(body, file_tag, st1).0 == st1);
    assert(walk(body, file_tag, st1).1 =~= seq![cs]);
    // the function definition tracks itself, collects the site, and clears
    assert(fn_def.children@[1] == body);
    assert(walk_children(fn_def.children@, 2, file_tag, st1) == (
        st1,
        Seq::<CallModel>::empty(),
    ));
    assert(walk_children(fn_def.children@, 1, file_tag, st1).1 =~= seq![cs]);
    assert(walk_children(fn_def.children@, 0, file_tag, st1).1 =~= seq![cs]);
    assert(walk(fn_def, file_tag, None).0 is None);
    assert(walk(fn_def, file_tag, None).1 =~= seq![cs]);
    // the module wraps it unchanged
    assert(root.children@[0] == fn_def);
    assert(walk_children(root.children@, 1, file_tag, walk(fn_def, file_tag, None).0) == (
        walk(fn_def, file_tag, None).0,
        Seq::<CallModel>::empty(),
    ));
    assert(walk_children(root.children@, 0, file_tag, None).1 =~= seq![cs]);
    assert(walk(root, file_tag, None).1 =~= seq![cs]);
    // resolution picks the one candidate bearing the name
    lemma_resolver_exact_match(m, cs, i);
    assert(resolve_one(m, cs) == Some(
        call_edge_model(
            cs,
            m.fn_index[name_hash(callee.text@)][i].node_id,
            Some(line_ctx(line_of(call_node.row))),
        ),
    ));
    assert(seq![cs].drop_last() =~= Seq::<CallModel>::empty());
    assert(resolve_all(m, Seq::<CallModel>::empty()) =~= Seq::<EdgeModel>::empty());
    assert(resolve_all(m, seq![cs]) =~= seq![
        call_edge_model(
            cs,
            m.fn_index[name_hash(callee.text@)][i].node_id,
            Some(line_ctx(line_of(call_node.row))),
        ),
    ]);
}

} // verus!
