//! Formatter-facing rules: output-format names, the compact JSON type codes,
//! and the language adapters' classification rules. Writing the formatted
//! text out is left to the callers that own the output files.

use vstd::prelude::*;

use crate::graph::{DependencyGraph, EdgeType, Node, NodeType};
use crate::strmap::StrMap;
use crate::text::{
    chars_contain_seq, chars_start_with, chars_string, contains_char, contains_seq, is_prefix,
    skip_chars, str_chars,
};

verus! {

/// How much the graph formatter emits.
#[derive(Debug, Clone, Copy, PartialEq, Eq, Structural)]
pub enum OutputVerbosity {
    Compact,
    Standard,
    Verbose,
}

/// The selectable output formats.
#[derive(Debug, Clone, Copy, PartialEq, Eq, Structural)]
pub enum OutputFormat {
    Markdown,
    LlmOptimized,
    JsonCompact,
}

impl OutputFormat {
    /// The format's command-line name.
    pub fn as_str(self) -> (r: &'static str)
        ensures
            self is Markdown ==> r@ == "markdown"@,
            self is LlmOptimized ==> r@ == "llm-optimized"@,
            self is JsonCompact ==> r@ == "json-compact"@,
    {
        match self {
            OutputFormat::Markdown => "markdown",
            OutputFormat::LlmOptimized => "llm-optimized",
            OutputFormat::JsonCompact => "json-compact",
        }
    }
}

/// The numeric code the compact JSON format stores for a node type.
pub open spec fn type_code_of(t: NodeType) -> u8 {
    match t {
        NodeType::Module => 0,
        NodeType::Class => 1,
        NodeType::Function => 2,
        NodeType::Variable => 3,
        NodeType::Interface => 4,
        NodeType::Enum => 5,
    }
}

/// The numeric code the compact JSON format stores for an edge type.
pub open spec fn edge_code_of(t: EdgeType) -> u8 {
    match t {
        EdgeType::Import => 0,
        EdgeType::Call => 1,
        EdgeType::Inheritance => 2,
        EdgeType::Implements => 3,
        EdgeType::Uses => 4,
        EdgeType::Contains => 5,
    }
}

/// Emits the graph as minimal-token JSON; the callers serialize the coded
/// rows this type computes.
pub struct JsonCompactFormatter {
    pub minimal: bool,
}

impl JsonCompactFormatter {
    /// A formatter emitting the minimal field set.
    pub fn new() -> (r: Self)
        ensures
            r.minimal,
    {
        JsonCompactFormatter { minimal: true }
    }

    /// The node-type code, as `type_code_of` describes.
    pub fn type_code(&self, node_type: NodeType) -> (r: u8)
        ensures
            r == type_code_of(node_type),
    {
        match node_type {
            NodeType::Module => 0,
            NodeType::Class => 1,
            NodeType::Function => 2,
            NodeType::Variable => 3,
            NodeType::Interface => 4,
            NodeType::Enum => 5,
        }
    }

    /// The edge-type code, as `edge_code_of` describes.
    pub fn edge_code(&self, edge_type: EdgeType) -> (r: u8)
        ensures
            r == edge_code_of(edge_type),
    {
        match edge_type {
            EdgeType::Import => 0,
            EdgeType::Call => 1,
            EdgeType::Inheritance => 2,
            EdgeType::Implements => 3,
            EdgeType::Uses => 4,
            EdgeType::Contains => 5,
        }
    }
}

impl Default for JsonCompactFormatter {
    /// The same formatter `new` builds.
    fn default() -> (r: Self)
        ensures
            r.minimal,
    {
        Self::new()
    }
}

/// The distinct file paths of the nodes, in first-occurrence order: the
/// compact format's file table.
pub open spec fn file_table(ns: Seq<Node>) -> Seq<Seq<char>>
    decreases ns.len(),
{
    if ns.len() == 0 {
        Seq::empty()
    } else {
        let p = file_table(ns.drop_last());
        if p.contains(ns.last().file_path@) {
            p
        } else {
            p.push(ns.last().file_path@)
        }
    }
}

/// The position of `x` in the file table at or after `j`, or -1.
pub open spec fn table_index(fs: Seq<Seq<char>>, x: Seq<char>, j: int) -> int
    decreases fs.len() - j,
{
    if j < 0 || j >= fs.len() {
        -1
    } else if fs[j] == x {
        j
    } else {
        table_index(fs, x, j + 1)
    }
}

/// One coded node row: name, type code, file-table position, line.
pub struct NodeRowModel {
    pub name: Seq<char>,
    pub type_code: u8,
    pub file_id: usize,
    pub line: usize,
}

/// The coded node row of one node against a file table.
pub open spec fn node_row_of(fs: Seq<Seq<char>>, n: Node) -> NodeRowModel {
    NodeRowModel {
        name: n.name@,
        type_code: type_code_of(n.node_type),
        file_id: table_index(fs, n.file_path@, 0) as usize,
        line: n.line_number,
    }
}

/// The coded rows of the graph: its file table, one row per node, and one
/// `(source, target, code)` triple per edge.
pub struct CompactRows {
    pub files: Vec<String>,
    pub nodes: Vec<(String, u8, usize, usize)>,
    pub edges: Vec<(usize, usize, u8)>,
}

pub open spec fn node_row_model(t: (String, u8, usize, usize)) -> NodeRowModel {
    NodeRowModel { name: t.0@, type_code: t.1, file_id: t.2, line: t.3 }
}

impl JsonCompactFormatter {
    /// Computes the compact representation of the graph: the file table in
    /// first-occurrence order, each node as a coded row against it, and each
    /// edge as its endpoint indices with its type code.
    pub fn compact_rows(&self, graph: &DependencyGraph) -> (r: CompactRows)
        ensures
            r.files@.map_values(|s: String| s@) == file_table(graph.nodes()),
            r.nodes@.len() == graph.nodes().len(),
            forall|i: int|
                0 <= i < r.nodes@.len() ==> node_row_model(#[trigger] r.nodes@[i]) == node_row_of(
                    file_table(graph.nodes()),
                    graph.nodes()[i],
                ),
            r.edges@.len() == graph.edges().len(),
            forall|i: int|
                0 <= i < r.edges@.len() ==> #[trigger] r.edges@[i] == (
                    graph.edges()[i].0,
                    graph.edges()[i].1,
                    edge_code_of(graph.edges()[i].2.edge_type),
                ),
    {
        let ghost ns = graph.nodes();
        let mut files: Vec<String> = Vec::new();
        let mut table: StrMap<usize> = StrMap::new();
        let n = graph.node_count();
        let mut i: usize = 0;
        while i < n
            invariant
                ns == graph.nodes(),
                n == ns.len(),
                n <= crate::graph::GRAPH_INDEX_LIMIT,
                i <= n,
                table.inv(),
                files@.map_values(|s: String| s@) == file_table(ns.take(i as int)),
                files@.len() <= i,
                forall|p: Seq<char>|
                    table@.contains_key(p) <==> file_table(ns.take(i as int)).contains(p),
                forall|p: Seq<char>|
                    #[trigger] table@.contains_key(p) ==> table@[p] < files@.len() && files@[
                        table@[p] as int
                    ]@ == p,
            decreases n - i,
        {
            match graph.node_weight(i) {
                Some(node) => {
                    match table.get(node.file_path.as_str()) {
                        Some(_) => {},
                        None => {
                            table.insert(node.file_path.clone(), files.len());
                            files.push(node.file_path.clone());
                        },
                    }
                },
                None => {
                    proof {
                        assert(false);
                    }
                },
            }
            i = i + 1;
            proof {
                assert(ns.take(i as int).drop_last() =~= ns.take(i - 1));
                assert(ns.take(i as int).last() == ns[i - 1]);
                if file_table(ns.take(i - 1)).contains(ns[i - 1].file_path@) {
                    assert(files@.map_values(|s: String| s@) =~= file_table(ns.take(i as int)));
                } else {
                    assert(files@.map_values(|s: String| s@) =~= file_table(
                        ns.take(i - 1),
                    ).push(ns[i - 1].file_path@));
                    assert forall|p: Seq<char>| table@.contains_key(p) <==> file_table(
                        ns.take(i as int),
                    ).contains(p) by {
                        let grown = file_table(ns.take(i as int));
                        if table@.contains_key(p) {
                            if p == ns[i - 1].file_path@ {
                                assert(grown.last() == p);
                                assert(grown.contains(p));
                            } else {
                                assert(file_table(ns.take(i - 1)).contains(p));
                                let j = choose|j: int|
                                    0 <= j < file_table(ns.take(i - 1)).len() && #[trigger] file_table(
                                        ns.take(i - 1),
                                    )[j] == p;
                                assert(grown[j] == p);
                                assert(grown.contains(p));
                            }
                        }
                        if grown.contains(p) && p != ns[i - 1].file_path@ {
                            let j = choose|j: int| 0 <= j < grown.len() && #[trigger] grown[j] == p;
                            assert(file_table(ns.take(i - 1)).contains(p)) by {
                                assert(file_table(ns.take(i - 1))[j] == p);
                            }
                        }
                    }
                }
            }
        }
        proof {
            assert(ns.take(n as int) =~= ns);
        }
        let mut nodes: Vec<(String, u8, usize, usize)> = Vec::new();
        let mut k: usize = 0;
        while k < n
            invariant
                ns == graph.nodes(),
                n == ns.len(),
                n <= crate::graph::GRAPH_INDEX_LIMIT,
                k <= n,
                table.inv(),
                files@.map_values(|s: String| s@) == file_table(ns),
                forall|p: Seq<char>| table@.contains_key(p) <==> file_table(ns).contains(p),
                forall|p: Seq<char>|
                    #[trigger] table@.contains_key(p) ==> table@[p] < files@.len() && files@[
                        table@[p] as int
                    ]@ == p,
                nodes@.len() == k,
                forall|i: int|
                    0 <= i < k ==> node_row_model(#[trigger] nodes@[i]) == node_row_of(
                        file_table(ns),
                        ns[i],
                    ),
            decreases n - k,
        {
            match graph.node_weight(k) {
                Some(node) => {
                    let file_id = match table.get(node.file_path.as_str()) {
                        Some(id) => *id,
                        None => {
                            proof {
                                lemma_file_table_covers(ns, k as int);
                                assert(false);
                            }
                            0
                        },
                    };
                    proof {
                        lemma_file_table_distinct(ns);
                        let fs = files@.map_values(|s: String| s@);
                        assert(fs.len() == files@.len());
                        assert(fs[file_id as int] == files@[file_id as int]@);
                        assert(fs[file_id as int] == node.file_path@);
                        lemma_table_index_agrees(fs, node.file_path@, file_id as int);
                    }
                    let row = (
                        node.name.clone(),
                        self.type_code(node.node_type),
                        file_id,
                        node.line_number,
                    );
                    nodes.push(row);
                },
                None => {
                    proof {
                        assert(false);
                    }
                },
            }
            k = k + 1;
        }
        let mut edges: Vec<(usize, usize, u8)> = Vec::new();
        let m = graph.edge_count();
        let mut e: usize = 0;
        while e < m
            invariant
                m == graph.edges().len(),
                m <= crate::graph::GRAPH_INDEX_LIMIT,
                e <= m,
                edges@.len() == e,
                forall|i: int|
                    0 <= i < e ==> #[trigger] edges@[i] == (
                        graph.edges()[i].0,
                        graph.edges()[i].1,
                        edge_code_of(graph.edges()[i].2.edge_type),
                    ),
            decreases m - e,
        {
            match (graph.edge_endpoints(e), graph.edge_weight(e)) {
                (Some(ends), Some(weight)) => {
                    edges.push((ends.0, ends.1, self.edge_code(weight.edge_type)));
                },
                _ => {
                    proof {
                        assert(false);
                    }
                },
            }
            e = e + 1;
        }
        CompactRows { files, nodes, edges }
    }
}

/// Every node's file path is in the file table.
proof fn lemma_file_table_covers(ns: Seq<Node>, i: int)
    requires
        0 <= i < ns.len(),
    ensures
        file_table(ns).contains(ns[i].file_path@),
    decreases ns.len(),
{
    if i == ns.len() - 1 {
        if !file_table(ns.drop_last()).contains(ns.last().file_path@) {
            assert(file_table(ns).last() == ns.last().file_path@);
        } else {
            let j = choose|j: int|
                0 <= j < file_table(ns.drop_last()).len() && file_table(ns.drop_last())[j]
                    == ns.last().file_path@;
            assert(file_table(ns)[j] == ns.last().file_path@);
        }
    } else {
        lemma_file_table_covers(ns.drop_last(), i);
        assert(ns.drop_last()[i] == ns[i]);
        let j = choose|j: int|
            0 <= j < file_table(ns.drop_last()).len() && file_table(ns.drop_last())[j]
                == ns[i].file_path@;
        if !file_table(ns.drop_last()).contains(ns.last().file_path@) {
            assert(file_table(ns)[j] == ns[i].file_path@);
        } else {
            assert(file_table(ns)[j] == ns[i].file_path@);
        }
    }
}

/// The file table holds each path once.
proof fn lemma_file_table_distinct(ns: Seq<Node>)
    ensures
        forall|a: int, b: int|
            0 <= a < b < file_table(ns).len() ==> file_table(ns)[a] != file_table(ns)[b],
    decreases ns.len(),
{
    if ns.len() > 0 {
        lemma_file_table_distinct(ns.drop_last());
        let p = file_table(ns.drop_last());
        if !p.contains(ns.last().file_path@) {
            assert forall|a: int, b: int|
                0 <= a < b < file_table(ns).len() implies file_table(ns)[a] != file_table(
                ns,
            )[b] by {
                if b == file_table(ns).len() - 1 {
                    assert(p[a] != ns.last().file_path@) by {
                        if p[a] == ns.last().file_path@ {
                            assert(p.contains(ns.last().file_path@));
                        }
                    }
                }
            }
        }
    }
}

/// A table position holding `x`, with no earlier position holding it, is what
/// scanning finds.
proof fn lemma_table_index_agrees(fs: Seq<Seq<char>>, x: Seq<char>, j: int)
    requires
        0 <= j < fs.len(),
        fs[j] == x,
        forall|k: int| 0 <= k < j ==> fs[k] != x,
    ensures
        table_index(fs, x, 0) == j,
{
    lemma_table_index_from(fs, x, 0, j);
}

proof fn lemma_table_index_from(fs: Seq<Seq<char>>, x: Seq<char>, s: int, j: int)
    requires
        0 <= s <= j < fs.len(),
        fs[j] == x,
        forall|k: int| s <= k < j ==> fs[k] != x,
    ensures
        table_index(fs, x, s) == j,
    decreases j - s,
{
    if s < j {
        lemma_table_index_from(fs, x, s + 1, j);
    }
}

/// The first position where the two sequences differ, scanning from `i`:
/// the length of their common prefix when started at zero.
pub open spec fn mismatch_at(a: Seq<char>, b: Seq<char>, i: int) -> int
    decreases a.len() - i,
{
    if i < 0 || i >= a.len() || i >= b.len() || a[i] != b[i] {
        i
    } else {
        mismatch_at(a, b, i + 1)
    }
}

/// The greatest position of a `/` in `s`.
pub open spec fn last_slash(s: Seq<char>) -> int {
    choose|j: int|
        0 <= j < s.len() && s[j] == '/' && (forall|k: int| j < k < s.len() ==> s[k] != '/')
}

pub proof fn lemma_last_slash(s: Seq<char>)
    requires
        contains_char(s, '/'),
    ensures
        0 <= last_slash(s) < s.len(),
        s[last_slash(s)] == '/',
        forall|k: int| last_slash(s) < k < s.len() ==> s[k] != '/',
    decreases s.len(),
{
    if s.last() == '/' {
        let w = (s.len() - 1) as int;
        assert(0 <= w < s.len() && s[w] == '/' && (forall|k: int|
            w < k < s.len() ==> s[k] != '/'));
    } else {
        let prefix = s.drop_last();
        let j0 = choose|j: int| 0 <= j < s.len() && s[j] == '/';
        assert(contains_char(prefix, '/')) by {
            assert(prefix[j0] == '/');
        }
        lemma_last_slash(prefix);
        let w = last_slash(prefix);
        assert(s[w] == '/');
        assert(forall|k: int| w < k < s.len() ==> s[k] != '/') by {
            assert(forall|k: int| w < k < prefix.len() ==> prefix[k] != '/');
            assert(forall|k: int| w < k < s.len() - 1 ==> s[k] == prefix[k]);
        }
        assert(0 <= w < s.len() && s[w] == '/' && (forall|k: int|
            w < k < s.len() ==> s[k] != '/'));
    }
}

/// The shared directory prefix the file table is trimmed to: the common run
/// of the first and the last listed path, cut back to the last `/` it holds,
/// slash included; a single path keeps its own directory part, and a run
/// without a `/` gives nothing.
pub open spec fn common_prefix_of(paths: Seq<Seq<char>>) -> Seq<char> {
    if paths.len() == 0 {
        Seq::empty()
    } else {
        let first = paths[0];
        let plen = if paths.len() == 1 {
            first.len() as int
        } else {
            mismatch_at(first, paths.last(), 0)
        };
        let run = first.take(plen);
        if contains_char(run, '/') {
            run.take(last_slash(run) + 1)
        } else {
            Seq::empty()
        }
    }
}

/// Builds the string holding `v[0..n]`.
fn take_chars(v: &Vec<char>, n: usize) -> (r: String)
    requires
        n <= v@.len(),
    ensures
        r@ == v@.take(n as int),
{
    let mut out: Vec<char> = Vec::new();
    let mut i: usize = 0;
    while i < n
        invariant
            n <= v@.len(),
            i <= n,
            out@ == v@.take(i as int),
        decreases n - i,
    {
        out.push(v[i]);
        i = i + 1;
        proof {
            assert(out@ =~= v@.take(i as int));
        }
    }
    chars_string(&out)
}

/// Computes the shared directory prefix of the listed paths, as
/// `common_prefix_of` describes.
pub fn find_common_prefix(paths: &Vec<String>) -> (r: String)
    ensures
        r@ == common_prefix_of(paths@.map_values(|s: String| s@)),
{
    let ghost ps = paths@.map_values(|s: String| s@);
    if paths.len() == 0 {
        let out = String::new();
        proof {
            assert(out@ =~= common_prefix_of(ps));
        }
        return out;
    }
    let first = str_chars(paths[0].as_str());
    proof {
        assert(ps[0] == paths@[0]@);
        assert(ps.last() == paths@[paths@.len() - 1]@);
    }
    let plen: usize = if paths.len() == 1 {
        first.len()
    } else {
        let last = str_chars(paths[paths.len() - 1].as_str());
        let mut i: usize = 0;
        while i < first.len() && i < last.len() && first[i] == last[i]
            invariant
                first@ == ps[0],
                last@ == ps.last(),
                0 <= i,
                mismatch_at(first@, last@, i as int) == mismatch_at(first@, last@, 0),
                i <= first@.len(),
            decreases first@.len() - i,
        {
            i = i + 1;
        }
        i
    };
    let run = take_chars(&first, plen);
    let run_chars = str_chars(run.as_str());
    // scan for the last separator in the common run
    let mut found: Option<usize> = None;
    let mut j: usize = 0;
    while j < run_chars.len()
        invariant
            run_chars@ == run@,
            j <= run_chars@.len(),
            (match found {
                Some(p) => p < j && run@[p as int] == '/' && (forall|k: int|
                    p < k < j ==> run@[k] != '/'),
                None => forall|k: int| 0 <= k < j ==> run@[k] != '/',
            }),
        decreases run_chars@.len() - j,
    {
        if run_chars[j] == '/' {
            found = Some(j);
        }
        j = j + 1;
    }
    match found {
        Some(p) => {
            proof {
                lemma_last_slash(run@);
                assert(last_slash(run@) == p as int) by {
                    if last_slash(run@) < p {
                        assert(run@[p as int] != '/');
                    } else if last_slash(run@) > p {
                        assert(run@[last_slash(run@)] != '/');
                    }
                }
            }
            take_chars(&run_chars, p + 1)
        },
        None => {
            proof {
                assert(!contains_char(run@, '/'));
            }
            let out = String::new();
            proof {
                assert(out@ =~= common_prefix_of(ps));
            }
            out
        },
    }
}

/// A path relative to the shared prefix: the prefix is stripped when the
/// path starts with it, else the path stands as it is.
pub open spec fn rel_of(path: Seq<char>, prefix: Seq<char>) -> Seq<char> {
    if is_prefix(prefix, path) {
        path.skip(prefix.len() as int)
    } else {
        path
    }
}

/// The single-letter semantic tag a relative path files under.
pub open spec fn semantic_prefix_of(rel: Seq<char>) -> Seq<char> {
    if contains_seq(rel, "services/"@) {
        "S"@
    } else if contains_seq(rel, "entities/"@) || contains_seq(rel, "models/"@) {
        "E"@
    } else if contains_seq(rel, "components/"@) {
        "C"@
    } else if contains_seq(rel, "widgets/dialogs/"@) {
        "D"@
    } else if contains_seq(rel, "widgets/ribbon/"@) {
        "R"@
    } else if contains_seq(rel, "widgets/buttons/"@) {
        "B"@
    } else if contains_seq(rel, "widgets/view_widgets/"@) || contains_seq(rel, "views/"@) {
        "V"@
    } else if contains_seq(rel, "widgets/mobile_widgets/"@) {
        "MB"@
    } else if contains_seq(rel, "widgets/type_widgets/"@) {
        "T"@
    } else if contains_seq(rel, "widgets/"@) {
        "W"@
    } else if contains_seq(rel, "menus/"@) {
        "M"@
    } else if contains_seq(rel, "api/"@) {
        "A"@
    } else if contains_seq(rel, "controllers/"@) {
        "CTL"@
    } else if contains_seq(rel, "utils/"@) || contains_seq(rel, "helpers/"@) {
        "U"@
    } else if contains_seq(rel, "tests/"@) {
        "TST"@
    } else {
        "U"@
    }
}

fn semantic_prefix_exec(rel: &Vec<char>) -> (r: String)
    ensures
        r@ == semantic_prefix_of(rel@),
{
    let mut s = String::new();
    if chars_contain_seq(rel, &str_chars("services/")) {
        s.append("S");
    } else if chars_contain_seq(rel, &str_chars("entities/")) || chars_contain_seq(
        rel,
        &str_chars("models/"),
    ) {
        s.append("E");
    } else if chars_contain_seq(rel, &str_chars("components/")) {
        s.append("C");
    } else if chars_contain_seq(rel, &str_chars("widgets/dialogs/")) {
        s.append("D");
    } else if chars_contain_seq(rel, &str_chars("widgets/ribbon/")) {
        s.append("R");
    } else if chars_contain_seq(rel, &str_chars("widgets/buttons/")) {
        s.append("B");
    } else if chars_contain_seq(rel, &str_chars("widgets/view_widgets/")) || chars_contain_seq(
        rel,
        &str_chars("views/"),
    ) {
        s.append("V");
    } else if chars_contain_seq(rel, &str_chars("widgets/mobile_widgets/")) {
        s.append("MB");
    } else if chars_contain_seq(rel, &str_chars("widgets/type_widgets/")) {
        s.append("T");
    } else if chars_contain_seq(rel, &str_chars("widgets/")) {
        s.append("W");
    } else if chars_contain_seq(rel, &str_chars("menus/")) {
        s.append("M");
    } else if chars_contain_seq(rel, &str_chars("api/")) {
        s.append("A");
    } else if chars_contain_seq(rel, &str_chars("controllers/")) {
        s.append("CTL");
    } else if chars_contain_seq(rel, &str_chars("utils/")) || chars_contain_seq(
        rel,
        &str_chars("helpers/"),
    ) {
        s.append("U");
    } else if chars_contain_seq(rel, &str_chars("tests/")) {
        s.append("TST");
    } else {
        s.append("U");
    }
    s
}

/// Tags each listed path with its semantic prefix, computed against the
/// shared directory prefix: the returned map binds exactly the listed paths,
/// each to `semantic_prefix_of` of its relative part.
pub fn build_semantic_prefixes(paths: &Vec<String>, common_prefix: &str) -> (r: StrMap<String>)
    ensures
        r.inv(),
        forall|i: int|
            0 <= i < paths@.len() ==> r@.contains_key(#[trigger] paths@[i]@) && r@[paths@[i]@]@
                == semantic_prefix_of(rel_of(paths@[i]@, common_prefix@)),
        forall|k: Seq<char>|
            r@.contains_key(k) ==> exists|i: int| 0 <= i < paths@.len() && #[trigger] paths@[i]@
                == k,
{
    let prefix_chars = str_chars(common_prefix);
    let mut r: StrMap<String> = StrMap::new();
    let mut i: usize = 0;
    while i < paths.len()
        invariant
            prefix_chars@ == common_prefix@,
            i <= paths@.len(),
            r.inv(),
            forall|j: int|
                0 <= j < i ==> r@.contains_key(#[trigger] paths@[j]@) && r@[paths@[j]@]@
                    == semantic_prefix_of(rel_of(paths@[j]@, common_prefix@)),
            forall|k: Seq<char>|
                r@.contains_key(k) ==> exists|j: int| 0 <= j < i && #[trigger] paths@[j]@ == k,
        decreases paths@.len() - i,
    {
        let path_chars = str_chars(paths[i].as_str());
        let rel = if chars_start_with(&path_chars, &prefix_chars) {
            str_chars(skip_chars(&path_chars, prefix_chars.len()).as_str())
        } else {
            path_chars
        };
        proof {
            assert(rel@ == rel_of(paths@[i as int]@, common_prefix@));
        }
        let tag = semantic_prefix_exec(&rel);
        r.insert(paths[i].clone(), tag);
        i = i + 1;
    }
    r
}

/// The architectural cluster the generic rules place a file path in.
pub open spec fn default_cluster_of(path: Seq<char>) -> Seq<char> {
    if contains_seq(path, "/services/"@) {
        "CORE_SERVICES"@
    } else if contains_seq(path, "/entities/"@) {
        "DATA_ENTITIES"@
    } else if contains_seq(path, "/components/"@) {
        "UI_COMPONENTS"@
    } else if contains_seq(path, "/widgets/dialogs/"@) {
        "DIALOG_SYSTEM"@
    } else if contains_seq(path, "/widgets/ribbon/"@) {
        "RIBBON_SYSTEM"@
    } else if contains_seq(path, "/widgets/buttons/"@) {
        "BUTTON_SYSTEM"@
    } else if contains_seq(path, "/widgets/view_widgets/"@) {
        "VIEW_SYSTEM"@
    } else if contains_seq(path, "/widgets/"@) {
        "UI_WIDGETS"@
    } else if contains_seq(path, "/menus/"@) {
        "MENU_SYSTEM"@
    } else {
        "UTILITY_LAYER"@
    }
}

fn default_cluster_exec(path: &String) -> (r: String)
    ensures
        r@ == default_cluster_of(path@),
{
    let pc = str_chars(path.as_str());
    let mut s = String::new();
    if chars_contain_seq(&pc, &str_chars("/services/")) {
        s.append("CORE_SERVICES");
    } else if chars_contain_seq(&pc, &str_chars("/entities/")) {
        s.append("DATA_ENTITIES");
    } else if chars_contain_seq(&pc, &str_chars("/components/")) {
        s.append("UI_COMPONENTS");
    } else if chars_contain_seq(&pc, &str_chars("/widgets/dialogs/")) {
        s.append("DIALOG_SYSTEM");
    } else if chars_contain_seq(&pc, &str_chars("/widgets/ribbon/")) {
        s.append("RIBBON_SYSTEM");
    } else if chars_contain_seq(&pc, &str_chars("/widgets/buttons/")) {
        s.append("BUTTON_SYSTEM");
    } else if chars_contain_seq(&pc, &str_chars("/widgets/view_widgets/")) {
        s.append("VIEW_SYSTEM");
    } else if chars_contain_seq(&pc, &str_chars("/widgets/")) {
        s.append("UI_WIDGETS");
    } else if chars_contain_seq(&pc, &str_chars("/menus/")) {
        s.append("MENU_SYSTEM");
    } else {
        s.append("UTILITY_LAYER");
    }
    s
}

/// The priority the generic rules give a called name when ordering call
/// lists; lower sorts first.
pub open spec fn default_priority_of(name: Seq<char>) -> u8 {
    if is_prefix("extract_"@, name) {
        1
    } else if is_prefix("process_"@, name) {
        2
    } else if is_prefix("build_"@, name) {
        3
    } else if is_prefix("format_"@, name) {
        4
    } else if contains_seq(name, "::new"@) || name == "new"@ {
        1
    } else if contains_seq(name, "parse"@) {
        1
    } else {
        5
    }
}

fn default_priority_exec(name: &str) -> (r: u8)
    ensures
        r == default_priority_of(name@),
{
    let nc = str_chars(name);
    if chars_start_with(&nc, &str_chars("extract_")) {
        1
    } else if chars_start_with(&nc, &str_chars("process_")) {
        2
    } else if chars_start_with(&nc, &str_chars("build_")) {
        3
    } else if chars_start_with(&nc, &str_chars("format_")) {
        4
    } else if chars_contain_seq(&nc, &str_chars("::new")) || crate::text::str_eq(name, "new") {
        1
    } else if chars_contain_seq(&nc, &str_chars("parse")) {
        1
    } else {
        5
    }
}

/// The generic language adapter: cluster and priority rules that fit any
/// language.
pub struct DefaultLanguageAdapter;

impl DefaultLanguageAdapter {
    pub fn new() -> (r: Self)
        ensures
            true,
    {
        Self
    }

    /// The cluster for a node, as `default_cluster_of` describes over its
    /// file path.
    pub fn classify_node_cluster(&self, node: &Node) -> (r: String)
        ensures
            r@ == default_cluster_of(node.file_path@),
    {
        default_cluster_exec(&node.file_path)
    }

    /// The call-ordering priority, as `default_priority_of` describes.
    pub fn get_call_priority(&self, call_name: &str) -> (r: u8)
        ensures
            r == default_priority_of(call_name@),
    {
        default_priority_exec(call_name)
    }
}

/// The cluster the Python-specific rules place a node in; paths outside the
/// recognized layouts fall back to the generic rules.
pub open spec fn python_cluster_of(path: Seq<char>, name: Seq<char>) -> Seq<char> {
    if contains_seq(path, "/services/"@) {
        "SERVICES"@
    } else if contains_seq(path, "/models/"@) || contains_seq(path, "/entities/"@) {
        "DATA_MODELS"@
    } else if contains_seq(path, "/views/"@) {
        "VIEWS"@
    } else if contains_seq(path, "/controllers/"@) {
        "CONTROLLERS"@
    } else if contains_seq(path, "/api/"@) {
        "API_LAYER"@
    } else if contains_seq(path, "/utils/"@) || contains_seq(path, "/helpers/"@) {
        "UTILS"@
    } else if contains_seq(path, "/tests/"@) || is_prefix("test_"@, name) {
        "TESTS"@
    } else {
        default_cluster_of(path)
    }
}

/// The priority the Python-specific rules give a called name; unrecognized
/// names fall back to the generic rules.
pub open spec fn python_priority_of(name: Seq<char>) -> u8 {
    if is_prefix("load_"@, name) || is_prefix("save_"@, name) || is_prefix("from_"@, name)
        || is_prefix("to_"@, name) || is_prefix("parse"@, name) {
        1
    } else if name == "__init__"@ {
        1
    } else if is_prefix("fit"@, name) || is_prefix("predict"@, name) {
        2
    } else {
        default_priority_of(name)
    }
}

/// The Python-tuned language adapter.
pub struct PythonLanguageAdapter;

impl PythonLanguageAdapter {
    pub fn new() -> (r: Self)
        ensures
            true,
    {
        Self
    }

    /// The cluster for a node, as `python_cluster_of` describes over its file
    /// path and name.
    pub fn classify_node_cluster(&self, node: &Node) -> (r: String)
        ensures
            r@ == python_cluster_of(node.file_path@, node.name@),
    {
        let pc = str_chars(node.file_path.as_str());
        let name_chars = str_chars(node.name.as_str());
        let mut s = String::new();
        if chars_contain_seq(&pc, &str_chars("/services/")) {
            s.append("SERVICES");
        } else if chars_contain_seq(&pc, &str_chars("/models/")) || chars_contain_seq(
            &pc,
            &str_chars("/entities/"),
        ) {
            s.append("DATA_MODELS");
        } else if chars_contain_seq(&pc, &str_chars("/views/")) {
            s.append("VIEWS");
        } else if chars_contain_seq(&pc, &str_chars("/controllers/")) {
            s.append("CONTROLLERS");
        } else if chars_contain_seq(&pc, &str_chars("/api/")) {
            s.append("API_LAYER");
        } else if chars_contain_seq(&pc, &str_chars("/utils/")) || chars_contain_seq(
            &pc,
            &str_chars("/helpers/"),
        ) {
            s.append("UTILS");
        } else if chars_contain_seq(&pc, &str_chars("/tests/")) || chars_start_with(
            &name_chars,
            &str_chars("test_"),
        ) {
            s.append("TESTS");
        } else {
            return default_cluster_exec(&node.file_path);
        }
        s
    }

    /// The call-ordering priority, as `python_priority_of` describes.
    pub fn get_call_priority(&self, call_name: &str) -> (r: u8)
        ensures
            r == python_priority_of(call_name@),
    {
        let nc = str_chars(call_name);
        if chars_start_with(&nc, &str_chars("load_")) || chars_start_with(&nc, &str_chars("save_"))
            || chars_start_with(&nc, &str_chars("from_")) || chars_start_with(
            &nc,
            &str_chars("to_"),
        ) || chars_start_with(&nc, &str_chars("parse")) {
            1
        } else if crate::text::str_eq(call_name, "__init__") {
            1
        } else if chars_start_with(&nc, &str_chars("fit")) || chars_start_with(
            &nc,
            &str_chars("predict"),
        ) {
            2
        } else {
            default_priority_exec(call_name)
        }
    }

    /// The Python-specific annotations of a node: constructor, test, and
    /// double-underscore markers.
    pub fn language_specific_annotations(&self, node: &Node) -> (r: Vec<String>)
        ensures
            r@.map_values(|s: String| s@) == python_annotations_of(node.name@),
    {
        let name_chars = str_chars(node.name.as_str());
        let mut out: Vec<String> = Vec::new();
        let ghost target = python_annotations_of(node.name@);
        if crate::text::str_eq(node.name.as_str(), "__init__") {
            let mut s = String::new();
            s.append("CTOR");
            out.push(s);
        }
        if chars_start_with(&name_chars, &str_chars("test_")) {
            let mut s = String::new();
            s.append("TEST");
            out.push(s);
        }
        if chars_start_with(&name_chars, &str_chars("__")) && ends_with_exec(&name_chars, "__") {
            let mut s = String::new();
            s.append("DUNDER");
            out.push(s);
        }
        proof {
            assert(out@.map_values(|s: String| s@) =~= target);
        }
        out
    }
}

/// Whether `s` ends with the characters of `suf`.
pub open spec fn is_suffix(suf: Seq<char>, s: Seq<char>) -> bool {
    suf.len() <= s.len() && s.skip(s.len() - suf.len()) == suf
}

fn ends_with_exec(v: &Vec<char>, suf: &str) -> (r: bool)
    ensures
        r == is_suffix(suf@, v@),
{
    let sc = str_chars(suf);
    if sc.len() > v.len() {
        return false;
    }
    let off = v.len() - sc.len();
    let mut i: usize = 0;
    while i < sc.len()
        invariant
            v@.len() <= usize::MAX,
            sc@ == suf@,
            sc@.len() <= v@.len(),
            off == v@.len() - sc@.len(),
            i <= sc@.len(),
            forall|j: int| 0 <= j < i ==> v@[off + j] == sc@[j],
        decreases sc@.len() - i,
    {
        if v[off + i] != sc[i] {
            proof {
                assert(v@.skip(off as int)[i as int] != suf@[i as int]);
            }
            return false;
        }
        i = i + 1;
    }
    proof {
        assert(v@.skip(off as int) =~= suf@);
    }
    true
}

/// The annotations the Python adapter attaches to a node name, in order.
pub open spec fn python_annotations_of(name: Seq<char>) -> Seq<Seq<char>> {
    let a = if name == "__init__"@ {
        seq!["CTOR"@]
    } else {
        Seq::<Seq<char>>::empty()
    };
    let b = if is_prefix("test_"@, name) {
        a.push("TEST"@)
    } else {
        a
    };
    if is_prefix("__"@, name) && is_suffix("__"@, name) {
        b.push("DUNDER"@)
    } else {
        b
    }
}

} // verus!
