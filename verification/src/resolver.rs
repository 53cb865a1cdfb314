//! The hash-indexed function and method resolver.
//!
//! `build_indexes` partitions `Function`-typed nodes into free functions and
//! methods (a method is a function whose id encodes a class segment) and
//! groups each partition into buckets keyed by a hash of the name.
//! `resolve_calls` turns each call site into at most one `Call` edge using a
//! per-call-type strategy: exact bucket lookup with scored candidate
//! selection for simple calls, an edit-distance fallback when the bucket is
//! absent, trailing-name lookup for method and attribute calls, and a
//! placeholder target for constructor calls that match nothing.

use vstd::prelude::*;

use std::collections::HashMap;
use std::collections::hash_map::DefaultHasher;
use std::hash::Hasher;
use rayon::iter::{IntoParallelRefIterator, ParallelIterator};
use vstd::std_specs::hash::DefaultHasherAdditionalSpecFns;

use crate::graph::{Edge, EdgeType, Node, NodeType};
use crate::strmap::StrMap;
use crate::text::{
    chars_contain_seq, chars_eq_str, chars_split, chars_string, clone_opt_string, contains_seq,
    dec_digits, lev, levenshtein, split_chars, str_chars, u64_string,
};

verus! {

broadcast use vstd::std_specs::hash::group_hash_axioms;

/// An indexed free function.
#[derive(Debug, Clone)]
pub struct FunctionEntry {
    pub node_id: String,
    pub name: String,
    pub file_path: String,
    pub line_number: usize,
    pub signature: Option<String>,
    pub class_context: Option<String>,
    pub module_context: String,
}

/// An indexed method: a function whose node id encodes an enclosing class.
#[derive(Debug, Clone)]
pub struct MethodEntry {
    pub node_id: String,
    pub name: String,
    pub class_name: String,
    pub file_path: String,
    pub line_number: usize,
    pub signature: Option<String>,
}

/// Shape classification of a call expression.
#[derive(Debug, Clone, Copy, PartialEq, Eq, Structural)]
pub enum CallType {
    SimpleCall,
    MethodCall,
    QualifiedCall,
    AttributeCall,
    DynamicCall,
    ConstructorCall,
}

/// A detected call expression awaiting resolution.
#[derive(Debug, Clone)]
pub struct CallSite {
    pub caller_id: String,
    pub called_name: String,
    pub call_type: CallType,
    pub context: Option<String>,
    pub line_number: usize,
}

impl CallSite {
    /// Duplicates the call site, field by field.
    pub fn duplicate(&self) -> (r: Self)
        ensures
            r == *self,
    {
        CallSite {
            caller_id: self.caller_id.clone(),
            called_name: self.called_name.clone(),
            call_type: self.call_type,
            context: clone_opt_string(&self.context),
            line_number: self.line_number,
        }
    }
}

/// The view of an edge as plain sequences, used to state what resolution
/// returns.
pub struct EdgeModel {
    pub edge_type: EdgeType,
    pub source_id: Seq<char>,
    pub target_id: Seq<char>,
    pub context: Option<Seq<char>>,
}

/// The view of an `Edge`.
pub open spec fn edge_model(e: Edge) -> EdgeModel {
    EdgeModel {
        edge_type: e.edge_type,
        source_id: e.source_id@,
        target_id: e.target_id@,
        context: match e.context {
            Some(c) => Some(c@),
            None => None,
        },
    }
}

pub open spec fn opt_edge_model(r: Option<Edge>) -> Option<EdgeModel> {
    match r {
        Some(e) => Some(edge_model(e)),
        None => None,
    }
}

/// The view of the resolver: the two hashed indexes, the import-alias table,
/// and the indexed free functions in insertion order.
pub struct ResolverModel {
    pub fn_index: Map<u64, Seq<FnEntryModel>>,
    pub method_index: Map<u64, Seq<MethodEntryModel>>,
    pub imports: Map<Seq<char>, Seq<char>>,
    pub all_fns: Seq<FnEntryModel>,
}

/// The hash under which a name is indexed.
pub open spec fn name_hash(s: Seq<char>) -> u64 {
    DefaultHasher::spec_finish(seq![vstd::utf8::encode_utf8(s)])
}

/// Computes the indexing hash of a name.
pub fn compute_hash(name: &str) -> (r: u64)
    ensures
        r == name_hash(name@),
{
    let mut hasher = DefaultHasher::new();
    hasher.write(name.as_bytes());
    hasher.finish()
}

/// The class segment a node id encodes: the third `:`-separated piece, when
/// the second piece is `class`.
pub open spec fn class_of_id(id: Seq<char>) -> Option<Seq<char>> {
    let parts = split_chars(id, ':');
    if parts.len() >= 3 && parts[1] == "class"@ {
        Some(parts[2])
    } else {
        None
    }
}

/// The path with its trailing `/` characters removed.
pub open spec fn strip_trailing_slashes(p: Seq<char>) -> Seq<char>
    decreases p.len(),
{
    if p.len() > 0 && p.last() == '/' {
        strip_trailing_slashes(p.drop_last())
    } else {
        p
    }
}

/// The module a file path denotes: its last `/`-separated piece, trailing
/// slashes ignored, with the extension after its last non-leading `.`
/// removed; `unknown` when no piece is left or the piece is a relative-dot
/// component. A dot component standing before the last piece is kept as it
/// is, not resolved away.
pub open spec fn module_of_path(p: Seq<char>) -> Seq<char> {
    let comps = split_chars(strip_trailing_slashes(p), '/');
    let name = comps.last();
    if name.len() == 0 || name == "."@ || name == ".."@ {
        "unknown"@
    } else {
        stem_of(name)
    }
}

/// The file name with the extension after its last non-leading `.` removed.
pub open spec fn stem_of(name: Seq<char>) -> Seq<char> {
    if exists|j: int| 0 < j < name.len() && name[j] == '.' {
        let j = last_dot(name);
        name.take(j)
    } else {
        name
    }
}

/// The greatest non-leading index of a `.` in `name`.
pub open spec fn last_dot(name: Seq<char>) -> int {
    choose|j: int|
        0 < j < name.len() && name[j] == '.' && (forall|k: int|
            j < k < name.len() ==> name[k] != '.')
}

pub proof fn lemma_last_dot(name: Seq<char>)
    requires
        exists|j: int| 0 < j < name.len() && name[j] == '.',
    ensures
        0 < last_dot(name) < name.len(),
        name[last_dot(name)] == '.',
        forall|k: int| last_dot(name) < k < name.len() ==> name[k] != '.',
    decreases name.len(),
{
    let j0 = choose|j: int| 0 < j < name.len() && name[j] == '.';
    if exists|j: int| j0 < j < name.len() && name[j] == '.' {
        let prefix = name.take(name.len() - 1);
        if name.last() == '.' && name.len() >= 2 {
            let w = (name.len() - 1) as int;
            assert(0 < w < name.len() && name[w] == '.' && (forall|k: int|
                w < k < name.len() ==> name[k] != '.'));
        } else {
            assert(0 < j0 < prefix.len() && prefix[j0] == '.');
            lemma_last_dot(prefix);
            let w = last_dot(prefix);
            assert(name[w] == '.');
            assert(forall|k: int| w < k < name.len() ==> name[k] != '.') by {
                assert(forall|k: int| w < k < prefix.len() ==> prefix[k] != '.');
                assert(forall|k: int| w < k < name.len() - 1 ==> name[k] == prefix[k]);
            }
            assert(0 < w < name.len() && name[w] == '.' && (forall|k: int|
                w < k < name.len() ==> name[k] != '.'));
        }
    } else {
        assert(0 < j0 < name.len() && name[j0] == '.' && (forall|k: int|
            j0 < k < name.len() ==> name[k] != '.'));
    }
}

/// The view of an option of a string.
pub open spec fn opt_str_view(o: Option<String>) -> Option<Seq<char>> {
    match o {
        Some(s) => Some(s@),
        None => None,
    }
}

/// The view of an indexed free function as plain sequences.
pub struct FnEntryModel {
    pub node_id: Seq<char>,
    pub name: Seq<char>,
    pub file_path: Seq<char>,
    pub line_number: usize,
    pub signature: Option<Seq<char>>,
    pub class_context: Option<Seq<char>>,
    pub module_context: Seq<char>,
}

/// The view of an indexed method as plain sequences.
pub struct MethodEntryModel {
    pub node_id: Seq<char>,
    pub name: Seq<char>,
    pub class_name: Seq<char>,
    pub file_path: Seq<char>,
    pub line_number: usize,
    pub signature: Option<Seq<char>>,
}

/// The view of a call site as plain sequences.
pub struct CallModel {
    pub caller_id: Seq<char>,
    pub called_name: Seq<char>,
    pub call_type: CallType,
    pub context: Option<Seq<char>>,
    pub line_number: usize,
}

pub open spec fn fe_model(e: FunctionEntry) -> FnEntryModel {
    FnEntryModel {
        node_id: e.node_id@,
        name: e.name@,
        file_path: e.file_path@,
        line_number: e.line_number,
        signature: opt_str_view(e.signature),
        class_context: opt_str_view(e.class_context),
        module_context: e.module_context@,
    }
}

pub open spec fn me_model(e: MethodEntry) -> MethodEntryModel {
    MethodEntryModel {
        node_id: e.node_id@,
        name: e.name@,
        class_name: e.class_name@,
        file_path: e.file_path@,
        line_number: e.line_number,
        signature: opt_str_view(e.signature),
    }
}

pub open spec fn cs_model(cs: CallSite) -> CallModel {
    CallModel {
        caller_id: cs.caller_id@,
        called_name: cs.called_name@,
        call_type: cs.call_type,
        context: opt_str_view(cs.context),
        line_number: cs.line_number,
    }
}

/// The free-function entry a `Function` node without a class segment yields.
pub open spec fn fn_entry_of(n: Node) -> FnEntryModel {
    FnEntryModel {
        node_id: n.id@,
        name: n.name@,
        file_path: n.file_path@,
        line_number: n.line_number,
        signature: opt_str_view(n.signature),
        class_context: None,
        module_context: module_of_path(n.file_path@),
    }
}

/// The method entry a `Function` node with class segment `cls` yields.
pub open spec fn method_entry_of(n: Node, cls: Seq<char>) -> MethodEntryModel {
    MethodEntryModel {
        node_id: n.id@,
        name: n.name@,
        class_name: cls,
        file_path: n.file_path@,
        line_number: n.line_number,
        signature: opt_str_view(n.signature),
    }
}

/// Appends `e` to the bucket keyed `h`, starting the bucket when absent.
pub open spec fn push_bucket<T>(m: Map<u64, Seq<T>>, h: u64, e: T) -> Map<u64, Seq<T>> {
    if m.contains_key(h) {
        m.insert(h, m[h].push(e))
    } else {
        m.insert(h, seq![e])
    }
}

/// Extracts the class segment of a node id, as `class_of_id` describes.
pub fn extract_class_from_id(node_id: &str) -> (r: Option<String>)
    ensures
        match (r, class_of_id(node_id@)) {
            (Some(s), Some(m)) => s@ == m,
            (None, None) => true,
            _ => false,
        },
{
    let idc = str_chars(node_id);
    let parts = chars_split(&idc, ':');
    proof {
        assert(parts@.map_values(|p: Vec<char>| p@).len() == parts@.len());
        assert(parts@.map_values(|p: Vec<char>| p@)[1] == parts@[1]@ || parts@.len() < 2);
    }
    if parts.len() >= 3 && chars_eq_str(&parts[1], "class") {
        proof {
            assert(split_chars(node_id@, ':')[2] == parts@[2]@);
        }
        Some(chars_string(&parts[2]))
    } else {
        None
    }
}

/// Extracts the module name of a file path, as `module_of_path` describes.
pub fn extract_module_from_path(file_path: &str) -> (r: String)
    ensures
        r@ == module_of_path(file_path@),
{
    let pc = str_chars(file_path);
    let mut end: usize = pc.len();
    proof {
        assert(pc@.take(pc@.len() as int) =~= pc@);
    }
    while end > 0 && pc[end - 1] == '/'
        invariant
            end <= pc@.len(),
            strip_trailing_slashes(pc@) == strip_trailing_slashes(pc@.take(end as int)),
        decreases end,
    {
        end = end - 1;
        proof {
            assert(pc@.take(end + 1).last() == '/');
            assert(pc@.take(end + 1).drop_last() =~= pc@.take(end as int));
        }
    }
    proof {
        assert(strip_trailing_slashes(pc@.take(end as int)) == pc@.take(end as int));
    }
    let mut trimmed: Vec<char> = Vec::new();
    let mut t: usize = 0;
    while t < end
        invariant
            end <= pc@.len(),
            t <= end,
            trimmed@ == pc@.take(t as int),
        decreases end - t,
    {
        trimmed.push(pc[t]);
        t = t + 1;
        proof {
            assert(trimmed@ =~= pc@.take(t as int));
        }
    }
    let comps = chars_split(&trimmed, '/');
    let name = &comps[comps.len() - 1];
    proof {
        assert(comps@.map_values(|p: Vec<char>| p@).len() == comps@.len());
        assert(comps@.map_values(|p: Vec<char>| p@).last() == comps@.last()@);
    }
    if name.len() == 0 || chars_eq_str(name, ".") || chars_eq_str(name, "..") {
        let mut s = String::new();
        s.append("unknown");
        return s;
    }
    // scan for the last non-leading dot
    let mut dot: usize = 0;
    let mut j: usize = 1;
    while j < name.len()
        invariant
            1 <= j <= name@.len(),
            dot < j,
            dot != 0 ==> name@[dot as int] == '.',
            forall|k: int| dot < k < j ==> name@[k] != '.',
            dot == 0 ==> forall|k: int| 0 < k < j ==> name@[k] != '.',
        decreases name@.len() - j,
    {
        if name[j] == '.' {
            dot = j;
        }
        j = j + 1;
    }
    if dot == 0 {
        proof {
            assert(!(exists|j: int| 0 < j < name@.len() && name@[j] == '.'));
        }
        chars_string(name)
    } else {
        proof {
            assert(name@[dot as int] == '.');
            lemma_last_dot(name@);
            let w = last_dot(name@);
            assert(w == dot as int) by {
                if w < dot {
                    assert(name@[dot as int] != '.');
                } else if w > dot {
                    assert(name@[w] != '.');
                }
            }
        }
        let mut stem: Vec<char> = Vec::new();
        let mut k: usize = 0;
        while k < dot
            invariant
                dot <= name@.len(),
                k <= dot,
                stem@ == name@.take(k as int),
            decreases dot - k,
        {
            stem.push(name[k]);
            k = k + 1;
            proof {
                assert(stem@ =~= name@.take(k as int));
            }
        }
        chars_string(&stem)
    }
}

/// The resolver state after indexing one node: `Function`-typed nodes are
/// filed as a method when their id encodes a class, else as a free function;
/// all other nodes leave the indexes unchanged.
pub open spec fn index_step(st: ResolverModel, n: Node) -> ResolverModel {
    if n.node_type != NodeType::Function {
        st
    } else {
        match class_of_id(n.id@) {
            Some(cls) => {
                let me = method_entry_of(n, cls);
                ResolverModel {
                    method_index: push_bucket(st.method_index, name_hash(me.name), me),
                    ..st
                }
            },
            None => {
                let fe = fn_entry_of(n);
                ResolverModel {
                    fn_index: push_bucket(st.fn_index, name_hash(fe.name), fe),
                    all_fns: st.all_fns.push(fe),
                    ..st
                }
            },
        }
    }
}

/// The resolver state after indexing each node of `ns` in order.
pub open spec fn index_run(st: ResolverModel, ns: Seq<Node>) -> ResolverModel
    decreases ns.len(),
{
    if ns.len() == 0 {
        st
    } else {
        index_step(index_run(st, ns.drop_last()), ns.last())
    }
}

/// The state of a resolver with nothing indexed.
pub open spec fn empty_model() -> ResolverModel {
    ResolverModel {
        fn_index: Map::empty(),
        method_index: Map::empty(),
        imports: Map::empty(),
        all_fns: Seq::empty(),
    }
}

/// Maps function calls to their definitions through hashed name indexes.
pub struct FunctionResolver {
    function_index: HashMap<u64, Vec<FunctionEntry>>,
    method_index: HashMap<u64, Vec<MethodEntry>>,
    import_mapping: StrMap<String>,
    all_functions: Vec<FunctionEntry>,
}

impl FunctionResolver {
    /// The resolver's contents.
    pub closed spec fn view(&self) -> ResolverModel {
        ResolverModel {
            fn_index: self.function_index@.map_values(
                |v: Vec<FunctionEntry>| v@.map_values(|e: FunctionEntry| fe_model(e)),
            ),
            method_index: self.method_index@.map_values(
                |v: Vec<MethodEntry>| v@.map_values(|e: MethodEntry| me_model(e)),
            ),
            imports: self.import_mapping@.map_values(|s: String| s@),
            all_fns: self.all_functions@.map_values(|e: FunctionEntry| fe_model(e)),
        }
    }

    /// Well-formedness of the import-alias table.
    pub closed spec fn inv(&self) -> bool {
        self.import_mapping.inv()
    }

    /// A resolver with nothing indexed.
    pub fn new() -> (r: Self)
        ensures
            r.inv(),
            r@ == empty_model(),
    {
        let r = FunctionResolver {
            function_index: HashMap::new(),
            method_index: HashMap::new(),
            import_mapping: StrMap::new(),
            all_functions: Vec::new(),
        };
        proof {
            assert(r@.fn_index =~= empty_model().fn_index);
            assert(r@.method_index =~= empty_model().method_index);
            assert(r@.all_fns =~= empty_model().all_fns);
            assert(r@.imports =~= empty_model().imports);
            assert(r@ == empty_model());
        }
        r
    }

    /// Rebuilds both indexes from scratch over the given nodes, as
    /// `index_run` describes. The import table stays empty: the alias parser
    /// is a deliberate stub.
    pub fn build_indexes(&mut self, nodes: &Vec<Node>) -> (r: Result<(), ResolverError>)
        requires
            old(self).inv(),
        ensures
            final (self).inv(),
            final (self)@ == index_run(empty_model(), nodes@),
            r is Ok,
    {
        self.function_index = HashMap::new();
        self.method_index = HashMap::new();
        self.all_functions = Vec::new();
        self.import_mapping = StrMap::new();
        proof {
            assert(self@.fn_index =~= empty_model().fn_index);
            assert(self@.method_index =~= empty_model().method_index);
            assert(self@.all_fns =~= empty_model().all_fns);
            assert(self@.imports =~= empty_model().imports);
            assert(self@ == empty_model());
        }
        let mut i: usize = 0;
        while i < nodes.len()
            invariant
                self.inv(),
                i <= nodes@.len(),
                self@ == index_run(empty_model(), nodes@.take(i as int)),
            decreases nodes@.len() - i,
        {
            let ghost prev = self@;
            let node = &nodes[i];
            if node.node_type == NodeType::Function {
                match extract_class_from_id(node.id.as_str()) {
                    Some(class_name) => {
                        let me = MethodEntry {
                            node_id: node.id.clone(),
                            name: node.name.clone(),
                            class_name,
                            file_path: node.file_path.clone(),
                            line_number: node.line_number,
                            signature: clone_opt_string(&node.signature),
                        };
                        proof {
                            assert(me_model(me) == method_entry_of(
                                nodes@[i as int],
                                class_of_id(nodes@[i as int].id@)->Some_0,
                            ));
                        }
                        let h = compute_hash(me.name.as_str());
                        let ghost mm0 = self.method_index@;
                        let ghost me0 = me;
                        match self.method_index.remove(&h) {
                            Some(mut b) => {
                                b.push(me);
                                let ghost bview = b@;
                                self.method_index.insert(h, b);
                                proof {
                                    assert(bview == mm0[h]@.push(me0));
                                    assert(self.method_index@ =~= mm0.remove(h).insert(h, b));
                                }
                            },
                            None => {
                                let mut b: Vec<MethodEntry> = Vec::new();
                                b.push(me);
                                let ghost bview = b@;
                                self.method_index.insert(h, b);
                                proof {
                                    assert(bview =~= seq![me0]);
                                    assert(self.method_index@ =~= mm0.remove(h).insert(h, b));
                                }
                            },
                        }
                        proof {
                            assert(self@.method_index =~= push_bucket(
                                prev.method_index,
                                h,
                                me_model(me0),
                            )) by {
                                if mm0.contains_key(h) {
                                    assert(mm0[h]@.push(me0).map_values(
                                        |e: MethodEntry| me_model(e),
                                    ) =~= mm0[h]@.map_values(|e: MethodEntry| me_model(e)).push(
                                        me_model(me0),
                                    ));
                                } else {
                                    assert(seq![me0].map_values(|e: MethodEntry| me_model(e))
                                        =~= seq![me_model(me0)]);
                                }
                            }
                            assert(self@ == index_step(prev, nodes@[i as int]));
                        }
                    },
                    None => {
                        let fe = FunctionEntry {
                            node_id: node.id.clone(),
                            name: node.name.clone(),
                            file_path: node.file_path.clone(),
                            line_number: node.line_number,
                            signature: clone_opt_string(&node.signature),
                            class_context: None,
                            module_context: extract_module_from_path(node.file_path.as_str()),
                        };
                        let fe2 = FunctionEntry {
                            node_id: node.id.clone(),
                            name: node.name.clone(),
                            file_path: node.file_path.clone(),
                            line_number: node.line_number,
                            signature: clone_opt_string(&node.signature),
                            class_context: None,
                            module_context: extract_module_from_path(node.file_path.as_str()),
                        };
                        proof {
                            assert(fe_model(fe) == fn_entry_of(nodes@[i as int]));
                            assert(fe_model(fe2) == fn_entry_of(nodes@[i as int]));
                        }
                        let h = compute_hash(fe.name.as_str());
                        self.all_functions.push(fe2);
                        let ghost fm0 = self.function_index@;
                        let ghost fe0 = fe;
                        match self.function_index.remove(&h) {
                            Some(mut b) => {
                                b.push(fe);
                                let ghost bview = b@;
                                self.function_index.insert(h, b);
                                proof {
                                    assert(bview == fm0[h]@.push(fe0));
                                    assert(self.function_index@ =~= fm0.remove(h).insert(h, b));
                                }
                            },
                            None => {
                                let mut b: Vec<FunctionEntry> = Vec::new();
                                b.push(fe);
                                let ghost bview = b@;
                                self.function_index.insert(h, b);
                                proof {
                                    assert(bview =~= seq![fe0]);
                                    assert(self.function_index@ =~= fm0.remove(h).insert(h, b));
                                }
                            },
                        }
                        proof {
                            assert(self@.fn_index =~= push_bucket(
                                prev.fn_index,
                                h,
                                fe_model(fe0),
                            )) by {
                                if fm0.contains_key(h) {
                                    assert(fm0[h]@.push(fe0).map_values(
                                        |e: FunctionEntry| fe_model(e),
                                    ) =~= fm0[h]@.map_values(|e: FunctionEntry| fe_model(e)).push(
                                        fe_model(fe0),
                                    ));
                                } else {
                                    assert(seq![fe0].map_values(|e: FunctionEntry| fe_model(e))
                                        =~= seq![fe_model(fe0)]);
                                }
                            }
                            assert(self@.all_fns =~= prev.all_fns.push(fe_model(fe0)));
                            assert(self@ == index_step(prev, nodes@[i as int]));
                        }
                    },
                }
            } else {
                proof {
                    assert(self@ == index_step(prev, nodes@[i as int]));
                }
            }
            i = i + 1;
            proof {
                assert(nodes@.take(i as int).drop_last() =~= nodes@.take(i - 1));
                assert(nodes@.take(i as int).last() == nodes@[i - 1]);
            }
        }
        proof {
            assert(nodes@.take(nodes@.len() as int) =~= nodes@);
        }
        self.build_import_mapping(nodes);
        Ok(())
    }

    /// Fills the import-alias table from `Module` nodes. Statement parsing is
    /// a deliberate stub, so the table never gains an entry.
    fn build_import_mapping(&mut self, nodes: &Vec<Node>)
        requires
            old(self).inv(),
        ensures
            final (self).inv(),
            *final (self) == *old(self),
    {
        let import_pat = str_chars("import");
        let mut i: usize = 0;
        while i < nodes.len()
            invariant
                self.inv(),
                *self == *old(self),
                i <= nodes@.len(),
            decreases nodes@.len() - i,
        {
            let node = &nodes[i];
            if node.node_type == NodeType::Module {
                let name_chars = str_chars(node.name.as_str());
                if chars_contain_seq(&name_chars, &import_pat) {
                    self.parse_import_statement(node.name.as_str());
                }
            }
            i = i + 1;
        }
    }

    /// Records the aliases an import statement binds; the underlying parser
    /// is a deliberate stub that recognizes nothing.
    fn parse_import_statement(&mut self, import_stmt: &str)
        requires
            old(self).inv(),
        ensures
            final (self).inv(),
            *final (self) == *old(self),
    {
        let stmt_chars = str_chars(import_stmt);
        let from_pat = str_chars("from");
        let import_pat = str_chars("import");
        if chars_contain_seq(&stmt_chars, &from_pat) && chars_contain_seq(
            &stmt_chars,
            &import_pat,
        ) {
            // The alias parser recognizes nothing yet, so there are no
            // pairs to record.
            let _ = self.parse_from_import(import_stmt);
        }
    }

    /// Parses a `from ... import ...` statement into alias pairs; a stub
    /// that recognizes nothing, pending real per-language import parsing.
    fn parse_from_import(&self, stmt: &str) -> (r: Option<Vec<(String, String)>>)
        ensures
            r is None,
    {
        None
    }
}

/// The score of a candidate for a simple call: same file as the call-site
/// context, same module, no class context, and exact name match, weighted so
/// that an exact name beats every combination without one.
pub open spec fn score_of(c: FnEntryModel, cs: CallModel) -> int {
    (match cs.context {
        Some(ctx) => (if contains_seq(ctx, c.file_path) {
            100int
        } else {
            0int
        }) + (if contains_seq(ctx, c.module_context) {
            50int
        } else {
            0int
        }),
        None => 0int,
    }) + (if c.class_context is None {
        25int
    } else {
        0int
    }) + (if c.name == cs.called_name {
        200int
    } else {
        0int
    })
}

/// The candidate standing after scanning `cands` from position `i`, starting
/// from `best` with score `best_score`; a later candidate wins only with a
/// strictly greater score.
pub open spec fn scan_best(
    cands: Seq<FnEntryModel>,
    cs: CallModel,
    i: int,
    best: FnEntryModel,
    best_score: int,
) -> FnEntryModel
    decreases cands.len() - i,
{
    if i < 0 || i >= cands.len() {
        best
    } else {
        let sc = score_of(cands[i], cs);
        if sc > best_score {
            scan_best(cands, cs, i + 1, cands[i], sc)
        } else {
            scan_best(cands, cs, i + 1, best, best_score)
        }
    }
}

/// The candidate a simple call picks from a bucket: the single candidate
/// when there is one, else the best-scoring one, earliest first on ties.
pub open spec fn select_best(cands: Seq<FnEntryModel>, cs: CallModel) -> Option<FnEntryModel> {
    if cands.len() == 0 {
        None
    } else if cands.len() == 1 {
        Some(cands[0])
    } else {
        Some(scan_best(cands, cs, 0, cands[0], 0))
    }
}

pub open spec fn line_ctx(line: usize) -> Seq<char> {
    "line:"@ + dec_digits(line as nat)
}

pub open spec fn method_ctx(line: usize) -> Seq<char> {
    "method_call:line:"@ + dec_digits(line as nat)
}

pub open spec fn attribute_ctx(line: usize) -> Seq<char> {
    "attribute_call:line:"@ + dec_digits(line as nat)
}

pub open spec fn fuzzy_ctx(line: usize) -> Seq<char> {
    "fuzzy_match:line:"@ + dec_digits(line as nat)
}

/// The `Call` edge a resolution yields: from the caller to `target`.
pub open spec fn call_edge_model(
    cs: CallModel,
    target: Seq<char>,
    ctx: Option<Seq<char>>,
) -> EdgeModel {
    EdgeModel { edge_type: EdgeType::Call, source_id: cs.caller_id, target_id: target, context: ctx }
}

/// The case folding of a sequence of characters, as `str::to_lowercase`
/// performs it: a function of the characters alone.
pub uninterp spec fn lower_of(s: Seq<char>) -> Seq<char>;

/// Relies on std's `str::to_lowercase`: Unicode lowercasing, depending on
/// the characters alone.
#[verifier::external_body]
fn lowercase(s: &str) -> (r: String)
    ensures
        r@ == lower_of(s@),
{
    s.to_lowercase()
}

/// Eligibility for the edit-distance fallback: the candidate's name is
/// longer than three characters and its folded form is within distance two
/// of the folded target.
pub open spec fn fuzzy_eligible(target_lower: Seq<char>, c: FnEntryModel) -> bool {
    c.name.len() > 3 && lev(target_lower, lower_of(c.name)) <= 2
}

/// The fallback match standing after scanning the indexed functions from
/// position `i`: an eligible candidate replaces `best` only with a strictly
/// smaller distance.
pub open spec fn fuzzy_scan(
    fns: Seq<FnEntryModel>,
    target_lower: Seq<char>,
    i: int,
    best: Option<(FnEntryModel, nat)>,
) -> Option<(FnEntryModel, nat)>
    decreases fns.len() - i,
{
    if i < 0 || i >= fns.len() {
        best
    } else {
        let c = fns[i];
        let d = lev(target_lower, lower_of(c.name));
        let better = fuzzy_eligible(target_lower, c) && (best is None || d < best->Some_0.1);
        fuzzy_scan(
            fns,
            target_lower,
            i + 1,
            if better {
                Some((c, d))
            } else {
                best
            },
        )
    }
}

/// Resolution of a simple call when its name's hash has no bucket: the
/// closest eligible indexed function by edit distance, if any.
pub open spec fn resolve_fuzzy(m: ResolverModel, cs: CallModel) -> Option<EdgeModel> {
    match fuzzy_scan(m.all_fns, lower_of(cs.called_name), 0, None) {
        Some(p) => Some(call_edge_model(cs, p.0.node_id, Some(fuzzy_ctx(cs.line_number)))),
        None => None,
    }
}

/// Resolution of a simple call: scored selection from the bucket of the
/// name's hash when that bucket exists, else the edit-distance fallback.
pub open spec fn resolve_simple(m: ResolverModel, cs: CallModel) -> Option<EdgeModel> {
    let h = name_hash(cs.called_name);
    if m.fn_index.contains_key(h) {
        match select_best(m.fn_index[h], cs) {
            Some(best) => Some(call_edge_model(cs, best.node_id, Some(line_ctx(cs.line_number)))),
            None => None,
        }
    } else {
        resolve_fuzzy(m, cs)
    }
}

/// Resolution of a method call: the first candidate in the bucket of the
/// trailing name segment, if any.
pub open spec fn resolve_method(m: ResolverModel, cs: CallModel) -> Option<EdgeModel> {
    let name = split_chars(cs.called_name, '.').last();
    let h = name_hash(name);
    if m.method_index.contains_key(h) && m.method_index[h].len() > 0 {
        Some(call_edge_model(cs, m.method_index[h][0].node_id, Some(method_ctx(cs.line_number))))
    } else {
        None
    }
}

/// Resolution of an attribute call: the first candidate in the bucket of the
/// trailing identifier, if any.
pub open spec fn resolve_attribute(m: ResolverModel, cs: CallModel) -> Option<EdgeModel> {
    let name = split_chars(cs.called_name, '.').last();
    let h = name_hash(name);
    if m.method_index.contains_key(h) && m.method_index[h].len() > 0 {
        Some(call_edge_model(cs, m.method_index[h][0].node_id, Some(attribute_ctx(cs.line_number))))
    } else {
        None
    }
}

/// Resolution of a qualified call: a single-segment name falls back to
/// simple-call resolution; module resolution itself is a deliberate stub that
/// matches nothing.
pub open spec fn resolve_qualified(m: ResolverModel, cs: CallModel) -> Option<EdgeModel> {
    let parts = split_chars(cs.called_name, '.');
    if parts.len() < 2 {
        resolve_simple(m, cs)
    } else {
        None
    }
}

/// The constructor candidate standing at or after position `i`: the first
/// one whose name is the class name or a conventional constructor token, or
/// whose class context is the class name.
pub open spec fn ctor_hit(cands: Seq<FnEntryModel>, class_name: Seq<char>, i: int) -> Option<
    FnEntryModel,
>
    decreases cands.len() - i,
{
    if i < 0 || i >= cands.len() {
        None
    } else {
        let c = cands[i];
        if c.name == class_name || c.name == "__init__"@ || c.name == "constructor"@
            || c.class_context == Some(class_name) {
            Some(c)
        } else {
            ctor_hit(cands, class_name, i + 1)
        }
    }
}

/// Resolution of a constructor call: a matching indexed function if one
/// exists, else an edge to the placeholder id `external:class:<name>:0`, so
/// the call is never lost.
pub open spec fn resolve_constructor(m: ResolverModel, cs: CallModel) -> Option<EdgeModel> {
    let h = name_hash(cs.called_name);
    let hit = if m.fn_index.contains_key(h) {
        ctor_hit(m.fn_index[h], cs.called_name, 0)
    } else {
        None
    };
    match hit {
        Some(c) => Some(call_edge_model(cs, c.node_id, None)),
        None => Some(
            call_edge_model(cs, "external:class:"@ + cs.called_name + ":0"@, None),
        ),
    }
}

/// Resolution of one call site, by its call type. Dynamic calls resolve to
/// nothing: both dynamic strategies are deliberate stubs.
pub open spec fn resolve_one(m: ResolverModel, cs: CallModel) -> Option<EdgeModel> {
    match cs.call_type {
        CallType::SimpleCall => resolve_simple(m, cs),
        CallType::MethodCall => resolve_method(m, cs),
        CallType::QualifiedCall => resolve_qualified(m, cs),
        CallType::AttributeCall => resolve_attribute(m, cs),
        CallType::DynamicCall => None,
        CallType::ConstructorCall => resolve_constructor(m, cs),
    }
}

/// The edges that resolving each call site in order yields; an unresolved
/// site yields none.
pub open spec fn resolve_all(m: ResolverModel, sites: Seq<CallModel>) -> Seq<EdgeModel>
    decreases sites.len(),
{
    if sites.len() == 0 {
        Seq::empty()
    } else {
        resolve_all(m, sites.drop_last()) + (match resolve_one(m, sites.last()) {
            Some(e) => seq![e],
            None => Seq::empty(),
        })
    }
}

/// Builds the string `prefix` followed by `line` in decimal.
fn make_context(prefix: &str, line: usize) -> (r: String)
    ensures
        r@ == prefix@ + dec_digits(line as nat),
{
    let mut s = String::new();
    s.append(prefix);
    let digits = u64_string(line as u64);
    s.append(digits.as_str());
    s
}

impl FunctionResolver {
    /// Resolves every call site against the built indexes and returns the
    /// resulting `Call` edges, as `resolve_all` describes.
    ///
    /// Relies on rayon's `par_iter().map(..).collect()`: the collected vector
    /// holds, in order, one result of the verified single-site resolution per
    /// call site; the sites are resolved independently and read-only.
    #[verifier::external_body]
    fn resolve_calls_parallel(&self, call_sites: &Vec<CallSite>) -> (r: Vec<Option<Edge>>)
        requires
            self.inv(),
        ensures
            r@.len() == call_sites@.len(),
            forall|i: int|
                0 <= i < r@.len() ==> opt_edge_model(r@[i]) == resolve_one(
                    self@,
                    cs_model(call_sites@[i]),
                ),
    {
        call_sites.par_iter().map(|cs| self.resolve_single_call(cs)).collect()
    }

    /// Resolves every call site into zero or one `Call` edge each, in order.
    pub fn resolve_calls(&self, call_sites: &Vec<CallSite>) -> (r: Vec<Edge>)
        requires
            self.inv(),
        ensures
            r@.map_values(|e: Edge| edge_model(e)) == resolve_all(
                self@,
                call_sites@.map_values(|cs: CallSite| cs_model(cs)),
            ),
    {
        let results = self.resolve_calls_parallel(call_sites);
        let ghost sites = call_sites@.map_values(|cs: CallSite| cs_model(cs));
        let mut edges: Vec<Edge> = Vec::new();
        let mut i: usize = 0;
        while i < results.len()
            invariant
                results@.len() == sites.len(),
                forall|j: int|
                    0 <= j < results@.len() ==> opt_edge_model(results@[j]) == resolve_one(
                        self@,
                        sites[j],
                    ),
                i <= results@.len(),
                edges@.map_values(|e: Edge| edge_model(e)) == resolve_all(
                    self@,
                    sites.take(i as int),
                ),
            decreases results@.len() - i,
        {
            match &results[i] {
                Some(e) => {
                    edges.push(e.duplicate());
                    proof {
                        assert(edges@.drop_last().map_values(|e: Edge| edge_model(e)) =~= edges@
                            .map_values(|e: Edge| edge_model(e)).drop_last());
                        assert(edges@.map_values(|e: Edge| edge_model(e)) =~= resolve_all(
                            self@,
                            sites.take(i as int),
                        ).push(edge_model(results@[i as int]->Some_0)));
                    }
                },
                None => {},
            }
            i = i + 1;
            proof {
                assert(sites.take(i as int).drop_last() =~= sites.take(i - 1));
                assert(sites.take(i as int).last() == sites[i - 1]);
                match resolve_one(self@, sites[i - 1]) {
                    Some(e) => {
                        assert(resolve_all(self@, sites.take(i as int)) =~= resolve_all(
                            self@,
                            sites.take(i - 1),
                        ).push(e));
                    },
                    None => {
                        assert(resolve_all(self@, sites.take(i as int)) =~= resolve_all(
                            self@,
                            sites.take(i - 1),
                        ));
                    },
                }
            }
        }
        proof {
            assert(sites.take(sites.len() as int) =~= sites);
        }
        edges
    }

    /// Resolves one call site by its call type, as `resolve_one` describes.
    fn resolve_single_call(&self, call_site: &CallSite) -> (r: Option<Edge>)
        requires
            self.inv(),
        ensures
            opt_edge_model(r) == resolve_one(self@, cs_model(*call_site)),
    {
        match call_site.call_type {
            CallType::SimpleCall => self.resolve_simple_call(call_site),
            CallType::MethodCall => self.resolve_method_call(call_site),
            CallType::QualifiedCall => self.resolve_qualified_call(call_site),
            CallType::AttributeCall => self.resolve_attribute_call(call_site),
            CallType::DynamicCall => self.resolve_dynamic_call(call_site),
            CallType::ConstructorCall => self.resolve_constructor_call(call_site),
        }
    }

    fn resolve_simple_call(&self, call_site: &CallSite) -> (r: Option<Edge>)
        requires
            self.inv(),
        ensures
            opt_edge_model(r) == resolve_simple(self@, cs_model(*call_site)),
    {
        let h = compute_hash(call_site.called_name.as_str());
        match self.function_index.get(&h) {
            Some(candidates) => {
                proof {
                    assert(self@.fn_index.contains_key(h));
                    assert(candidates@.map_values(|e: FunctionEntry| fe_model(e))
                        == self@.fn_index[h]);
                }
                match self.select_best_candidate(candidates, call_site) {
                    Some(best) => {
                        let edge = Edge::new(
                            EdgeType::Call,
                            call_site.caller_id.clone(),
                            best.node_id.clone(),
                        ).with_context(make_context("line:", call_site.line_number));
                        Some(edge)
                    },
                    None => None,
                }
            },
            None => {
                proof {
                    assert(!self@.fn_index.contains_key(h));
                }
                self.fuzzy_resolve_function(call_site)
            },
        }
    }

    fn select_best_candidate<'a>(
        &self,
        candidates: &'a Vec<FunctionEntry>,
        call_site: &CallSite,
    ) -> (r: Option<&'a FunctionEntry>)
        ensures
            (match r {
                Some(c) => Some(fe_model(*c)),
                None => None,
            }) == select_best(
                candidates@.map_values(|e: FunctionEntry| fe_model(e)),
                cs_model(*call_site),
            ),
    {
        let ghost cands = candidates@.map_values(|e: FunctionEntry| fe_model(e));
        let ghost csm = cs_model(*call_site);
        if candidates.len() == 0 {
            return None;
        }
        if candidates.len() == 1 {
            return Some(&candidates[0]);
        }
        let mut best_idx: usize = 0;
        let mut best_score: u64 = 0;
        let mut i: usize = 0;
        while i < candidates.len()
            invariant
                cands == candidates@.map_values(|e: FunctionEntry| fe_model(e)),
                csm == cs_model(*call_site),
                cands.len() == candidates@.len(),
                2 <= candidates@.len(),
                i <= cands.len(),
                best_idx < cands.len(),
                best_score <= 375,
                scan_best(cands, csm, i as int, cands[best_idx as int], best_score as int)
                    == scan_best(cands, csm, 0, cands[0], 0),
            decreases cands.len() - i,
        {
            let score = compute_score(&candidates[i], call_site);
            if score > best_score {
                best_score = score;
                best_idx = i;
            }
            i = i + 1;
        }
        Some(&candidates[best_idx])
    }

    fn fuzzy_resolve_function(&self, call_site: &CallSite) -> (r: Option<Edge>)
        ensures
            opt_edge_model(r) == resolve_fuzzy(self@, cs_model(*call_site)),
    {
        let target = lowercase(call_site.called_name.as_str());
        let target_chars = str_chars(target.as_str());
        let ghost fns = self.all_functions@.map_values(|e: FunctionEntry| fe_model(e));
        let mut best: Option<(usize, u128)> = None;
        let ghost best_model: Option<(FnEntryModel, nat)> = None;
        let mut i: usize = 0;
        while i < self.all_functions.len()
            invariant
                fns == self.all_functions@.map_values(|e: FunctionEntry| fe_model(e)),
                fns.len() == self.all_functions@.len(),
                target_chars@ == lower_of(cs_model(*call_site).called_name),
                i <= fns.len(),
                (match best {
                    Some(p) => p.0 < fns.len() && best_model == Some(
                        (fns[p.0 as int], p.1 as nat),
                    ),
                    None => best_model is None,
                }),
                fuzzy_scan(fns, target_chars@, i as int, best_model) == fuzzy_scan(
                    fns,
                    target_chars@,
                    0,
                    None,
                ),
            decreases fns.len() - i,
        {
            let name_chars = str_chars(self.all_functions[i].name.as_str());
            let name_lower = lowercase(self.all_functions[i].name.as_str());
            let name_lower_chars = str_chars(name_lower.as_str());
            let distance = levenshtein(&target_chars, &name_lower_chars);
            let eligible = distance <= 2 && name_chars.len() > 3;
            let better = eligible && (match &best {
                Some(p) => distance < p.1,
                None => true,
            });
            proof {
                assert(fns[i as int] == fe_model(self.all_functions@[i as int]));
                assert(fuzzy_eligible(target_chars@, fns[i as int]) == eligible);
            }
            if better {
                best = Some((i, distance));
                proof {
                    best_model = Some((fns[i as int], distance as nat));
                }
            }
            i = i + 1;
        }
        match best {
            Some(p) => {
                let candidate = &self.all_functions[p.0];
                let edge = Edge::new(
                    EdgeType::Call,
                    call_site.caller_id.clone(),
                    candidate.node_id.clone(),
                ).with_context(make_context("fuzzy_match:line:", call_site.line_number));
                Some(edge)
            },
            None => None,
        }
    }

    fn resolve_method_call(&self, call_site: &CallSite) -> (r: Option<Edge>)
        requires
            self.inv(),
        ensures
            opt_edge_model(r) == resolve_method(self@, cs_model(*call_site)),
    {
        let method_name = match self.extract_method_name(call_site.called_name.as_str()) {
            Some(n) => n,
            None => {
                return None;
            },
        };
        let h = compute_hash(method_name.as_str());
        let class_context = self.infer_class_context(call_site);
        match self.method_index.get(&h) {
            Some(candidates) => {
                proof {
                    assert(candidates@.map_values(|e: MethodEntry| me_model(e)) == self@
                        .method_index[h]);
                }
                match self.select_best_method_candidate(candidates, &class_context) {
                    Some(best) => {
                        let edge = Edge::new(
                            EdgeType::Call,
                            call_site.caller_id.clone(),
                            best.node_id.clone(),
                        ).with_context(make_context("method_call:line:", call_site.line_number));
                        Some(edge)
                    },
                    None => None,
                }
            },
            None => None,
        }
    }

    /// The trailing `.`-separated segment of a called name.
    fn extract_method_name(&self, called_name: &str) -> (r: Option<String>)
        ensures
            (match r {
                Some(s) => Some(s@),
                None => None::<Seq<char>>,
            }) == Some(split_chars(called_name@, '.').last()),
    {
        let chars = str_chars(called_name);
        let parts = chars_split(&chars, '.');
        proof {
            assert(parts@.map_values(|p: Vec<char>| p@).len() == parts@.len());
            assert(parts@.map_values(|p: Vec<char>| p@).last() == parts@.last()@);
        }
        Some(chars_string(&parts[parts.len() - 1]))
    }

    /// Class-context inference for method calls: a deliberate stub.
    fn infer_class_context(&self, call_site: &CallSite) -> (r: Option<String>)
        ensures
            r is None,
    {
        None
    }

    /// Picks a method candidate: the first one, a documented simplification
    /// pending class-context inference.
    fn select_best_method_candidate<'a>(
        &self,
        candidates: &'a Vec<MethodEntry>,
        class_context: &Option<String>,
    ) -> (r: Option<&'a MethodEntry>)
        ensures
            (match r {
                Some(c) => candidates@.len() > 0 && *c == candidates@[0],
                None => candidates@.len() == 0,
            }),
    {
        if candidates.len() == 0 {
            None
        } else {
            Some(&candidates[0])
        }
    }

    fn resolve_qualified_call(&self, call_site: &CallSite) -> (r: Option<Edge>)
        requires
            self.inv(),
        ensures
            opt_edge_model(r) == resolve_qualified(self@, cs_model(*call_site)),
    {
        let name_chars = str_chars(call_site.called_name.as_str());
        let parts = chars_split(&name_chars, '.');
        proof {
            assert(parts@.map_values(|p: Vec<char>| p@).len() == parts@.len());
        }
        if parts.len() < 2 {
            return self.resolve_simple_call(call_site);
        }
        // Join every segment but the last back into the module path.
        let mut module_name: Vec<char> = Vec::new();
        let mut k: usize = 0;
        while k < parts.len() - 1
            invariant
                parts@.len() >= 2,
                k <= parts@.len() - 1,
            decreases parts@.len() - 1 - k,
        {
            if k > 0 {
                module_name.push('.');
            }
            let mut j: usize = 0;
            while j < parts[k].len()
                invariant
                    k < parts@.len(),
                    j <= parts@[k as int]@.len(),
                decreases parts@[k as int]@.len() - j,
            {
                module_name.push(parts[k][j]);
                j = j + 1;
            }
            k = k + 1;
        }
        let module_key = chars_string(&module_name);
        let function_name = chars_string(&parts[parts.len() - 1]);
        match self.import_mapping.get(module_key.as_str()) {
            Some(resolved_module) => {
                let mut full_name = resolved_module.clone();
                full_name.append(".");
                full_name.append(function_name.as_str());
                self.resolve_by_full_name(full_name.as_str(), call_site)
            },
            None => self.resolve_by_module_and_function(
                module_key.as_str(),
                function_name.as_str(),
                call_site,
            ),
        }
    }

    /// Full-name resolution through the import table: a deliberate stub.
    fn resolve_by_full_name(&self, full_name: &str, call_site: &CallSite) -> (r: Option<Edge>)
        ensures
            r is None,
    {
        None
    }

    /// Direct module-plus-function resolution: a deliberate stub.
    fn resolve_by_module_and_function(
        &self,
        module: &str,
        function: &str,
        call_site: &CallSite,
    ) -> (r: Option<Edge>)
        ensures
            r is None,
    {
        None
    }

    fn resolve_attribute_call(&self, call_site: &CallSite) -> (r: Option<Edge>)
        requires
            self.inv(),
        ensures
            opt_edge_model(r) == resolve_attribute(self@, cs_model(*call_site)),
    {
        let name_chars = str_chars(call_site.called_name.as_str());
        let parts = chars_split(&name_chars, '.');
        proof {
            assert(parts@.map_values(|p: Vec<char>| p@).len() == parts@.len());
            assert(parts@.map_values(|p: Vec<char>| p@).last() == parts@.last()@);
        }
        let method_name = chars_string(&parts[parts.len() - 1]);
        let h = compute_hash(method_name.as_str());
        match self.method_index.get(&h) {
            Some(candidates) => {
                proof {
                    assert(candidates@.map_values(|e: MethodEntry| me_model(e)) == self@
                        .method_index[h]);
                }
                match self.select_attribute_candidate(candidates, call_site) {
                    Some(best) => {
                        let edge = Edge::new(
                            EdgeType::Call,
                            call_site.caller_id.clone(),
                            best.node_id.clone(),
                        ).with_context(make_context("attribute_call:line:", call_site.line_number));
                        Some(edge)
                    },
                    None => None,
                }
            },
            None => None,
        }
    }

    /// Picks an attribute-call candidate: the first one, a documented
    /// simplification.
    fn select_attribute_candidate<'a>(
        &self,
        candidates: &'a Vec<MethodEntry>,
        call_site: &CallSite,
    ) -> (r: Option<&'a MethodEntry>)
        ensures
            (match r {
                Some(c) => candidates@.len() > 0 && *c == candidates@[0],
                None => candidates@.len() == 0,
            }),
    {
        if candidates.len() == 0 {
            None
        } else {
            Some(&candidates[0])
        }
    }

    fn resolve_dynamic_call(&self, call_site: &CallSite) -> (r: Option<Edge>)
        ensures
            r is None,
    {
        let name_chars = str_chars(call_site.called_name.as_str());
        let getattr_pat = str_chars("getattr");
        let call_pat = str_chars("__call__");
        if chars_contain_seq(&name_chars, &getattr_pat) || chars_contain_seq(
            &name_chars,
            &call_pat,
        ) {
            return self.resolve_dynamic_patterns(call_site);
        }
        match &call_site.context {
            Some(context) => self.resolve_with_context(call_site, context.as_str()),
            None => None,
        }
    }

    /// Reflection-style dynamic-call patterns: a deliberate stub.
    fn resolve_dynamic_patterns(&self, call_site: &CallSite) -> (r: Option<Edge>)
        ensures
            r is None,
    {
        None
    }

    /// Context-based dynamic-call resolution: a deliberate stub.
    fn resolve_with_context(&self, call_site: &CallSite, context: &str) -> (r: Option<Edge>)
        ensures
            r is None,
    {
        None
    }

    fn resolve_constructor_call(&self, call_site: &CallSite) -> (r: Option<Edge>)
        requires
            self.inv(),
        ensures
            opt_edge_model(r) == resolve_constructor(self@, cs_model(*call_site)),
    {
        let h = compute_hash(call_site.called_name.as_str());
        let ghost csm = cs_model(*call_site);
        match self.function_index.get(&h) {
            Some(candidates) => {
                proof {
                    assert(self@.fn_index.contains_key(h));
                    assert(candidates@.map_values(|e: FunctionEntry| fe_model(e))
                        == self@.fn_index[h]);
                }
                let ghost cands = candidates@.map_values(|e: FunctionEntry| fe_model(e));
                let mut i: usize = 0;
                while i < candidates.len()
                    invariant
                        self.inv(),
                        csm == cs_model(*call_site),
                        h == name_hash(csm.called_name),
                        self@.fn_index.contains_key(h),
                        cands == self@.fn_index[h],
                        cands == candidates@.map_values(|e: FunctionEntry| fe_model(e)),
                        cands.len() == candidates@.len(),
                        i <= cands.len(),
                        ctor_hit(cands, csm.called_name, i as int) == ctor_hit(
                            cands,
                            csm.called_name,
                            0,
                        ),
                    decreases cands.len() - i,
                {
                    let candidate = &candidates[i];
                    let class_matches = opt_string_eq(&candidate.class_context, &call_site.called_name);
                    let matched = crate::text::str_eq(
                        candidate.name.as_str(),
                        call_site.called_name.as_str(),
                    ) || crate::text::str_eq(candidate.name.as_str(), "__init__")
                        || crate::text::str_eq(candidate.name.as_str(), "constructor")
                        || class_matches;
                    proof {
                        assert(*candidate == candidates@[i as int]);
                        assert(fe_model(candidates@[i as int]) == cands[i as int]);
                        let c = cands[i as int];
                        assert(c.class_context == opt_str_view(candidates@[i as int].class_context));
                        assert(class_matches == (c.class_context == Some(csm.called_name)));
                        assert(c.name == candidates@[i as int].name@);
                        assert(matched == (c.name == csm.called_name || c.name == "__init__"@
                            || c.name == "constructor"@ || c.class_context == Some(
                            csm.called_name,
                        )));
                    }
                    if matched {
                        let edge = Edge::new(
                            EdgeType::Call,
                            call_site.caller_id.clone(),
                            candidate.node_id.clone(),
                        );
                        proof {
                            assert(ctor_hit(cands, csm.called_name, i as int) == Some(
                                cands[i as int],
                            ));
                            assert(cands[i as int].node_id == candidates@[i as int].node_id@);
                        }
                        return Some(edge);
                    }
                    i = i + 1;
                }
                let edge = Edge::new(
                    EdgeType::Call,
                    call_site.caller_id.clone(),
                    external_class_id(call_site.called_name.as_str()),
                );
                Some(edge)
            },
            None => {
                proof {
                    assert(!self@.fn_index.contains_key(h));
                }
                let edge = Edge::new(
                    EdgeType::Call,
                    call_site.caller_id.clone(),
                    external_class_id(call_site.called_name.as_str()),
                );
                Some(edge)
            },
        }
    }
}

/// Whether an optional string holds exactly the characters of `s`.
fn opt_string_eq(o: &Option<String>, s: &String) -> (r: bool)
    ensures
        r == (opt_str_view(*o) == Some(s@)),
{
    match o {
        Some(cc) => crate::text::str_eq(cc.as_str(), s.as_str()),
        None => false,
    }
}

/// Computes the selection score of a candidate, as `score_of` describes.
fn compute_score(candidate: &FunctionEntry, call_site: &CallSite) -> (r: u64)
    ensures
        r as int == score_of(fe_model(*candidate), cs_model(*call_site)),
        r <= 375,
{
    let mut score: u64 = 0;
    match &call_site.context {
        Some(ctx) => {
            let ctx_chars = str_chars(ctx.as_str());
            let path_chars = str_chars(candidate.file_path.as_str());
            if chars_contain_seq(&ctx_chars, &path_chars) {
                score = score + 100;
            }
            let module_chars = str_chars(candidate.module_context.as_str());
            if chars_contain_seq(&ctx_chars, &module_chars) {
                score = score + 50;
            }
        },
        None => {},
    }
    match &candidate.class_context {
        Some(_) => {},
        None => {
            score = score + 25;
        },
    }
    if candidate.name == call_site.called_name {
        score = score + 200;
    }
    score
}

/// The placeholder node id `external:class:<name>:0` for an unresolved
/// constructor target.
fn external_class_id(class_name: &str) -> (r: String)
    ensures
        r@ == "external:class:"@ + class_name@ + ":0"@,
{
    let mut s = String::new();
    s.append("external:class:");
    s.append(class_name);
    s.append(":0");
    s
}

/// Helper for the exactness law: when one candidate outscores every other
/// candidate still to be scanned, and the score standing so far, the scan
/// ends on it.
proof fn lemma_scan_best_unique_max(
    cands: Seq<FnEntryModel>,
    cs: CallModel,
    k: int,
    best: FnEntryModel,
    bs: int,
    i: int,
)
    requires
        0 <= k <= cands.len(),
        0 <= i < cands.len(),
        forall|j: int| k <= j < cands.len() && j != i ==> score_of(cands[j], cs) < score_of(
            cands[i],
            cs,
        ),
        (k <= i && bs < score_of(cands[i], cs)) || (k > i && best == cands[i] && bs == score_of(
            cands[i],
            cs,
        )),
    ensures
        scan_best(cands, cs, k, best, bs) == cands[i],
    decreases cands.len() - k,
{
    if k == cands.len() {
    } else {
        let sc = score_of(cands[k], cs);
        if k == i {
            lemma_scan_best_unique_max(cands, cs, k + 1, cands[k], sc, i);
        } else if sc > bs {
            lemma_scan_best_unique_max(cands, cs, k + 1, cands[k], sc, i);
        } else {
            lemma_scan_best_unique_max(cands, cs, k + 1, best, bs, i);
        }
    }
}

/// Law: when the index holds, in the bucket of a simple call's name, exactly
/// one candidate bearing that name, resolution yields exactly one `Call`
/// edge, from the caller to that candidate's node id.
pub proof fn lemma_resolver_exact_match(m: ResolverModel, cs: CallModel, i: int)
    requires
        cs.call_type == CallType::SimpleCall,
        m.fn_index.contains_key(name_hash(cs.called_name)),
        0 <= i < m.fn_index[name_hash(cs.called_name)].len(),
        m.fn_index[name_hash(cs.called_name)][i].name == cs.called_name,
        forall|j: int|
            0 <= j < m.fn_index[name_hash(cs.called_name)].len() && j != i
                ==> m.fn_index[name_hash(cs.called_name)][j].name != cs.called_name,
    ensures
        resolve_one(m, cs) == Some(
            call_edge_model(
                cs,
                m.fn_index[name_hash(cs.called_name)][i].node_id,
                Some(line_ctx(cs.line_number)),
            ),
        ),
{
    let cands = m.fn_index[name_hash(cs.called_name)];
    let target = cands[i];
    assert(score_of(target, cs) >= 200);
    assert(forall|j: int| 0 <= j < cands.len() && j != i ==> score_of(cands[j], cs) < 200) by {
        assert forall|j: int| 0 <= j < cands.len() && j != i implies score_of(cands[j], cs)
            < 200 by {
            assert(cands[j].name != cs.called_name);
        }
    }
    if cands.len() == 1 {
        assert(i == 0);
    } else {
        lemma_scan_best_unique_max(cands, cs, 0, cands[0], 0, i);
    }
}

/// Helper for the non-match law: a scan over candidates none of which is
/// eligible keeps what it started with.
proof fn lemma_fuzzy_scan_none(
    fns: Seq<FnEntryModel>,
    target_lower: Seq<char>,
    k: int,
    best: Option<(FnEntryModel, nat)>,
)
    requires
        0 <= k <= fns.len(),
        forall|j: int| k <= j < fns.len() ==> !fuzzy_eligible(target_lower, #[trigger] fns[j]),
    ensures
        fuzzy_scan(fns, target_lower, k, best) == best,
    decreases fns.len() - k,
{
    if k == fns.len() {
    } else {
        lemma_fuzzy_scan_none(fns, target_lower, k + 1, best);
    }
}

/// Whether no indexed function is an eligible fallback for the call name:
/// every one is at most three characters long, or its folded name is farther
/// than edit distance two from the folded call name.
pub open spec fn no_close_indexed_name(m: ResolverModel, called: Seq<char>) -> bool {
    forall|j: int|
        0 <= j < m.all_fns.len() ==> !fuzzy_eligible(lower_of(called), #[trigger] m.all_fns[j])
}

/// Law: a simple call whose name's hash has no bucket, and for which no
/// indexed function is an eligible fallback, resolves to no edge.
pub proof fn lemma_resolver_no_fuzzy_match(m: ResolverModel, cs: CallModel)
    requires
        cs.call_type == CallType::SimpleCall,
        !m.fn_index.contains_key(name_hash(cs.called_name)),
        no_close_indexed_name(m, cs.called_name),
    ensures
        resolve_one(m, cs) is None,
{
    lemma_fuzzy_scan_none(m.all_fns, lower_of(cs.called_name), 0, None);
}

/// The free-function entries the given nodes yield, in indexing order:
/// `Function`-typed nodes whose id encodes no class segment.
pub open spec fn fn_entries_of(ns: Seq<Node>) -> Seq<FnEntryModel>
    decreases ns.len(),
{
    if ns.len() == 0 {
        Seq::empty()
    } else {
        let prev = fn_entries_of(ns.drop_last());
        if ns.last().node_type == NodeType::Function && class_of_id(ns.last().id@) is None {
            prev.push(fn_entry_of(ns.last()))
        } else {
            prev
        }
    }
}

/// The entries of `es` whose name hashes to `h`, in order.
pub open spec fn entries_with_hash(es: Seq<FnEntryModel>, h: u64) -> Seq<FnEntryModel>
    decreases es.len(),
{
    if es.len() == 0 {
        Seq::empty()
    } else {
        let prev = entries_with_hash(es.drop_last(), h);
        if name_hash(es.last().name) == h {
            prev.push(es.last())
        } else {
            prev
        }
    }
}

/// The bucket stored under `h`, or nothing.
pub open spec fn bucket_at(m: Map<u64, Seq<FnEntryModel>>, h: u64) -> Seq<FnEntryModel> {
    if m.contains_key(h) {
        m[h]
    } else {
        Seq::empty()
    }
}

/// Law: building the indexes over `ns` indexes exactly the free functions of
/// `ns`, in order, and files each under the bucket of its name's hash: every
/// bucket holds, in order, exactly the indexed functions whose name hashes
/// to its key. This is what the exactness and non-match laws' premises hold
/// of a built index.
pub proof fn lemma_index_run_buckets(ns: Seq<Node>)
    ensures
        index_run(empty_model(), ns).all_fns == fn_entries_of(ns),
        forall|h: u64|
            bucket_at(index_run(empty_model(), ns).fn_index, h) == entries_with_hash(
                fn_entries_of(ns),
                h,
            ),
    decreases ns.len(),
{
    if ns.len() == 0 {
        assert(forall|h: u64|
            bucket_at(index_run(empty_model(), ns).fn_index, h) =~= entries_with_hash(
                fn_entries_of(ns),
                h,
            ));
    } else {
        lemma_index_run_buckets(ns.drop_last());
        let prev = index_run(empty_model(), ns.drop_last());
        let n = ns.last();
        if n.node_type == NodeType::Function && class_of_id(n.id@) is None {
            let fe = fn_entry_of(n);
            let h0 = name_hash(fe.name);
            assert(fn_entries_of(ns) == fn_entries_of(ns.drop_last()).push(fe));
            assert forall|h: u64|
                bucket_at(index_run(empty_model(), ns).fn_index, h) == entries_with_hash(
                    fn_entries_of(ns),
                    h,
                ) by {
                assert(fn_entries_of(ns).drop_last() =~= fn_entries_of(ns.drop_last()));
                if h == h0 {
                    if prev.fn_index.contains_key(h0) {
                        assert(bucket_at(index_run(empty_model(), ns).fn_index, h)
                            == bucket_at(prev.fn_index, h).push(fe));
                    } else {
                        assert(bucket_at(index_run(empty_model(), ns).fn_index, h) =~= bucket_at(
                            prev.fn_index,
                            h,
                        ).push(fe));
                    }
                    assert(entries_with_hash(fn_entries_of(ns), h) == entries_with_hash(
                        fn_entries_of(ns.drop_last()),
                        h,
                    ).push(fe));
                } else {
                    assert(bucket_at(index_run(empty_model(), ns).fn_index, h) == bucket_at(
                        prev.fn_index,
                        h,
                    ));
                    assert(entries_with_hash(fn_entries_of(ns), h) == entries_with_hash(
                        fn_entries_of(ns.drop_last()),
                        h,
                    ));
                }
            }
        } else {
            assert(forall|h: u64|
                entries_with_hash(fn_entries_of(ns), h) == entries_with_hash(
                    fn_entries_of(ns.drop_last()),
                    h,
                ));
        }
    }
}

/// The error a failed index build would report; the build has no failing
/// step, so no value of it is ever made.
#[derive(Debug)]
pub struct ResolverError;

} // verus!
