//! Grammar-agnostic call-site extraction.
//!
//! The walker descends a parsed syntax tree, tracking the enclosing
//! function-like node's name and line, and turns each call-like node into a
//! `CallSite`: the callee's display name is read from the call's shape, the
//! call is classified by that shape, and the caller id is synthesized in the
//! node-id format (or `module_level` outside any tracked function).

use vstd::prelude::*;

use crate::resolver::{CallModel, CallSite, CallType, cs_model};
use crate::text::{
    chars_contain, chars_contain_seq, chars_eq_str, chars_replace, chars_start_with, chars_string,
    contains_char, contains_seq, dec_digits, is_prefix, replace_char, skip_chars, str_chars,
    u64_string,
};

verus! {

/// One node of a language-agnostic syntax tree: its grammar kind, its source
/// text, where it starts, the grammar field linking it to its parent, and its
/// children in order.
#[derive(Debug)]
pub struct SyntaxNode {
    pub kind: String,
    pub text: String,
    pub row: usize,
    pub start_byte: usize,
    pub field: Option<String>,
    pub children: Vec<SyntaxNode>,
}

/// The one-based line of a zero-based row, saturating at the integer limit.
pub open spec fn line_of(row: usize) -> usize {
    if row < usize::MAX {
        (row + 1) as usize
    } else {
        usize::MAX
    }
}

fn line_of_exec(row: usize) -> (r: usize)
    ensures
        r == line_of(row),
{
    if row < usize::MAX {
        row + 1
    } else {
        usize::MAX
    }
}

/// Whether a grammar kind declares a function-like scope.
pub open spec fn is_function_kind(k: Seq<char>) -> bool {
    ||| k == "function_definition"@
    ||| k == "function_declaration"@
    ||| k == "method_definition"@
    ||| k == "constructor_declaration"@
    ||| k == "destructor_declaration"@
    ||| k == "function_item"@
}

fn is_function_kind_exec(k: &String) -> (r: bool)
    ensures
        r == is_function_kind(k@),
{
    let kc = str_chars(k.as_str());
    chars_eq_str(&kc, "function_definition") || chars_eq_str(&kc, "function_declaration")
        || chars_eq_str(&kc, "method_definition") || chars_eq_str(&kc, "constructor_declaration")
        || chars_eq_str(&kc, "destructor_declaration") || chars_eq_str(&kc, "function_item")
}

/// Whether a grammar kind is a call-like expression.
pub open spec fn is_call_kind(k: Seq<char>) -> bool {
    ||| k == "call"@
    ||| k == "call_expression"@
    ||| k == "new_expression"@
    ||| k == "constructor_call"@
    ||| k == "macro_invocation"@
}

fn is_call_kind_exec(k: &String) -> (r: bool)
    ensures
        r == is_call_kind(k@),
{
    let kc = str_chars(k.as_str());
    chars_eq_str(&kc, "call") || chars_eq_str(&kc, "call_expression") || chars_eq_str(
        &kc,
        "new_expression",
    ) || chars_eq_str(&kc, "constructor_call") || chars_eq_str(&kc, "macro_invocation")
}

/// The index of the first child at or after `i` carrying the grammar field
/// `f`, or -1.
pub open spec fn field_index(children: Seq<SyntaxNode>, f: Seq<char>, i: int) -> int
    decreases children.len() - i,
{
    if i < 0 || i >= children.len() {
        -1
    } else {
        match children[i].field {
            Some(s) => if s@ == f {
                i
            } else {
                field_index(children, f, i + 1)
            },
            None => field_index(children, f, i + 1),
        }
    }
}

/// The index of the first child at or after `i` of grammar kind `k`, or -1.
pub open spec fn kind_index(children: Seq<SyntaxNode>, k: Seq<char>, i: int) -> int
    decreases children.len() - i,
{
    if i < 0 || i >= children.len() {
        -1
    } else if children[i].kind@ == k {
        i
    } else {
        kind_index(children, k, i + 1)
    }
}

pub proof fn lemma_field_index_bounds(children: Seq<SyntaxNode>, f: Seq<char>, i: int)
    requires
        0 <= i,
    ensures
        field_index(children, f, i) == -1 || i <= field_index(children, f, i) < children.len(),
    decreases children.len() - i,
{
    if i < children.len() {
        lemma_field_index_bounds(children, f, i + 1);
    }
}

pub proof fn lemma_kind_index_bounds(children: Seq<SyntaxNode>, k: Seq<char>, i: int)
    requires
        0 <= i,
    ensures
        kind_index(children, k, i) == -1 || i <= kind_index(children, k, i) < children.len(),
    decreases children.len() - i,
{
    if i < children.len() {
        lemma_kind_index_bounds(children, k, i + 1);
    }
}

fn field_index_exec(children: &Vec<SyntaxNode>, f: &str) -> (r: Option<usize>)
    ensures
        match r {
            Some(j) => field_index(children@, f@, 0) == j as int && j < children@.len(),
            None => field_index(children@, f@, 0) == -1,
        },
{
    let mut i: usize = 0;
    while i < children.len()
        invariant
            i <= children@.len(),
            field_index(children@, f@, i as int) == field_index(children@, f@, 0),
        decreases children@.len() - i,
    {
        let hit = match &children[i].field {
            Some(s) => crate::text::str_eq(s.as_str(), f),
            None => false,
        };
        if hit {
            proof {
                lemma_field_index_bounds(children@, f@, 0);
            }
            return Some(i);
        }
        i = i + 1;
    }
    None
}

fn kind_index_exec(children: &Vec<SyntaxNode>, k: &str) -> (r: Option<usize>)
    ensures
        match r {
            Some(j) => kind_index(children@, k@, 0) == j as int && j < children@.len(),
            None => kind_index(children@, k@, 0) == -1,
        },
{
    let mut i: usize = 0;
    while i < children.len()
        invariant
            i <= children@.len(),
            kind_index(children@, k@, i as int) == kind_index(children@, k@, 0),
        decreases children@.len() - i,
    {
        if crate::text::str_eq(children[i].kind.as_str(), k) {
            proof {
                lemma_kind_index_bounds(children@, k@, 0);
            }
            return Some(i);
        }
        i = i + 1;
    }
    None
}

/// The function name read from a declaration's children when it carries no
/// `name` field: the first identifier-like child, looking inside a declarator
/// when one comes first.
pub open spec fn fn_name_scan(children: Seq<SyntaxNode>, i: int) -> Option<Seq<char>>
    decreases children.len() - i,
{
    if i < 0 || i >= children.len() {
        None
    } else {
        let c = children[i];
        if c.kind@ == "function_declarator"@ {
            let j = kind_index(c.children@, "identifier"@, 0);
            if j >= 0 {
                Some(c.children@[j].text@)
            } else {
                fn_name_scan(children, i + 1)
            }
        } else if c.kind@ == "identifier"@ || c.kind@ == "property_identifier"@ {
            Some(c.text@)
        } else {
            fn_name_scan(children, i + 1)
        }
    }
}

/// The name and line a function-like node declares, if they can be read: a
/// `name` field wins and is rejected when empty, else the children are
/// scanned.
pub open spec fn fn_info(node: SyntaxNode) -> Option<(Seq<char>, usize)> {
    let j = field_index(node.children@, "name"@, 0);
    if j >= 0 {
        if node.children@[j].text@.len() == 0 {
            None
        } else {
            Some((node.children@[j].text@, line_of(node.row)))
        }
    } else {
        match fn_name_scan(node.children@, 0) {
            Some(n) => Some((n, line_of(node.row))),
            None => None,
        }
    }
}

fn fn_name_scan_exec(children: &Vec<SyntaxNode>) -> (r: Option<String>)
    ensures
        match (r, fn_name_scan(children@, 0)) {
            (Some(s), Some(m)) => s@ == m,
            (None, None) => true,
            _ => false,
        },
{
    let mut i: usize = 0;
    while i < children.len()
        invariant
            i <= children@.len(),
            fn_name_scan(children@, i as int) == fn_name_scan(children@, 0),
        decreases children@.len() - i,
    {
        let c = &children[i];
        if crate::text::str_eq(c.kind.as_str(), "function_declarator") {
            match kind_index_exec(&c.children, "identifier") {
                Some(j) => {
                    return Some(c.children[j].text.clone());
                },
                None => {},
            }
        } else if crate::text::str_eq(c.kind.as_str(), "identifier") || crate::text::str_eq(
            c.kind.as_str(),
            "property_identifier",
        ) {
            return Some(c.text.clone());
        }
        i = i + 1;
    }
    None
}

fn fn_info_exec(node: &SyntaxNode) -> (r: Option<(String, usize)>)
    ensures
        match (r, fn_info(*node)) {
            (Some(p), Some(m)) => p.0@ == m.0 && p.1 == m.1,
            (None, None) => true,
            _ => false,
        },
{
    let line = line_of_exec(node.row);
    match field_index_exec(&node.children, "name") {
        Some(j) => {
            let name_node = &node.children[j];
            if name_node.text.unicode_len() == 0 {
                None
            } else {
                Some((name_node.text.clone(), line))
            }
        },
        None => {
            match fn_name_scan_exec(&node.children) {
                Some(n) => Some((n, line)),
                None => None,
            }
        },
    }
}

/// The index of the first child at or after `i` that names an attribute: an
/// identifier starting after the attribute expression itself, with non-empty
/// text; or -1.
pub open spec fn attr_name_index(node: SyntaxNode, i: int) -> int
    decreases node.children@.len() - i,
{
    if i < 0 || i >= node.children@.len() {
        -1
    } else {
        let c = node.children@[i];
        if c.kind@ == "identifier"@ && c.start_byte > node.start_byte && c.text@.len() > 0 {
            i
        } else {
            attr_name_index(node, i + 1)
        }
    }
}

pub proof fn lemma_attr_name_index_bounds(node: SyntaxNode, i: int)
    requires
        0 <= i,
    ensures
        attr_name_index(node, i) == -1 || i <= attr_name_index(node, i) < node.children@.len(),
    decreases node.children@.len() - i,
{
    if i < node.children@.len() {
        lemma_attr_name_index_bounds(node, i + 1);
    }
}

/// The callee display name read from the node a call applies: identifiers
/// read as-is, attribute and member accesses keep their trailing name with
/// receiver prefixes stripped, scoped and qualified names keep their full
/// text, and generic or nested call shapes defer to the shape inside.
pub open spec fn name_from_node(fnode: SyntaxNode) -> Seq<char>
    decreases fnode,
{
    let k = fnode.kind@;
    let full = fnode.text@;
    if k == "identifier"@ {
        full
    } else if k == "attribute"@ {
        if is_prefix("self."@, full) {
            full.skip(5)
        } else if is_prefix("cls."@, full) {
            full.skip(4)
        } else if is_prefix("super()."@, full) {
            full.skip(8)
        } else {
            let j = attr_name_index(fnode, 0);
            if j >= 0 {
                fnode.children@[j].text@
            } else {
                full
            }
        }
    } else if k == "field_expression"@ {
        let j = kind_index(fnode.children@, "field_identifier"@, 0);
        if j >= 0 {
            fnode.children@[j].text@
        } else {
            full
        }
    } else if k == "qualified_identifier"@ || k == "scoped_identifier"@ || k
        == "subscript_expression"@ {
        full
    } else if k == "generic_function"@ {
        let j = field_index(fnode.children@, "function"@, 0);
        if 0 <= j < fnode.children@.len() {
            name_from_node(fnode.children@[j])
        } else {
            full
        }
    } else if k == "call"@ {
        if contains_seq(full, "super()"@) {
            full
        } else if fnode.children@.len() > 0 {
            name_from_node(fnode.children@[0])
        } else {
            full
        }
    } else {
        full
    }
}

fn attr_scan_exec(fnode: &SyntaxNode) -> (r: Option<String>)
    ensures
        match r {
            Some(s) => {
                let j = attr_name_index(*fnode, 0);
                j >= 0 && s@ == fnode.children@[j].text@
            },
            None => attr_name_index(*fnode, 0) == -1,
        },
{
    let mut i: usize = 0;
    while i < fnode.children.len()
        invariant
            i <= fnode.children@.len(),
            attr_name_index(*fnode, i as int) == attr_name_index(*fnode, 0),
        decreases fnode.children@.len() - i,
    {
        let c = &fnode.children[i];
        if crate::text::str_eq(c.kind.as_str(), "identifier") && c.start_byte > fnode.start_byte
            && c.text.unicode_len() > 0 {
            proof {
                lemma_attr_name_index_bounds(*fnode, 0);
            }
            return Some(c.text.clone());
        }
        i = i + 1;
    }
    None
}

fn name_from_node_exec(fnode: &SyntaxNode) -> (r: String)
    ensures
        r@ == name_from_node(*fnode),
    decreases *fnode,
{
    let kc = str_chars(fnode.kind.as_str());
    let full_chars = str_chars(fnode.text.as_str());
    if chars_eq_str(&kc, "identifier") {
        fnode.text.clone()
    } else if chars_eq_str(&kc, "attribute") {
        proof {
            reveal_strlit("self.");
            reveal_strlit("cls.");
            reveal_strlit("super().");
        }
        let self_pre = str_chars("self.");
        let cls_pre = str_chars("cls.");
        let super_pre = str_chars("super().");
        if chars_start_with(&full_chars, &self_pre) {
            skip_chars(&full_chars, 5)
        } else if chars_start_with(&full_chars, &cls_pre) {
            skip_chars(&full_chars, 4)
        } else if chars_start_with(&full_chars, &super_pre) {
            skip_chars(&full_chars, 8)
        } else {
            match attr_scan_exec(fnode) {
                Some(s) => s,
                None => fnode.text.clone(),
            }
        }
    } else if chars_eq_str(&kc, "field_expression") {
        match kind_index_exec(&fnode.children, "field_identifier") {
            Some(j) => fnode.children[j].text.clone(),
            None => fnode.text.clone(),
        }
    } else if chars_eq_str(&kc, "qualified_identifier") || chars_eq_str(&kc, "scoped_identifier")
        || chars_eq_str(&kc, "subscript_expression") {
        fnode.text.clone()
    } else if chars_eq_str(&kc, "generic_function") {
        match field_index_exec(&fnode.children, "function") {
            Some(j) => name_from_node_exec(&fnode.children[j]),
            None => fnode.text.clone(),
        }
    } else if chars_eq_str(&kc, "call") {
        let super_pat = str_chars("super()");
        if chars_contain_seq(&full_chars, &super_pat) {
            fnode.text.clone()
        } else if fnode.children.len() > 0 {
            name_from_node_exec(&fnode.children[0])
        } else {
            fnode.text.clone()
        }
    } else {
        fnode.text.clone()
    }
}

/// Whether a character has the Unicode `Uppercase` property, as
/// `char::is_uppercase` decides it.
pub uninterp spec fn unicode_upper(c: char) -> bool;

/// Relies on std's `char::is_uppercase`: the Unicode `Uppercase` property of
/// the character, a function of the character alone.
pub assume_specification[ char::is_uppercase ](c: char) -> (r: bool)
    ensures
        r == unicode_upper(c),
;

/// The call-type classification of a callee name, by the shape of the node
/// it was read from. A plain identifier that starts with an uppercase letter
/// and has no underscore reads as a constructor.
pub open spec fn call_type_of(called: Seq<char>, k: Seq<char>) -> CallType {
    if k == "attribute"@ {
        if is_prefix("self."@, called) || is_prefix("cls."@, called) {
            CallType::MethodCall
        } else if is_prefix("super()"@, called) || contains_seq(called, "super()"@) {
            CallType::MethodCall
        } else if contains_char(called, '.') {
            CallType::QualifiedCall
        } else {
            CallType::MethodCall
        }
    } else if k == "field_expression"@ {
        CallType::MethodCall
    } else if k == "qualified_identifier"@ || k == "scoped_identifier"@ || k
        == "generic_function"@ {
        CallType::QualifiedCall
    } else if k == "identifier"@ {
        if called.len() > 0 && unicode_upper(called[0]) && !contains_char(called, '_') {
            CallType::ConstructorCall
        } else if contains_seq(called, "::"@) {
            CallType::QualifiedCall
        } else if contains_char(called, '.') {
            CallType::MethodCall
        } else {
            CallType::SimpleCall
        }
    } else if k == "call"@ {
        if contains_seq(called, "super()"@) {
            CallType::MethodCall
        } else {
            CallType::DynamicCall
        }
    } else {
        CallType::DynamicCall
    }
}

fn call_type_of_exec(called: &String, k: &String) -> (r: CallType)
    ensures
        r == call_type_of(called@, k@),
{
    let kc = str_chars(k.as_str());
    let cc = str_chars(called.as_str());
    if chars_eq_str(&kc, "attribute") {
        let self_pre = str_chars("self.");
        let cls_pre = str_chars("cls.");
        let super_pre = str_chars("super()");
        if chars_start_with(&cc, &self_pre) || chars_start_with(&cc, &cls_pre) {
            CallType::MethodCall
        } else if chars_start_with(&cc, &super_pre) || chars_contain_seq(&cc, &super_pre) {
            CallType::MethodCall
        } else if chars_contain(&cc, '.') {
            CallType::QualifiedCall
        } else {
            CallType::MethodCall
        }
    } else if chars_eq_str(&kc, "field_expression") {
        CallType::MethodCall
    } else if chars_eq_str(&kc, "qualified_identifier") || chars_eq_str(&kc, "scoped_identifier")
        || chars_eq_str(&kc, "generic_function") {
        CallType::QualifiedCall
    } else if chars_eq_str(&kc, "identifier") {
        let upper = if cc.len() > 0 {
            cc[0].is_uppercase()
        } else {
            false
        };
        let colons = str_chars("::");
        if upper && !chars_contain(&cc, '_') {
            CallType::ConstructorCall
        } else if chars_contain_seq(&cc, &colons) {
            CallType::QualifiedCall
        } else if chars_contain(&cc, '.') {
            CallType::MethodCall
        } else {
            CallType::SimpleCall
        }
    } else if chars_eq_str(&kc, "call") {
        let super_pre = str_chars("super()");
        if chars_contain_seq(&cc, &super_pre) {
            CallType::MethodCall
        } else {
            CallType::DynamicCall
        }
    } else {
        CallType::DynamicCall
    }
}

/// The index of the first child at or after `i` that names what a
/// `new_expression` instantiates, or -1.
pub open spec fn new_target_index(children: Seq<SyntaxNode>, i: int) -> int
    decreases children.len() - i,
{
    if i < 0 || i >= children.len() {
        -1
    } else {
        let k = children[i].kind@;
        if k == "type_identifier"@ || k == "identifier"@ || k == "qualified_identifier"@ {
            i
        } else {
            new_target_index(children, i + 1)
        }
    }
}

pub proof fn lemma_new_target_index_bounds(children: Seq<SyntaxNode>, i: int)
    requires
        0 <= i,
    ensures
        new_target_index(children, i) == -1 || i <= new_target_index(children, i) < children.len(),
    decreases children.len() - i,
{
    if i < children.len() {
        lemma_new_target_index_bounds(children, i + 1);
    }
}

/// The callee name and call type a call-like node carries, when its shape
/// yields one.
pub open spec fn called_info(node: SyntaxNode) -> Option<(Seq<char>, CallType)> {
    let k = node.kind@;
    if k == "call"@ || k == "call_expression"@ {
        if node.children@.len() == 0 {
            None
        } else {
            let f = node.children@[0];
            let name = name_from_node(f);
            Some((name, call_type_of(name, f.kind@)))
        }
    } else if k == "macro_invocation"@ {
        if node.children@.len() == 0 {
            None
        } else {
            Some((node.children@[0].text@, CallType::SimpleCall))
        }
    } else if k == "new_expression"@ {
        let j = new_target_index(node.children@, 0);
        if j >= 0 {
            Some((node.children@[j].text@, CallType::ConstructorCall))
        } else {
            None
        }
    } else if k == "constructor_call"@ {
        if node.children@.len() == 0 {
            None
        } else {
            Some((node.children@[0].text@, CallType::ConstructorCall))
        }
    } else {
        None
    }
}

fn new_target_exec(children: &Vec<SyntaxNode>) -> (r: Option<String>)
    ensures
        match r {
            Some(s) => {
                let j = new_target_index(children@, 0);
                j >= 0 && s@ == children@[j].text@
            },
            None => new_target_index(children@, 0) == -1,
        },
{
    let mut i: usize = 0;
    while i < children.len()
        invariant
            i <= children@.len(),
            new_target_index(children@, i as int) == new_target_index(children@, 0),
        decreases children@.len() - i,
    {
        let c = &children[i];
        if crate::text::str_eq(c.kind.as_str(), "type_identifier") || crate::text::str_eq(
            c.kind.as_str(),
            "identifier",
        ) || crate::text::str_eq(c.kind.as_str(), "qualified_identifier") {
            proof {
                lemma_new_target_index_bounds(children@, 0);
            }
            return Some(c.text.clone());
        }
        i = i + 1;
    }
    None
}

fn called_info_exec(node: &SyntaxNode) -> (r: Option<(String, CallType)>)
    ensures
        match (r, called_info(*node)) {
            (Some(p), Some(m)) => p.0@ == m.0 && p.1 == m.1,
            (None, None) => true,
            _ => false,
        },
{
    let kc = str_chars(node.kind.as_str());
    if chars_eq_str(&kc, "call") || chars_eq_str(&kc, "call_expression") {
        if node.children.len() == 0 {
            None
        } else {
            let f = &node.children[0];
            let name = name_from_node_exec(f);
            let ct = call_type_of_exec(&name, &f.kind);
            Some((name, ct))
        }
    } else if chars_eq_str(&kc, "macro_invocation") {
        if node.children.len() == 0 {
            None
        } else {
            Some((node.children[0].text.clone(), CallType::SimpleCall))
        }
    } else if chars_eq_str(&kc, "new_expression") {
        match new_target_exec(&node.children) {
            Some(t) => Some((t, CallType::ConstructorCall)),
            None => None,
        }
    } else if chars_eq_str(&kc, "constructor_call") {
        if node.children.len() == 0 {
            None
        } else {
            Some((node.children[0].text.clone(), CallType::ConstructorCall))
        }
    } else {
        None
    }
}

/// The tracked enclosing-function state: its name and line.
pub type WalkState = Option<(Seq<char>, usize)>;

/// The caller id a call site is attributed to: the node-id shape over the
/// file tag when a function is tracked, else the `module_level` sentinel.
pub open spec fn caller_id_of(file_tag: Seq<char>, state: WalkState) -> Seq<char> {
    match state {
        Some(p) => file_tag + ":function:"@ + p.0 + ":"@ + dec_digits(p.1 as nat),
        None => "module_level"@,
    }
}

/// The call site a call-like node yields, when its callee name is non-empty.
pub open spec fn call_site_of(node: SyntaxNode, file_tag: Seq<char>, state: WalkState) -> Option<
    CallModel,
> {
    match called_info(node) {
        Some(p) => if p.0.len() == 0 {
            None
        } else {
            Some(
                CallModel {
                    caller_id: caller_id_of(file_tag, state),
                    called_name: p.0,
                    call_type: p.1,
                    context: Some("ast_node:"@ + node.kind@),
                    line_number: line_of(node.row),
                },
            )
        },
        None => None,
    }
}

/// One step of the walk over a node: entering a function-like node with a
/// readable name updates the tracked state, a call-like node yields its call
/// site under the state, the children are walked in order under the updated
/// state, and leaving a function-like node clears the state.
pub open spec fn walk(node: SyntaxNode, file_tag: Seq<char>, state: WalkState) -> (
    WalkState,
    Seq<CallModel>,
)
    decreases node,
{
    let st1 = if is_function_kind(node.kind@) {
        match fn_info(node) {
            Some(p) => Some(p),
            None => state,
        }
    } else {
        state
    };
    let own = if is_call_kind(node.kind@) {
        match call_site_of(node, file_tag, st1) {
            Some(cs) => seq![cs],
            None => Seq::<CallModel>::empty(),
        }
    } else {
        Seq::<CallModel>::empty()
    };
    let rec = walk_children(node.children@, 0, file_tag, st1);
    let st3 = if is_function_kind(node.kind@) {
        None
    } else {
        rec.0
    };
    (st3, own + rec.1)
}

/// The walk over the children of a node from position `i` on, threading the
/// tracked state left to right.
pub open spec fn walk_children(
    children: Seq<SyntaxNode>,
    i: int,
    file_tag: Seq<char>,
    state: WalkState,
) -> (WalkState, Seq<CallModel>)
    decreases children, children.len() - i,
{
    if i < 0 || i >= children.len() {
        (state, Seq::<CallModel>::empty())
    } else {
        let first = walk(children[i], file_tag, state);
        let rest = walk_children(children, i + 1, file_tag, first.0);
        (rest.0, first.1 + rest.1)
    }
}

/// The file tag call-site caller ids use: the path with `/` and `\` replaced
/// by `_`.
pub open spec fn file_tag_of(file_path: Seq<char>) -> Seq<char> {
    replace_char(replace_char(file_path, '/', '_'), '\\', '_')
}

/// Walks syntax trees and collects the call sites they contain; each
/// extraction starts from fresh walker state.
pub struct CallSiteExtractor;

impl CallSiteExtractor {
    /// A fresh extractor.
    pub fn new() -> (r: Self)
        ensures
            true,
    {
        CallSiteExtractor
    }

    /// Extracts every call site under `root`, in walk order, attributing
    /// each to its enclosing function, as `walk` describes.
    pub fn extract_from_ast(&mut self, root: &SyntaxNode, file_path: &str) -> (r: Vec<CallSite>)
        ensures
            r@.map_values(|cs: CallSite| cs_model(cs)) == walk(
                *root,
                file_tag_of(file_path@),
                None,
            ).1,
    {
        let pc = str_chars(file_path);
        let once = chars_replace(&pc, '/', '_');
        let twice = chars_replace(&once, '\\', '_');
        let file_tag = chars_string(&twice);
        let mut out: Vec<CallSite> = Vec::new();
        let ghost g = walk(*root, file_tag_of(file_path@), None);
        let _ = walk_exec(root, &file_tag, WalkCtx { name: None }, &mut out);
        proof {
            assert(out@.map_values(|cs: CallSite| cs_model(cs)) =~= Seq::<CallModel>::empty()
                + g.1);
        }
        out
    }
}

/// The tracked enclosing-function state, as the walker carries it.
pub struct WalkCtx {
    pub name: Option<(String, usize)>,
}

pub open spec fn ctx_model(c: WalkCtx) -> WalkState {
    match c.name {
        Some(p) => Some((p.0@, p.1)),
        None => None,
    }
}

/// Walks one node, appending its call sites to `out` and returning the state
/// left when the walk steps past it.
fn walk_exec(node: &SyntaxNode, file_tag: &String, state: WalkCtx, out: &mut Vec<CallSite>) -> (r:
    WalkCtx)
    ensures
        ctx_model(r) == walk(*node, file_tag@, ctx_model(state)).0,
        final (out)@.map_values(|cs: CallSite| cs_model(cs)) == old(out)@.map_values(
            |cs: CallSite| cs_model(cs),
        ) + walk(*node, file_tag@, ctx_model(state)).1,
    decreases *node,
{
    let ghost spec_result = walk(*node, file_tag@, ctx_model(state));
    let is_fn = is_function_kind_exec(&node.kind);
    let mut st = state;
    if is_fn {
        match fn_info_exec(node) {
            Some(p) => {
                st = WalkCtx { name: Some(p) };
            },
            None => {},
        }
    }
    let ghost st1 = ctx_model(st);
    if is_call_kind_exec(&node.kind) {
        match called_info_exec(node) {
            Some(p) => {
                if p.0.unicode_len() > 0 {
                    let caller_id = match &st.name {
                        Some(f) => {
                            let mut s = file_tag.clone();
                            s.append(":function:");
                            s.append(f.0.as_str());
                            s.append(":");
                            let digits = u64_string(f.1 as u64);
                            s.append(digits.as_str());
                            s
                        },
                        None => {
                            let mut s = String::new();
                            s.append("module_level");
                            s
                        },
                    };
                    let mut context = String::new();
                    context.append("ast_node:");
                    context.append(node.kind.as_str());
                    let cs = CallSite {
                        caller_id,
                        called_name: p.0,
                        call_type: p.1,
                        context: Some(context),
                        line_number: line_of_exec(node.row),
                    };
                    proof {
                        assert(cs_model(cs) == call_site_of(
                            *node,
                            file_tag@,
                            st1,
                        )->Some_0);
                    }
                    out.push(cs);
                }
            },
            None => {},
        }
    }
    proof {
        assert(out@.map_values(|cs: CallSite| cs_model(cs)) =~= old(out)@.map_values(
            |cs: CallSite| cs_model(cs),
        ) + (if is_call_kind(node.kind@) {
            match call_site_of(*node, file_tag@, st1) {
                Some(cs) => seq![cs],
                None => Seq::<CallModel>::empty(),
            }
        } else {
            Seq::<CallModel>::empty()
        }));
    }
    let ghost before_children = out@.map_values(|cs: CallSite| cs_model(cs));
    let mut i: usize = 0;
    while i < node.children.len()
        invariant
            i <= node.children@.len(),
            ctx_model(st) == walk_children_partial(node.children@, 0, i as int, file_tag@, st1),
            out@.map_values(|cs: CallSite| cs_model(cs)) == before_children + collected_partial(
                node.children@,
                0,
                i as int,
                file_tag@,
                st1,
            ),
        decreases node.children@.len() - i,
    {
        st = walk_exec(&node.children[i], file_tag, st, out);
        i = i + 1;
        proof {
            lemma_walk_children_partial_step(node.children@, 0, i as int, file_tag@, st1);
        }
    }
    proof {
        lemma_walk_children_partial_full(node.children@, 0, file_tag@, st1);
    }
    if is_fn {
        st = WalkCtx { name: None };
    }
    st
}

/// The state after walking the children in `[from, to)` under `state`.
pub open spec fn walk_children_partial(
    children: Seq<SyntaxNode>,
    from: int,
    to: int,
    file_tag: Seq<char>,
    state: WalkState,
) -> WalkState
    decreases children, to - from,
{
    if from < 0 || from >= to || from >= children.len() {
        state
    } else {
        walk_children_partial(
            children,
            from + 1,
            to,
            file_tag,
            walk(children[from], file_tag, state).0,
        )
    }
}

/// The call sites the children in `[from, to)` yield under `state`.
pub open spec fn collected_partial(
    children: Seq<SyntaxNode>,
    from: int,
    to: int,
    file_tag: Seq<char>,
    state: WalkState,
) -> Seq<CallModel>
    decreases children, to - from,
{
    if from < 0 || from >= to || from >= children.len() {
        Seq::<CallModel>::empty()
    } else {
        let first = walk(children[from], file_tag, state);
        first.1 + collected_partial(children, from + 1, to, file_tag, first.0)
    }
}

/// Extending a partial walk of `[from, to)` by one child walks `[from, to+1)`.
proof fn lemma_walk_children_partial_step(
    children: Seq<SyntaxNode>,
    from: int,
    to: int,
    file_tag: Seq<char>,
    state: WalkState,
)
    requires
        0 <= from < to,
        to <= children.len(),
    ensures
        walk_children_partial(children, from, to, file_tag, state) == walk(
            children[to - 1],
            file_tag,
            walk_children_partial(children, from, to - 1, file_tag, state),
        ).0,
        collected_partial(children, from, to, file_tag, state) == collected_partial(
            children,
            from,
            to - 1,
            file_tag,
            state,
        ) + walk(
            children[to - 1],
            file_tag,
            walk_children_partial(children, from, to - 1, file_tag, state),
        ).1,
    decreases to - from,
{
    let first = walk(children[from], file_tag, state);
    assert(collected_partial(children, from, to, file_tag, state) == first.1 + collected_partial(
        children,
        from + 1,
        to,
        file_tag,
        first.0,
    ));
    assert(walk_children_partial(children, from, to, file_tag, state) == walk_children_partial(
        children,
        from + 1,
        to,
        file_tag,
        first.0,
    ));
    if from + 1 < to {
        lemma_walk_children_partial_step(children, from + 1, to, file_tag, first.0);
        assert(collected_partial(children, from, to - 1, file_tag, state) == first.1
            + collected_partial(children, from + 1, to - 1, file_tag, first.0));
        assert(walk_children_partial(children, from, to - 1, file_tag, state)
            == walk_children_partial(children, from + 1, to - 1, file_tag, first.0));
        let w = walk(
            children[to - 1],
            file_tag,
            walk_children_partial(children, from, to - 1, file_tag, state),
        );
        assert(collected_partial(children, from, to, file_tag, state) =~= collected_partial(
            children,
            from,
            to - 1,
            file_tag,
            state,
        ) + w.1);
    } else {
        assert(to - 1 == from);
        assert(collected_partial(children, from + 1, to, file_tag, first.0)
            == Seq::<CallModel>::empty());
        assert(collected_partial(children, from, to - 1, file_tag, state)
            == Seq::<CallModel>::empty());
        assert(walk_children_partial(children, from, to - 1, file_tag, state) == state);
        assert(walk_children_partial(children, from + 1, to, file_tag, first.0) == first.0);
        let w = walk(children[to - 1], file_tag, state);
        assert(collected_partial(children, from, to, file_tag, state) =~= collected_partial(
            children,
            from,
            to - 1,
            file_tag,
            state,
        ) + w.1);
    }
}


/// Walking all children partially equals the full child walk.
proof fn lemma_walk_children_partial_full(
    children: Seq<SyntaxNode>,
    from: int,
    file_tag: Seq<char>,
    state: WalkState,
)
    requires
        0 <= from <= children.len(),
    ensures
        walk_children_partial(children, from, children.len() as int, file_tag, state)
            == walk_children(children, from, file_tag, state).0,
        collected_partial(children, from, children.len() as int, file_tag, state) == walk_children(
            children,
            from,
            file_tag,
            state,
        ).1,
    decreases children.len() - from,
{
    if from < children.len() {
        lemma_walk_children_partial_full(
            children,
            from + 1,
            file_tag,
            walk(children[from], file_tag, state).0,
        );
    }
}

} // verus!
