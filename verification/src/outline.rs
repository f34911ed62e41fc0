//! The outline of a file: its global variables, functions and structs, with
//! the fields of each struct beneath it.

use vstd::prelude::*;

use crate::module::{metas_view, FunctionView, Module, StructView, TextRange, Variable};
use crate::text::{chars_of, concat_str, push_char};
use crate::types::{const_type, Ty, TyView};
use crate::tytext::ty_text;

verus! {

/// What an outline entry stands for.
#[derive(Debug, Clone, Copy, PartialEq, Eq, Structural)]
pub enum OutlineKind {
    Constant,
    Variable,
    Function,
    Struct,
    Field,
}

/// An entry of a file's outline.
#[derive(Debug)]
pub struct DocSymbol {
    pub name: String,
    pub detail: Option<String>,
    pub kind: OutlineKind,
    pub range: TextRange,
    pub children: Option<Vec<DocSymbol>>,
}

/// An entry without children, as a mathematical value.
pub struct LeafView {
    pub name: Seq<char>,
    pub detail: Option<Seq<char>>,
    pub kind: OutlineKind,
    pub range: TextRange,
    pub has_children: bool,
}

/// An entry with its children, as a mathematical value.
pub struct DocView {
    pub name: Seq<char>,
    pub detail: Option<Seq<char>>,
    pub kind: OutlineKind,
    pub range: TextRange,
    pub children: Option<Seq<LeafView>>,
}

pub open spec fn opt_text(s: Option<String>) -> Option<Seq<char>> {
    match s {
        Some(t) => Some(t@),
        None => None,
    }
}

pub open spec fn leaf_view(d: DocSymbol) -> LeafView {
    LeafView { name: d.name@, detail: opt_text(d.detail), kind: d.kind, range: d.range, has_children: d.children is Some }
}

pub open spec fn doc_view(d: DocSymbol) -> DocView {
    DocView {
        name: d.name@,
        detail: opt_text(d.detail),
        kind: d.kind,
        range: d.range,
        children: match d.children {
            Some(cs) => Some(cs@.map_values(|c: DocSymbol| leaf_view(c))),
            None => None,
        },
    }
}

pub open spec fn docs_view(ds: Seq<DocSymbol>) -> Seq<DocView> {
    ds.map_values(|d: DocSymbol| doc_view(d))
}

/// The entry of a global variable: a constant when its type is `const`.
pub open spec fn variable_entry(v: Variable) -> DocView {
    DocView {
        name: v.name@,
        detail: Some(ty_text(v.ty@)),
        kind: if const_type(v.ty@) {
            OutlineKind::Constant
        } else {
            OutlineKind::Variable
        },
        range: v.range,
        children: None,
    }
}

/// The entries of the global variables, in the order the global scope lists them.
pub open spec fn global_entries(entries: Seq<(String, crate::module::VariableID)>, vars: Seq<Variable>) -> Seq<DocView>
    decreases entries.len(),
{
    if entries.len() == 0 {
        Seq::empty()
    } else {
        let rest = global_entries(entries.drop_last(), vars);
        let id = entries.last().1;
        if id.0 < vars.len() {
            rest.push(variable_entry(vars[id.0 as int]))
        } else {
            rest
        }
    }
}

/// `name: type`.
pub open spec fn param_text(p: (Seq<char>, TyView)) -> Seq<char> {
    p.0 + ": "@ + ty_text(p.1)
}

/// The parameters, separated by `, `.
pub open spec fn params_text(ms: Seq<(Seq<char>, TyView)>) -> Seq<char>
    decreases ms.len(),
{
    if ms.len() == 0 {
        Seq::empty()
    } else if ms.len() == 1 {
        param_text(ms[0])
    } else {
        params_text(ms.drop_last()) + ", "@ + param_text(ms.last())
    }
}

/// `fn name(params) -> ret`.
pub open spec fn fn_detail(f: FunctionView) -> Seq<char> {
    "fn "@ + f.name + "("@ + params_text(f.meta_types) + ") -> "@ + ty_text(f.ret_type)
}

pub open spec fn function_entry(f: FunctionView) -> DocView {
    DocView { name: f.name, detail: Some(fn_detail(f)), kind: OutlineKind::Function, range: f.range, children: None }
}

/// The entries of the fields that a struct lists and the field table holds.
pub open spec fn field_entries(ids: Seq<crate::module::FieldID>, fields: Seq<crate::module::Field>) -> Seq<LeafView>
    decreases ids.len(),
{
    if ids.len() == 0 {
        Seq::empty()
    } else {
        let rest = field_entries(ids.drop_last(), fields);
        let i = ids.last().index;
        if i < fields.len() {
            let f = fields[i as int];
            rest.push(
                LeafView {
                    name: f.name@,
                    detail: Some(ty_text(f.ty@)),
                    kind: OutlineKind::Field,
                    range: f.range,
                    has_children: false,
                },
            )
        } else {
            rest
        }
    }
}

pub open spec fn struct_entry(s: StructView, fields: Seq<crate::module::Field>) -> DocView {
    let cs = field_entries(s.fields, fields);
    DocView {
        name: s.name,
        detail: None,
        kind: OutlineKind::Struct,
        range: s.range,
        children: if cs.len() == 0 {
            None
        } else {
            Some(cs)
        },
    }
}

/// The outline of a file: its global variables, then its functions, then its
/// structs with their fields.
pub open spec fn outline(m: &Module) -> Seq<DocView> {
    let globals = if m.global_scope.0 < m.scopes.len() {
        global_entries(m.scopes@[m.global_scope.0 as int].variables@, m.variables@)
    } else {
        Seq::empty()
    };
    globals + m.functions@.map_values(|f: crate::module::Function| function_entry(f@)) + m.structs@.map_values(
        |s: crate::module::Struct| struct_entry(s@, m.fields@),
    )
}

fn param_string(name: &String, ty: &Ty) -> (r: String)
    ensures
        r@ == param_text((name@, ty@)),
{
    let a = concat_str(name.as_str(), ": ");
    let t = ty.to_string();
    concat_str(a.as_str(), t.as_str())
}

fn function_detail(f: &crate::module::Function) -> (r: String)
    ensures
        r@ == fn_detail(f@),
{
    let mut params = String::new();
    let mut k: usize = 0;
    proof {
        reveal_strlit("");
    }
    while k < f.meta_types.len()
        invariant
            k <= f.meta_types.len(),
            params@ == params_text(metas_view(f.meta_types@).take(k as int)),
        decreases f.meta_types.len() - k,
    {
        let ghost ms = metas_view(f.meta_types@);
        proof {
            assert(ms.take(k + 1).drop_last() =~= ms.take(k as int));
            assert(ms.take(k + 1).last() == ms[k as int]);
        }
        let (n, t) = &f.meta_types[k];
        let p = param_string(n, t);
        if k == 0 {
            params = p;
            proof {
                assert(ms.take(1) =~= seq![ms[0]]);
            }
        } else {
            let q = concat_str(params.as_str(), ", ");
            params = concat_str(q.as_str(), p.as_str());
        }
        k += 1;
    }
    proof {
        assert(metas_view(f.meta_types@).take(f.meta_types.len() as int) =~= metas_view(f.meta_types@));
    }
    let a = concat_str("fn ", f.name.as_str());
    let b = concat_str(a.as_str(), "(");
    let c = concat_str(b.as_str(), params.as_str());
    let d = concat_str(c.as_str(), ") -> ");
    let t = f.ret_type.to_string();
    concat_str(d.as_str(), t.as_str())
}

/// The outline of `module`, as `outline` says.
pub fn compute_document_symbols(module: &Module) -> (r: Vec<DocSymbol>)
    ensures
        docs_view(r@) == outline(module),
{
    let mut symbols: Vec<DocSymbol> = Vec::new();
    let g = module.global_scope.0 as usize;
    if g < module.scopes.len() {
        let entries = &module.scopes[g].variables;
        let mut k: usize = 0;
        while k < entries.len()
            invariant
                k <= entries.len(),
                g < module.scopes.len(),
                entries == module.scopes@[g as int].variables,
                docs_view(symbols@) == global_entries(entries@.take(k as int), module.variables@),
            decreases entries.len() - k,
        {
            proof {
                assert(entries@.take(k + 1).drop_last() =~= entries@.take(k as int));
            }
            let id = entries[k].1;
            if (id.0 as usize) < module.variables.len() {
                let v = &module.variables[id.0 as usize];
                let kind = if v.is_const() {
                    OutlineKind::Constant
                } else {
                    OutlineKind::Variable
                };
                let ghost before = symbols@;
                symbols.push(
                    DocSymbol {
                        name: v.name.clone(),
                        detail: Some(v.ty.to_string()),
                        kind,
                        range: v.range,
                        children: None,
                    },
                );
                proof {
                    assert(docs_view(symbols@) =~= docs_view(before).push(doc_view(symbols@.last())));
                }
            }
            k += 1;
        }
        proof {
            assert(entries@.take(entries.len() as int) =~= entries@);
        }
    }
    let ghost globals = docs_view(symbols@);
    let mut k: usize = 0;
    while k < module.functions.len()
        invariant
            k <= module.functions.len(),
            docs_view(symbols@) == globals + module.functions@.take(k as int).map_values(
                |f: crate::module::Function| function_entry(f@),
            ),
        decreases module.functions.len() - k,
    {
        let f = &module.functions[k];
        let ghost before = symbols@;
        symbols.push(
            DocSymbol {
                name: f.name.clone(),
                detail: Some(function_detail(f)),
                kind: OutlineKind::Function,
                range: f.range,
                children: None,
            },
        );
        proof {
            assert(module.functions@.take(k + 1).map_values(|f: crate::module::Function| function_entry(f@))
                =~= module.functions@.take(k as int).map_values(|f: crate::module::Function| function_entry(f@)).push(
                function_entry(module.functions@[k as int]@),
            ));
            assert(docs_view(symbols@) =~= docs_view(before).push(doc_view(symbols@.last())));
        }
        k += 1;
    }
    proof {
        assert(module.functions@.take(module.functions.len() as int) =~= module.functions@);
    }
    let ghost with_functions = docs_view(symbols@);
    let mut k: usize = 0;
    while k < module.structs.len()
        invariant
            k <= module.structs.len(),
            docs_view(symbols@) == with_functions + module.structs@.take(k as int).map_values(
                |s: crate::module::Struct| struct_entry(s@, module.fields@),
            ),
        decreases module.structs.len() - k,
    {
        let s = &module.structs[k];
        let mut children: Vec<DocSymbol> = Vec::new();
        let mut j: usize = 0;
        while j < s.fields.len()
            invariant
                j <= s.fields.len(),
                children@.map_values(|c: DocSymbol| leaf_view(c)) == field_entries(s.fields@.take(j as int), module.fields@),
            decreases s.fields.len() - j,
        {
            proof {
                assert(s.fields@.take(j + 1).drop_last() =~= s.fields@.take(j as int));
            }
            let i = s.fields[j].index as usize;
            if i < module.fields.len() {
                let f = &module.fields[i];
                let ghost before = children@;
                children.push(
                    DocSymbol {
                        name: f.name.clone(),
                        detail: Some(f.ty.to_string()),
                        kind: OutlineKind::Field,
                        range: f.range,
                        children: None,
                    },
                );
                proof {
                    assert(children@.map_values(|c: DocSymbol| leaf_view(c)) =~= before.map_values(
                        |c: DocSymbol| leaf_view(c),
                    ).push(leaf_view(children@.last())));
                }
            }
            j += 1;
        }
        proof {
            assert(s.fields@.take(s.fields.len() as int) =~= s.fields@);
        }
        let cs = if children.len() == 0 {
            None
        } else {
            Some(children)
        };
        let ghost before = symbols@;
        symbols.push(DocSymbol { name: s.name.clone(), detail: None, kind: OutlineKind::Struct, range: s.range, children: cs });
        proof {
            assert(module.structs@.take(k + 1).map_values(|s: crate::module::Struct| struct_entry(s@, module.fields@))
                =~= module.structs@.take(k as int).map_values(
                |s: crate::module::Struct| struct_entry(s@, module.fields@),
            ).push(struct_entry(module.structs@[k as int]@, module.fields@)));
            assert(docs_view(symbols@) =~= docs_view(before).push(doc_view(symbols@.last())));
        }
        k += 1;
    }
    proof {
        assert(module.structs@.take(module.structs.len() as int) =~= module.structs@);
    }
    symbols
}


// ---------------------------------------------------------------------------
// Searching the workspace
// ---------------------------------------------------------------------------

/// What `str::to_lowercase` gives for a text.
pub uninterp spec fn lowercased(s: Seq<char>) -> Seq<char>;

/// Calls `str::to_lowercase`: the text with each character in lower case.
#[verifier::external_body]
fn to_lower(s: &str) -> (r: String)
    ensures
        r@ == lowercased(s@),
{
    s.to_lowercase()
}

/// The lower-case form of an ASCII character: `A` to `Z` become `a` to `z`,
/// every other character stays.
pub open spec fn ascii_lower(c: char) -> char {
    if 'A' <= c && c <= 'Z' {
        (((c as u8) + 32) as u8) as char
    } else {
        c
    }
}

/// Whether every character of a text is ASCII.
pub open spec fn all_ascii(s: Seq<char>) -> bool {
    forall|i: int| 0 <= i < s.len() ==> s[i] < '\u{80}'
}

/// The lower-case form of a text, as `str::to_lowercase` gives it: an ASCII
/// text has each letter lowered in place; any other text is handed to
/// `str::to_lowercase`.
pub open spec fn lower_text(s: Seq<char>) -> Seq<char> {
    if all_ascii(s) {
        s.map_values(|c: char| ascii_lower(c))
    } else {
        lowercased(s)
    }
}

/// The lower-case form of one ASCII character.
fn lower_char(c: char) -> (r: char)
    ensures
        r == ascii_lower(c),
{
    if 'A' <= c && c <= 'Z' {
        ((c as u8) + 32) as char
    } else {
        c
    }
}

/// The lower-case form of a text: ASCII text is lowered here, one character
/// at a time; other text goes to `str::to_lowercase`.
fn lower_text_of(s: &str) -> (r: String)
    ensures
        r@ == lower_text(s@),
{
    let cs = chars_of(s);
    let mut i: usize = 0;
    while i < cs.len()
        invariant
            i <= cs.len(),
            cs@ == s@,
            forall|j: int| 0 <= j < i ==> cs@[j] < '\u{80}',
        decreases cs.len() - i,
    {
        if cs[i] >= '\u{80}' {
            return to_lower(s);
        }
        i += 1;
    }
    let mut out = String::new();
    let mut k: usize = 0;
    while k < cs.len()
        invariant
            k <= cs.len(),
            cs@ == s@,
            all_ascii(s@),
            out@ == s@.take(k as int).map_values(|c: char| ascii_lower(c)),
        decreases cs.len() - k,
    {
        let c = lower_char(cs[k]);
        push_char(&mut out, c);
        assert(s@.take(k + 1).map_values(|c: char| ascii_lower(c)) =~= s@.take(k as int).map_values(
            |c: char| ascii_lower(c),
        ).push(c));
        k += 1;
    }
    assert(s@.take(cs.len() as int) =~= s@);
    out
}

/// Lowering an ASCII text keeps its length and lowers each character in
/// place: an upper-case letter becomes the letter 32 code points on, every
/// other character stays. Lowering twice changes nothing more, and a text
/// and its upper-case letters lowered have the same lower-case form.
pub proof fn lemma_lower_text(s: Seq<char>)
    requires
        all_ascii(s),
    ensures
        lower_text(s).len() == s.len(),
        forall|i: int|
            0 <= i < s.len() ==> (if 'A' <= s[i] && s[i] <= 'Z' {
                (#[trigger] lower_text(s)[i]) as u32 == s[i] as u32 + 32
            } else {
                lower_text(s)[i] == s[i]
            }),
        forall|i: int| 0 <= i < s.len() ==> !('A' <= #[trigger] lower_text(s)[i] && lower_text(s)[i] <= 'Z'),
        lower_text(lower_text(s)) == lower_text(s),
{
    let l = lower_text(s);
    assert forall|i: int| 0 <= i < s.len() implies (if 'A' <= s[i] && s[i] <= 'Z' {
        (#[trigger] l[i]) as u32 == s[i] as u32 + 32
    } else {
        l[i] == s[i]
    }) && !('A' <= l[i] && l[i] <= 'Z') && l[i] < '\u{80}' && ascii_lower(l[i]) == l[i] by {
        assert(l[i] == ascii_lower(s[i]));
    }
    assert(all_ascii(l));
    assert(lower_text(l) =~= l);
}

/// Whether `needle` occurs in `hay` at position `i`.
pub open spec fn occurs_at(hay: Seq<char>, needle: Seq<char>, i: int) -> bool {
    0 <= i && i + needle.len() <= hay.len() && hay.subrange(i, i + needle.len()) == needle
}

/// Whether `needle` occurs in `hay`.
pub open spec fn contains_text(hay: Seq<char>, needle: Seq<char>) -> bool {
    exists|i: int| occurs_at(hay, needle, i)
}

fn occurs_exec(hay: &Vec<char>, needle: &Vec<char>, i: usize) -> (r: bool)
    requires
        i + needle.len() <= hay.len(),
    ensures
        r == occurs_at(hay@, needle@, i as int),
{
    let n = needle.len();
    let mut j: usize = 0;
    while j < n
        invariant
            n == needle.len(),
            i + n <= hay.len(),
            j <= n,
            forall|t: int| 0 <= t < j ==> hay@[i + t] == needle@[t],
        decreases n - j,
    {
        if hay[i + j] != needle[j] {
            proof {
                if occurs_at(hay@, needle@, i as int) {
                    assert(hay@.subrange(i as int, i + n)[j as int] == hay@[i + j]);
                }
            }
            return false;
        }
        j += 1;
    }
    assert(hay@.subrange(i as int, i + n) =~= needle@);
    true
}

/// Whether `needle` occurs in `hay`.
pub fn contains_chars(hay: &Vec<char>, needle: &Vec<char>) -> (r: bool)
    ensures
        r == contains_text(hay@, needle@),
{
    let n = needle.len();
    if n > hay.len() {
        return false;
    }
    let last = hay.len() - n;
    let mut i: usize = 0;
    while i < last
        invariant
            n == needle.len(),
            last + n == hay.len(),
            i <= last,
            forall|k: int| 0 <= k < i ==> !occurs_at(hay@, needle@, k),
        decreases last - i,
    {
        if occurs_exec(hay, needle, i) {
            return true;
        }
        i += 1;
    }
    let r = occurs_exec(hay, needle, last);
    proof {
        if !r {
            assert forall|k: int| !occurs_at(hay@, needle@, k) by {
                if 0 <= k && k + n <= hay.len() {
                    assert(k <= last);
                }
            }
        }
    }
    r
}

/// Whether a name matches a search: every name matches an empty query;
/// otherwise the query, in lower case, occurs in the name in lower case.
pub open spec fn query_matches(q: Seq<char>, name: Seq<char>) -> bool {
    q.len() == 0 || contains_text(lower_text(name), lower_text(q))
}

/// An entry found by a workspace search.
#[derive(Debug)]
pub struct WorkspaceSymbol {
    pub file_id: u32,
    pub name: String,
    pub kind: OutlineKind,
    pub range: TextRange,
}

/// A found entry as a mathematical value.
pub struct WsView {
    pub file_id: u32,
    pub name: Seq<char>,
    pub kind: OutlineKind,
    pub range: TextRange,
}

pub open spec fn ws_view(w: WorkspaceSymbol) -> WsView {
    WsView { file_id: w.file_id, name: w.name@, kind: w.kind, range: w.range }
}

pub open spec fn ws_views(ws: Seq<WorkspaceSymbol>) -> Seq<WsView> {
    ws.map_values(|w: WorkspaceSymbol| ws_view(w))
}

/// The global variables of file `file` that match the query.
pub open spec fn ws_globals(
    file: u32,
    entries: Seq<(String, crate::module::VariableID)>,
    vars: Seq<Variable>,
    q: Seq<char>,
) -> Seq<WsView>
    decreases entries.len(),
{
    if entries.len() == 0 {
        Seq::empty()
    } else {
        let rest = ws_globals(file, entries.drop_last(), vars, q);
        let id = entries.last().1;
        if id.0 < vars.len() && query_matches(q, vars[id.0 as int].name@) {
            let v = vars[id.0 as int];
            rest.push(
                WsView {
                    file_id: file,
                    name: v.name@,
                    kind: if const_type(v.ty@) {
                        OutlineKind::Constant
                    } else {
                        OutlineKind::Variable
                    },
                    range: v.range,
                },
            )
        } else {
            rest
        }
    }
}

/// The functions of file `file` that match the query.
pub open spec fn ws_functions(file: u32, fs: Seq<crate::module::Function>, q: Seq<char>) -> Seq<WsView>
    decreases fs.len(),
{
    if fs.len() == 0 {
        Seq::empty()
    } else {
        let rest = ws_functions(file, fs.drop_last(), q);
        if query_matches(q, fs.last().name@) {
            rest.push(WsView { file_id: file, name: fs.last().name@, kind: OutlineKind::Function, range: fs.last().range })
        } else {
            rest
        }
    }
}

/// The structs of file `file` that match the query.
pub open spec fn ws_structs(file: u32, ss: Seq<crate::module::Struct>, q: Seq<char>) -> Seq<WsView>
    decreases ss.len(),
{
    if ss.len() == 0 {
        Seq::empty()
    } else {
        let rest = ws_structs(file, ss.drop_last(), q);
        if query_matches(q, ss.last().name@) {
            rest.push(WsView { file_id: file, name: ss.last().name@, kind: OutlineKind::Struct, range: ss.last().range })
        } else {
            rest
        }
    }
}

/// What a search finds in one file: its global variables, functions and structs.
pub open spec fn module_matches(m: Module, q: Seq<char>) -> Seq<WsView> {
    let globals = if m.global_scope.0 < m.scopes.len() {
        ws_globals(m.file_id, m.scopes@[m.global_scope.0 as int].variables@, m.variables@, q)
    } else {
        Seq::empty()
    };
    globals + ws_functions(m.file_id, m.functions@, q) + ws_structs(m.file_id, m.structs@, q)
}

/// What a search finds in the files `ms`, file by file, among the files
/// whose ids are listed in `files` (those open in the workspace).
pub open spec fn workspace_matches(ms: Seq<Module>, q: Seq<char>, files: Seq<u32>) -> Seq<WsView>
    decreases ms.len(),
{
    if ms.len() == 0 {
        Seq::empty()
    } else {
        workspace_matches(ms.drop_last(), q, files) + if files.contains(ms.last().file_id) {
            module_matches(ms.last(), q)
        } else {
            Seq::empty()
        }
    }
}

/// Whether `id` is one of `files`.
fn file_listed(files: &Vec<u32>, id: u32) -> (r: bool)
    ensures
        r == files@.contains(id),
{
    let mut i: usize = 0;
    while i < files.len()
        invariant
            i <= files.len(),
            forall|j: int| 0 <= j < i ==> files@[j] != id,
        decreases files.len() - i,
    {
        if files[i] == id {
            assert(files@[i as int] == id);
            return true;
        }
        i += 1;
    }
    false
}

fn name_matches(q: &Vec<char>, q_lower: &Vec<char>, name: &String) -> (r: bool)
    requires
        q_lower@ == lower_text(q@),
    ensures
        r == query_matches(q@, name@),
{
    if q.len() == 0 {
        return true;
    }
    let lower = lower_text_of(name.as_str());
    let cs = chars_of(lower.as_str());
    contains_chars(&cs, q_lower)
}

fn push_found(out: &mut Vec<WorkspaceSymbol>, w: WorkspaceSymbol)
    ensures
        ws_views(final(out)@) == ws_views(old(out)@).push(ws_view(w)),
{
    out.push(w);
    assert(ws_views(out@) =~= ws_views(old(out)@).push(ws_view(w)));
}

/// The global variables, functions and structs whose names match `query`,
/// of the files `modules` that are open in the workspace (their ids listed
/// in `files`; the others are skipped), as `workspace_matches` says.
pub fn search_workspace_symbols(query: &str, modules: &Vec<Module>, files: &Vec<u32>) -> (r: Vec<WorkspaceSymbol>)
    ensures
        ws_views(r@) == workspace_matches(modules@, query@, files@),
{
    let q = chars_of(query);
    let ql = lower_text_of(query);
    let q_lower = chars_of(ql.as_str());
    let mut out: Vec<WorkspaceSymbol> = Vec::new();
    let mut mi: usize = 0;
    assert(ws_views(out@) =~= Seq::<WsView>::empty());
    while mi < modules.len()
        invariant
            mi <= modules.len(),
            q@ == query@,
            q_lower@ == lower_text(query@),
            ws_views(out@) == workspace_matches(modules@.take(mi as int), query@, files@),
        decreases modules.len() - mi,
    {
        proof {
            assert(modules@.take(mi + 1).drop_last() =~= modules@.take(mi as int));
        }
        let m = &modules[mi];
        if !file_listed(files, m.file_id) {
            proof {
                assert(ws_views(out@) =~= workspace_matches(modules@.take(mi + 1), query@, files@));
            }
            mi += 1;
            continue;
        }
        let ghost start = ws_views(out@);
        let g = m.global_scope.0 as usize;
        if g < m.scopes.len() {
            let entries = &m.scopes[g].variables;
            let mut k: usize = 0;
            while k < entries.len()
                invariant
                    k <= entries.len(),
                    g < m.scopes.len(),
                    entries == m.scopes@[g as int].variables,
                    q@ == query@,
                    q_lower@ == lower_text(query@),
                    ws_views(out@) == start + ws_globals(m.file_id, entries@.take(k as int), m.variables@, query@),
                decreases entries.len() - k,
            {
                proof {
                    assert(entries@.take(k + 1).drop_last() =~= entries@.take(k as int));
                }
                let id = entries[k].1;
                if (id.0 as usize) < m.variables.len() {
                    let v = &m.variables[id.0 as usize];
                    if name_matches(&q, &q_lower, &v.name) {
                        let kind = if v.is_const() {
                            OutlineKind::Constant
                        } else {
                            OutlineKind::Variable
                        };
                        push_found(&mut out, WorkspaceSymbol { file_id: m.file_id, name: v.name.clone(), kind, range: v.range });
                    }
                }
                k += 1;
            }
            proof {
                assert(entries@.take(entries.len() as int) =~= entries@);
            }
        }
        let ghost after_globals = ws_views(out@);
        let mut k: usize = 0;
        while k < m.functions.len()
            invariant
                k <= m.functions.len(),
                q@ == query@,
                q_lower@ == lower_text(query@),
                ws_views(out@) == after_globals + ws_functions(m.file_id, m.functions@.take(k as int), query@),
            decreases m.functions.len() - k,
        {
            proof {
                assert(m.functions@.take(k + 1).drop_last() =~= m.functions@.take(k as int));
            }
            let f = &m.functions[k];
            if name_matches(&q, &q_lower, &f.name) {
                push_found(
                    &mut out,
                    WorkspaceSymbol { file_id: m.file_id, name: f.name.clone(), kind: OutlineKind::Function, range: f.range },
                );
            }
            k += 1;
        }
        proof {
            assert(m.functions@.take(m.functions.len() as int) =~= m.functions@);
        }
        let ghost after_functions = ws_views(out@);
        let mut k: usize = 0;
        while k < m.structs.len()
            invariant
                k <= m.structs.len(),
                q@ == query@,
                q_lower@ == lower_text(query@),
                ws_views(out@) == after_functions + ws_structs(m.file_id, m.structs@.take(k as int), query@),
            decreases m.structs.len() - k,
        {
            proof {
                assert(m.structs@.take(k + 1).drop_last() =~= m.structs@.take(k as int));
            }
            let s = &m.structs[k];
            if name_matches(&q, &q_lower, &s.name) {
                push_found(
                    &mut out,
                    WorkspaceSymbol { file_id: m.file_id, name: s.name.clone(), kind: OutlineKind::Struct, range: s.range },
                );
            }
            k += 1;
        }
        proof {
            assert(m.structs@.take(m.structs.len() as int) =~= m.structs@);
            assert(ws_views(out@) =~= workspace_matches(modules@.take(mi as int), query@, files@) + module_matches(*m, query@));
        }
        mi += 1;
    }
    proof {
        assert(modules@.take(modules.len() as int) =~= modules@);
    }
    out
}

/// A keyword offered for completion, with a word on what it is for.
#[derive(Debug)]
pub struct KeywordItem {
    pub label: String,
    pub detail: String,
}

/// The keywords of the language offered for completion, each with its
/// description, in the order they are offered.
pub open spec fn keyword_table() -> Seq<(Seq<char>, Seq<char>)> {
    seq![
        ("i32"@, "32bit integer type"@),
        ("f32"@, "32bit float type"@),
        ("void"@, "void type"@),
        ("if"@, "condition statement"@),
        ("else"@, "条件分支"@),
        ("while"@, "循环语句"@),
        ("break"@, "跳出循环"@),
        ("continue"@, "继续下一次循环"@),
        ("return"@, "返回语句"@),
        ("let"@, "变量声明"@),
        ("fn"@, "函数声明"@),
        ("struct"@, "结构体声明"@),
        ("const"@, "常量修饰符"@),
        ("mut"@, "可变修饰符"@),
        ("attach"@, "函数附加"@),
    ]
}

/// The completion entries for every keyword of the language, in the order
/// of `keyword_table`.
pub fn complete_keywords() -> (r: Vec<KeywordItem>)
    ensures
        r@.len() == keyword_table().len(),
        forall|i: int|
            0 <= i < r@.len() ==> (#[trigger] r@[i]).label@ == keyword_table()[i].0 && r@[i].detail@
                == keyword_table()[i].1,
{
    let mut out: Vec<KeywordItem> = Vec::new();
    out.push(KeywordItem { label: "i32".to_string(), detail: "32bit integer type".to_string() });
    out.push(KeywordItem { label: "f32".to_string(), detail: "32bit float type".to_string() });
    out.push(KeywordItem { label: "void".to_string(), detail: "void type".to_string() });
    out.push(KeywordItem { label: "if".to_string(), detail: "condition statement".to_string() });
    out.push(KeywordItem { label: "else".to_string(), detail: "条件分支".to_string() });
    out.push(KeywordItem { label: "while".to_string(), detail: "循环语句".to_string() });
    out.push(KeywordItem { label: "break".to_string(), detail: "跳出循环".to_string() });
    out.push(KeywordItem { label: "continue".to_string(), detail: "继续下一次循环".to_string() });
    out.push(KeywordItem { label: "return".to_string(), detail: "返回语句".to_string() });
    out.push(KeywordItem { label: "let".to_string(), detail: "变量声明".to_string() });
    out.push(KeywordItem { label: "fn".to_string(), detail: "函数声明".to_string() });
    out.push(KeywordItem { label: "struct".to_string(), detail: "结构体声明".to_string() });
    out.push(KeywordItem { label: "const".to_string(), detail: "常量修饰符".to_string() });
    out.push(KeywordItem { label: "mut".to_string(), detail: "可变修饰符".to_string() });
    out.push(KeywordItem { label: "attach".to_string(), detail: "函数附加".to_string() });
    out
}

} // verus!
