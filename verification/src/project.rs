//! A project of source files: the definitions of each file before its bodies
//! are analysed (the functions and structs it declares at the top level, and
//! their signatures and fields), and, once every file is analysed, the
//! declarations the files share, the citations of every declaration across
//! files and the checks that span files.

use vstd::prelude::*;

use crate::checker::{
    distinct_files, holds_cycle, recursive_errors_sound, reported_struct, reports, reports_cycle_at, struct_def,
    RecursiveTypeChecker,
};
use crate::error::AnalyzeError;
use crate::module::{
    listed, push_listed, take_listed, ThinModule, Reference, ReferenceTag, VariableID, metas_view, named, Field, FieldID, FieldView, Function, FunctionID, FunctionView, Module, Struct, StructID, StructView,
    TextRange,
};
use crate::typenode::{is_issue, lemma_node_type_frame, node_type, parse_type_node, reads_as, TypeIssue, TypeNode};
use crate::types::{Ty, TyView};

verus! {

/// A struct field of the source: its name with the name's range, its type
/// node and its range.
#[derive(Debug)]
pub struct FieldNode {
    pub name: Option<(String, TextRange)>,
    pub ty: Option<TypeNode>,
    pub range: TextRange,
}

/// A struct definition of the source: its name with the name's range, and its fields.
#[derive(Debug)]
pub struct StructDefNode {
    pub name: Option<(String, TextRange)>,
    pub fields: Vec<FieldNode>,
}

/// A parameter of a function signature: `...`, or a name and a type node.
#[derive(Debug)]
pub struct ParamNode {
    pub is_variadic: bool,
    pub name: Option<String>,
    pub ty: Option<TypeNode>,
}

/// A function definition of the source: its name with the name's range, its
/// parameter list where there is one, and its return type node.
#[derive(Debug)]
pub struct FuncDefNode {
    pub name: Option<(String, TextRange)>,
    pub params: Option<Vec<ParamNode>>,
    pub ret_type: Option<TypeNode>,
}

/// A top-level item of a file.
#[derive(Debug)]
pub enum TopItem {
    FuncDef(FuncDefNode),
    StructDef(StructDefNode),
    Other,
}

/// A list of named entries with the names as character sequences.
pub open spec fn name_view<V>(entries: Seq<(String, V)>) -> Seq<(Seq<char>, V)> {
    entries.map_values(|e: (String, V)| (e.0@, e.1))
}

/// The value bound to `name`: the first binding.
pub open spec fn bound<V>(entries: Seq<(Seq<char>, V)>, name: Seq<char>) -> Option<V>
    decreases entries.len(),
{
    if entries.len() == 0 {
        None
    } else if entries[0].0 == name {
        Some(entries[0].1)
    } else {
        bound(entries.drop_first(), name)
    }
}

proof fn lemma_named_bound<V>(entries: Seq<(String, V)>, name: Seq<char>)
    ensures
        named(entries, name) == bound(name_view(entries), name),
    decreases entries.len(),
{
    if entries.len() > 0 {
        assert(name_view(entries).drop_first() =~= name_view(entries.drop_first()));
        lemma_named_bound(entries.drop_first(), name);
    }
}

/// A duplicate definition, as a mathematical value.
pub enum DefReport {
    FunctionDefined(Seq<char>, TextRange),
    StructDefined(Seq<char>, TextRange),
}

/// Whether the error `e` is the report `r`.
pub open spec fn reports_def(e: AnalyzeError, r: DefReport) -> bool {
    match r {
        DefReport::FunctionDefined(n, x) => e matches AnalyzeError::FunctionDefined { name, range } && name@ == n
            && range == x,
        DefReport::StructDefined(n, x) => e matches AnalyzeError::StructDefined { name, range } && name@ == n
            && range == x,
    }
}

/// The symbol tables of a file as mathematical values, with the duplicate
/// definitions found so far.
pub struct Symbols {
    pub functions: Seq<FunctionView>,
    pub function_map: Seq<(Seq<char>, FunctionID)>,
    pub structs: Seq<StructView>,
    pub struct_map: Seq<(Seq<char>, StructID)>,
    pub reports: Seq<DefReport>,
}

/// The symbol tables of `m`, with no reports.
pub open spec fn symbols_of(m: &Module) -> Symbols {
    Symbols {
        functions: m.functions@.map_values(|f: crate::module::Function| f@),
        function_map: name_view(m.function_map@),
        structs: m.structs@.map_values(|s: crate::module::Struct| s@),
        struct_map: name_view(m.struct_map@),
        reports: Seq::empty(),
    }
}

/// What declaring one top-level item does to the symbol tables of file `file`:
/// a new name gets a new function or struct, with nothing known of it yet;
/// a name already taken is reported.
pub open spec fn declare_item(s: Symbols, file: u32, item: TopItem) -> Symbols {
    match item {
        TopItem::FuncDef(f) => match f.name {
            Some((name, range)) => if bound(s.function_map, name@) is Some {
                Symbols { reports: s.reports.push(DefReport::FunctionDefined(name@, range)), ..s }
            } else {
                let id = FunctionID { module: file, index: s.functions.len() as u32 };
                Symbols {
                    functions: s.functions.push(
                        FunctionView {
                            name: name@,
                            params: Seq::empty(),
                            meta_types: Seq::empty(),
                            ret_type: TyView::Void,
                            have_impl: false,
                            is_variadic: false,
                            range,
                        },
                    ),
                    function_map: s.function_map.push((name@, id)),
                    ..s
                }
            },
            None => s,
        },
        TopItem::StructDef(d) => match d.name {
            Some((name, range)) => if bound(s.struct_map, name@) is Some {
                Symbols { reports: s.reports.push(DefReport::StructDefined(name@, range)), ..s }
            } else {
                let id = StructID { module: file, index: s.structs.len() as u32 };
                Symbols {
                    structs: s.structs.push(StructView { name: name@, fields: Seq::empty(), range }),
                    struct_map: s.struct_map.push((name@, id)),
                    ..s
                }
            },
            None => s,
        },
        TopItem::Other => s,
    }
}

/// Declaring the items `items` in order.
pub open spec fn declare_items(s: Symbols, file: u32, items: Seq<TopItem>) -> Symbols
    decreases items.len(),
{
    if items.len() == 0 {
        s
    } else {
        declare_item(declare_items(s, file, items.drop_last()), file, items.last())
    }
}

proof fn lemma_declare_items_grow(s: Symbols, file: u32, items: Seq<TopItem>)
    ensures
        declare_items(s, file, items).functions.len() <= s.functions.len() + items.len(),
        declare_items(s, file, items).structs.len() <= s.structs.len() + items.len(),
    decreases items.len(),
{
    if items.len() > 0 {
        lemma_declare_items_grow(s, file, items.drop_last());
    }
}

/// The name of the function that an item defines.
pub open spec fn declared_function(item: TopItem) -> Option<Seq<char>> {
    match item {
        TopItem::FuncDef(f) => match f.name {
            Some((n, _)) => Some(n@),
            None => None,
        },
        _ => None,
    }
}

/// The name of the struct that an item defines.
pub open spec fn declared_struct(item: TopItem) -> Option<Seq<char>> {
    match item {
        TopItem::StructDef(d) => match d.name {
            Some((n, _)) => Some(n@),
            None => None,
        },
        _ => None,
    }
}

/// Whether every name that the tables bind to one of the file's own functions
/// or structs names a function or struct of that name.
pub open spec fn tables_agree(s: Symbols, file: u32) -> bool {
    &&& forall|j: int|
        0 <= j < s.function_map.len() && (#[trigger] s.function_map[j]).1.module == file ==> s.function_map[j].1.index
            < s.functions.len() && s.functions[s.function_map[j].1.index as int].name == s.function_map[j].0
    &&& forall|j: int|
        0 <= j < s.struct_map.len() && (#[trigger] s.struct_map[j]).1.module == file ==> s.struct_map[j].1.index
            < s.structs.len() && s.structs[s.struct_map[j].1.index as int].name == s.struct_map[j].0
}

proof fn lemma_bound_push<V>(entries: Seq<(Seq<char>, V)>, e: (Seq<char>, V), name: Seq<char>)
    ensures
        bound(entries.push(e), name) == if bound(entries, name) is Some {
            bound(entries, name)
        } else if e.0 == name {
            Some(e.1)
        } else {
            None
        },
    decreases entries.len(),
{
    if entries.len() > 0 {
        assert(entries.push(e).drop_first() =~= entries.drop_first().push(e));
        assert(entries.push(e)[0] == entries[0]);
        lemma_bound_push(entries.drop_first(), e, name);
    } else {
        assert(entries.push(e).drop_first() =~= Seq::<(Seq<char>, V)>::empty());
        assert(entries.push(e)[0] == e);
        assert(bound(entries, name) is None);
        assert(bound(entries.push(e).drop_first(), name) is None);
    }
}

/// Declaring top-level items keeps the name tables in agreement with the
/// tables they index, never unbinds a name, and leaves every function and
/// struct name that an item declares bound.
pub proof fn lemma_declare_items_agree(s: Symbols, file: u32, items: Seq<TopItem>)
    requires
        tables_agree(s, file),
        s.functions.len() + items.len() < u32::MAX,
        s.structs.len() + items.len() < u32::MAX,
    ensures
        tables_agree(declare_items(s, file, items), file),
        forall|n: Seq<char>| bound(s.function_map, n) is Some ==> #[trigger] bound(declare_items(s, file, items).function_map, n) == bound(s.function_map, n),
        forall|n: Seq<char>| bound(s.struct_map, n) is Some ==> #[trigger] bound(declare_items(s, file, items).struct_map, n) == bound(s.struct_map, n),
        forall|i: int|
            0 <= i < items.len() && (#[trigger] declared_function(items[i])) is Some ==> bound(
                declare_items(s, file, items).function_map,
                declared_function(items[i])->0,
            ) is Some,
        forall|i: int|
            0 <= i < items.len() && (#[trigger] declared_struct(items[i])) is Some ==> bound(
                declare_items(s, file, items).struct_map,
                declared_struct(items[i])->0,
            ) is Some,
    decreases items.len(),
{
    if items.len() > 0 {
        let pre = items.drop_last();
        lemma_declare_items_agree(s, file, pre);
        lemma_declare_items_grow(s, file, pre);
        let a = declare_items(s, file, pre);
        let b = declare_item(a, file, items.last());
        match items.last() {
            TopItem::FuncDef(f) => match f.name {
                Some((name, range)) => if bound(a.function_map, name@) is None {
                    let id = FunctionID { module: file, index: a.functions.len() as u32 };
                    assert forall|n: Seq<char>| #[trigger] bound(b.function_map, n) == (if bound(a.function_map, n) is Some {
                        bound(a.function_map, n)
                    } else if name@ == n {
                        Some(id)
                    } else {
                        None
                    }) by {
                        lemma_bound_push(a.function_map, (name@, id), n);
                    }
                },
                None => {},
            },
            TopItem::StructDef(d) => match d.name {
                Some((name, range)) => if bound(a.struct_map, name@) is None {
                    let id = StructID { module: file, index: a.structs.len() as u32 };
                    assert forall|n: Seq<char>| #[trigger] bound(b.struct_map, n) == (if bound(a.struct_map, n) is Some {
                        bound(a.struct_map, n)
                    } else if name@ == n {
                        Some(id)
                    } else {
                        None
                    }) by {
                        lemma_bound_push(a.struct_map, (name@, id), n);
                    }
                },
                None => {},
            },
            TopItem::Other => {},
        }
        assert forall|i: int|
            0 <= i < items.len() && (#[trigger] declared_function(items[i])) is Some implies bound(
                b.function_map,
                declared_function(items[i])->0,
            ) is Some by {
            if i < items.len() - 1 {
                assert(pre[i] == items[i]);
            }
        }
        assert forall|i: int|
            0 <= i < items.len() && (#[trigger] declared_struct(items[i])) is Some implies bound(
                b.struct_map,
                declared_struct(items[i])->0,
            ) is Some by {
            if i < items.len() - 1 {
                assert(pre[i] == items[i]);
            }
        }
    }
}

/// Whether the errors `after` are `before` followed by the reports `rs`.
pub open spec fn reported(before: Seq<AnalyzeError>, after: Seq<AnalyzeError>, rs: Seq<DefReport>) -> bool {
    &&& after.len() == before.len() + rs.len()
    &&& after.take(before.len() as int) == before
    &&& forall|i: int| 0 <= i < rs.len() ==> reports_def(#[trigger] after[before.len() + i], rs[i])
}

impl Project {
    /// Gives each function and struct that the file defines at the top level
    /// its id, before anything else about it is known; a name defined twice
    /// is reported at its second definition.
    pub fn allocate_module_symbols(module: &mut Module, items: &Vec<TopItem>)
        requires
            old(module).functions.len() + items.len() < u32::MAX,
            old(module).structs.len() + items.len() < u32::MAX,
        ensures
            ({
                let a = declare_items(symbols_of(old(module)), old(module).file_id, items@);
                &&& symbols_of(final(module)).functions == a.functions
                &&& symbols_of(final(module)).function_map == a.function_map
                &&& symbols_of(final(module)).structs == a.structs
                &&& symbols_of(final(module)).struct_map == a.struct_map
                &&& reported(old(module).semantic_errors@, final(module).semantic_errors@, a.reports)
            }),
            final(module).file_id == old(module).file_id,
            final(module).fields == old(module).fields,
            final(module).metadata == old(module).metadata,
    {
        let ghost start = symbols_of(module);
        let ghost errs = module.semantic_errors@;
        let mut k: usize = 0;
        proof {
            assert(errs.take(errs.len() as int) =~= errs);
        }
        while k < items.len()
            invariant
                k <= items.len(),
                start == symbols_of(old(module)),
                errs == old(module).semantic_errors@,
                module.file_id == old(module).file_id,
                module.fields == old(module).fields,
                module.metadata == old(module).metadata,
                old(module).functions.len() + items.len() < u32::MAX,
                old(module).structs.len() + items.len() < u32::MAX,
                ({
                    let a = declare_items(start, module.file_id, items@.take(k as int));
                    &&& symbols_of(module).functions == a.functions
                    &&& symbols_of(module).function_map == a.function_map
                    &&& symbols_of(module).structs == a.structs
                    &&& symbols_of(module).struct_map == a.struct_map
                    &&& reported(errs, module.semantic_errors@, a.reports)
                }),
            decreases items.len() - k,
        {
            let ghost before = declare_items(start, module.file_id, items@.take(k as int));
            proof {
                assert(items@.take(k + 1).drop_last() =~= items@.take(k as int));
                lemma_declare_items_grow(start, module.file_id, items@.take(k as int));
            }
            match &items[k] {
                TopItem::FuncDef(f) => {
                    if let Some((name, range)) = &f.name {
                        proof {
                            lemma_named_bound(module.function_map@, name@);
                        }
                        if module.get_function_id_by_name(name.as_str()).is_some() {
                            module.semantic_errors.push(AnalyzeError::FunctionDefined { name: name.clone(), range: *range });
                            proof {
                                assert(module.semantic_errors@.take(errs.len() as int) =~= errs);
                            }
                        } else {
                            let id = module.new_function(
                                name.clone(),
                                Vec::new(),
                                Vec::new(),
                                crate::types::Ty::Void,
                                false,
                                false,
                                *range,
                            );
                            module.function_map.push((name.clone(), id));
                            proof {
                                assert(symbols_of(module).functions =~= before.functions.push(
                                    module.functions@.last()@,
                                ));
                                assert(module.functions@.last()@.meta_types =~= Seq::<(Seq<char>, TyView)>::empty());
                                assert(symbols_of(module).function_map =~= before.function_map.push((name@, id)));
                            }
                        }
                    }
                },
                TopItem::StructDef(d) => {
                    if let Some((name, range)) = &d.name {
                        proof {
                            lemma_named_bound(module.struct_map@, name@);
                        }
                        if module.get_struct_id_by_name(name.as_str()).is_some() {
                            module.semantic_errors.push(AnalyzeError::StructDefined { name: name.clone(), range: *range });
                            proof {
                                assert(module.semantic_errors@.take(errs.len() as int) =~= errs);
                            }
                        } else {
                            let id = module.new_struct(name.clone(), Vec::new(), *range);
                            module.struct_map.push((name.clone(), id));
                            proof {
                                assert(symbols_of(module).structs =~= before.structs.push(module.structs@.last()@));
                                assert(symbols_of(module).struct_map =~= before.struct_map.push((name@, id)));
                            }
                        }
                    }
                },
                TopItem::Other => {},
            }
            k += 1;
        }
        proof {
            assert(items@.take(items.len() as int) =~= items@);
        }
    }
}


// ---------------------------------------------------------------------------
// Filling in the definitions
// ---------------------------------------------------------------------------

/// The definition tables of a file as mathematical values.
pub struct Defs {
    pub fields: Seq<FieldView>,
    pub structs: Seq<StructView>,
    pub functions: Seq<FunctionView>,
}

/// The definition tables of `m`.
pub open spec fn defs_of(m: &Module) -> Defs {
    Defs {
        fields: m.fields@.map_values(|f: Field| f@),
        structs: m.structs@.map_values(|s: Struct| s@),
        functions: m.functions@.map_values(|f: Function| f@),
    }
}

/// Whether the errors `after` are `before` followed by the issues `is`.
pub open spec fn issues_reported(before: Seq<AnalyzeError>, after: Seq<AnalyzeError>, is: Seq<TypeIssue>) -> bool {
    &&& after.len() == before.len() + is.len()
    &&& after.take(before.len() as int) == before
    &&& forall|i: int| 0 <= i < is.len() ==> is_issue(#[trigger] after[before.len() + i], is[i])
}

proof fn lemma_issues_chain(a: Seq<AnalyzeError>, b: Seq<AnalyzeError>, c: Seq<AnalyzeError>, x: Seq<TypeIssue>, y: Seq<TypeIssue>)
    requires
        issues_reported(a, b, x),
        issues_reported(b, c, y),
    ensures
        issues_reported(a, c, x + y),
{
    assert(c.take(a.len() as int) =~= b.take(a.len() as int));
    assert forall|i: int| 0 <= i < (x + y).len() implies is_issue(#[trigger] c[a.len() + i], (x + y)[i]) by {
        if i < x.len() {
            assert(c[a.len() + i] == c.take(b.len() as int)[a.len() + i]);
        } else {
            assert(c[b.len() + (i - x.len())] == c[a.len() + i]);
        }
    }
}

/// The type of a type node read with no table of constants.
pub open spec fn decl_type(m: &Module, n: TypeNode) -> Result<Option<TyView>, TypeIssue> {
    node_type(*m, n, None)
}

/// What one field of a struct definition adds: a field when its type reads,
/// an issue when it does not.
pub open spec fn field_step(d: Defs, m: &Module, f: FieldNode) -> (Defs, Seq<FieldID>, Seq<TypeIssue>) {
    match (f.name, f.ty) {
        (Some((n, _)), Some(t)) => match decl_type(m, t) {
            Ok(Some(ty)) => (
                Defs { fields: d.fields.push(FieldView { name: n@, ty, range: f.range }), ..d },
                seq![FieldID { module: m.file_id, index: d.fields.len() as u32 }],
                Seq::empty(),
            ),
            Ok(None) => (d, Seq::empty(), Seq::empty()),
            Err(i) => (d, Seq::empty(), seq![i]),
        },
        _ => (d, Seq::empty(), Seq::empty()),
    }
}

/// The fields `fs` added in order: the tables after, the new field ids, the issues.
pub open spec fn fields_fold(d: Defs, m: &Module, fs: Seq<FieldNode>) -> (Defs, Seq<FieldID>, Seq<TypeIssue>)
    decreases fs.len(),
{
    if fs.len() == 0 {
        (d, Seq::empty(), Seq::empty())
    } else {
        let (d1, ids1, is1) = fields_fold(d, m, fs.drop_last());
        let (d2, ids2, is2) = field_step(d1, m, fs.last());
        (d2, ids1 + ids2, is1 + is2)
    }
}

/// Whether `id` is a struct of this file's table.
pub open spec fn local_struct(d: Defs, m: &Module, id: StructID) -> bool {
    id.module == m.file_id && id.index < d.structs.len()
}

/// What a top-level item does to the structs: a struct definition whose name
/// is bound gets its fields.
pub open spec fn struct_step(d: Defs, m: &Module, item: TopItem) -> (Defs, Seq<TypeIssue>) {
    match item {
        TopItem::StructDef(sd) => match sd.name {
            Some((n, _)) => match bound(name_view(m.struct_map@), n@) {
                Some(id) => {
                    let (d1, ids, is) = fields_fold(d, m, sd.fields@);
                    if local_struct(d1, m, id) {
                        let old_s = d1.structs[id.index as int];
                        (
                            Defs {
                                structs: d1.structs.update(
                                    id.index as int,
                                    StructView { fields: ids, ..old_s },
                                ),
                                ..d1
                            },
                            is,
                        )
                    } else {
                        (d1, is)
                    }
                },
                None => (d, Seq::empty()),
            },
            None => (d, Seq::empty()),
        },
        _ => (d, Seq::empty()),
    }
}

pub open spec fn structs_fold(d: Defs, m: &Module, items: Seq<TopItem>) -> (Defs, Seq<TypeIssue>)
    decreases items.len(),
{
    if items.len() == 0 {
        (d, Seq::empty())
    } else {
        let (d1, is1) = structs_fold(d, m, items.drop_last());
        let (d2, is2) = struct_step(d1, m, items.last());
        (d2, is1 + is2)
    }
}

/// What one parameter gives: its type when it reads, an issue when it does not.
pub open spec fn param_step(m: &Module, p: ParamNode) -> (Seq<(Seq<char>, TyView)>, Seq<TypeIssue>) {
    match (p.name, p.ty) {
        (Some(n), Some(t)) => match decl_type(m, t) {
            Ok(Some(ty)) => (seq![(n@, ty)], Seq::empty()),
            Ok(None) => (Seq::empty(), Seq::empty()),
            Err(i) => (Seq::empty(), seq![i]),
        },
        _ => (Seq::empty(), Seq::empty()),
    }
}

/// The parameter types up to a `...`, whether there is one, and the issues.
pub open spec fn params_scan(m: &Module, ps: Seq<ParamNode>) -> (Seq<(Seq<char>, TyView)>, bool, Seq<TypeIssue>)
    decreases ps.len(),
{
    if ps.len() == 0 {
        (Seq::empty(), false, Seq::empty())
    } else if ps[0].is_variadic {
        (Seq::empty(), true, Seq::empty())
    } else {
        let (t1, i1) = param_step(m, ps[0]);
        let (t2, v, i2) = params_scan(m, ps.drop_first());
        (t1 + t2, v, i1 + i2)
    }
}

/// `d` with the signature of the function `id` set, if it is one of this file's.
pub open spec fn set_signature(
    d: Defs,
    m: &Module,
    id: FunctionID,
    ts: Seq<(Seq<char>, TyView)>,
    ret: TyView,
    variadic: bool,
) -> Defs {
    if id.module == m.file_id && id.index < d.functions.len() {
        let f = d.functions[id.index as int];
        Defs {
            functions: d.functions.update(
                id.index as int,
                FunctionView { meta_types: ts, ret_type: ret, is_variadic: variadic, ..f },
            ),
            ..d
        }
    } else {
        d
    }
}

/// What a top-level item does to the functions: a function definition whose
/// name is bound gets its parameter types, return type and variadic flag. A
/// return type node that is incomplete leaves the function as it was; one
/// that is wrong makes the return type `void`.
pub open spec fn func_step(d: Defs, m: &Module, item: TopItem) -> (Defs, Seq<TypeIssue>) {
    match item {
        TopItem::FuncDef(f) => match f.name {
            Some((n, _)) => match bound(name_view(m.function_map@), n@) {
                Some(id) => {
                    let (ts, variadic, is) = match f.params {
                        Some(ps) => params_scan(m, ps@),
                        None => (Seq::empty(), false, Seq::empty()),
                    };
                    match f.ret_type {
                        Some(rt) => match decl_type(m, rt) {
                            Ok(Some(t)) => (set_signature(d, m, id, ts, t, variadic), is),
                            Ok(None) => (d, is),
                            Err(i) => (set_signature(d, m, id, ts, TyView::Void, variadic), is.push(i)),
                        },
                        None => (set_signature(d, m, id, ts, TyView::Void, variadic), is),
                    }
                },
                None => (d, Seq::empty()),
            },
            None => (d, Seq::empty()),
        },
        _ => (d, Seq::empty()),
    }
}

pub open spec fn funcs_fold(d: Defs, m: &Module, items: Seq<TopItem>) -> (Defs, Seq<TypeIssue>)
    decreases items.len(),
{
    if items.len() == 0 {
        (d, Seq::empty())
    } else {
        let (d1, is1) = funcs_fold(d, m, items.drop_last());
        let (d2, is2) = func_step(d1, m, items.last());
        (d2, is1 + is2)
    }
}

/// The definition tables after the structs, then the functions, of `items`
/// are filled in, and the issues found on the way.
pub open spec fn filled(m: &Module, items: Seq<TopItem>) -> (Defs, Seq<TypeIssue>) {
    let (d1, is1) = structs_fold(defs_of(m), m, items);
    let (d2, is2) = funcs_fold(d1, m, items);
    (d2, is1 + is2)
}

/// The number of fields that the struct definitions of `items` have.
pub open spec fn field_count(items: Seq<TopItem>) -> nat
    decreases items.len(),
{
    if items.len() == 0 {
        0
    } else {
        field_count(items.drop_last()) + match items.last() {
            TopItem::StructDef(sd) => sd.fields@.len(),
            _ => 0,
        }
    }
}



/// Whether two states of a module have the same name tables and file.
pub open spec fn same_names(a: &Module, b: &Module) -> bool {
    &&& a.file_id == b.file_id
    &&& a.struct_map == b.struct_map
    &&& a.function_map == b.function_map
    &&& a.metadata == b.metadata
}

impl Module {
    /// Reads the type node of a declaration, with no table of constants.
    fn decl_type_of(&self, node: &TypeNode, Ghost(m0): Ghost<Module>) -> (r: Result<Option<Ty>, AnalyzeError>)
        requires
            self.struct_map == m0.struct_map,
        ensures
            reads_as(r, decl_type(&m0, *node)),
    {
        proof {
            lemma_node_type_frame(*self, m0, *node);
        }
        parse_type_node(self, node, None)
    }

    /// Adds the fields `fs` that read, reports those that do not, and gives the ids of the new fields.
    fn fill_fields(&mut self, fs: &Vec<FieldNode>, Ghost(m0): Ghost<Module>) -> (ids: Vec<FieldID>)
        requires
            same_names(old(self), &m0),
            old(self).fields.len() + fs.len() < u32::MAX,
        ensures
            ({
                let (d, ids2, is) = fields_fold(defs_of(old(self)), &m0, fs@);
                &&& defs_of(final(self)) == d
                &&& ids@ == ids2
                &&& issues_reported(old(self).semantic_errors@, final(self).semantic_errors@, is)
            }),
            same_names(final(self), &m0),
            final(self).fields.len() <= old(self).fields.len() + fs.len(),
    {
        let ghost d0 = defs_of(self);
        let ghost e0 = self.semantic_errors@;
        let mut ids: Vec<FieldID> = Vec::new();
        let mut k: usize = 0;
        assert(e0.take(e0.len() as int) =~= e0);
        while k < fs.len()
            invariant
                k <= fs.len(),
                d0 == defs_of(old(self)),
                e0 == old(self).semantic_errors@,
                same_names(self, &m0),
                self.fields.len() <= old(self).fields.len() + k,
                old(self).fields.len() + fs.len() < u32::MAX,
                ({
                    let (d, ids2, is) = fields_fold(d0, &m0, fs@.take(k as int));
                    &&& defs_of(self) == d
                    &&& ids@ == ids2
                    &&& issues_reported(e0, self.semantic_errors@, is)
                }),
            decreases fs.len() - k,
        {
            proof {
                assert(fs@.take(k + 1).drop_last() =~= fs@.take(k as int));
            }
            let ghost e1 = self.semantic_errors@;
            let ghost prev = fields_fold(d0, &m0, fs@.take(k as int));
            let f = &fs[k];
            match (&f.name, &f.ty) {
                (Some((n, _)), Some(t)) => match self.decl_type_of(t, Ghost(m0)) {
                    Ok(Some(ty)) => {
                        let id = self.new_field(n.clone(), ty, f.range);
                        ids.push(id);
                        proof {
                            assert(defs_of(self).fields =~= prev.0.fields.push(self.fields@.last()@));
                            assert(defs_of(self).structs =~= prev.0.structs);
                            assert(defs_of(self).functions =~= prev.0.functions);
                            assert(prev.2 + Seq::<TypeIssue>::empty() =~= prev.2);
                        }
                    },
                    Ok(None) => {
                        proof {
                            assert(prev.1 + Seq::<FieldID>::empty() =~= prev.1);
                            assert(prev.2 + Seq::<TypeIssue>::empty() =~= prev.2);
                        }
                    },
                    Err(e) => {
                        self.semantic_errors.push(e);
                        proof {
                            assert(prev.1 + Seq::<FieldID>::empty() =~= prev.1);
                            assert(self.semantic_errors@.take(e1.len() as int) =~= e1);
                            lemma_issues_chain(e0, e1, self.semantic_errors@, prev.2, fields_fold(d0, &m0, fs@.take(k + 1)).2.skip(prev.2.len() as int));
                            assert(prev.2 + fields_fold(d0, &m0, fs@.take(k + 1)).2.skip(prev.2.len() as int) =~= fields_fold(d0, &m0, fs@.take(k + 1)).2);
                        }
                    },
                },
                _ => {
                    proof {
                        assert(prev.1 + Seq::<FieldID>::empty() =~= prev.1);
                        assert(prev.2 + Seq::<TypeIssue>::empty() =~= prev.2);
                    }
                },
            }
            k += 1;
        }
        proof {
            assert(fs@.take(fs.len() as int) =~= fs@);
        }
        ids
    }

    /// Fills in the fields of a struct definition.
    fn fill_struct_item(&mut self, item: &TopItem, Ghost(m0): Ghost<Module>)
        requires
            same_names(old(self), &m0),
            old(self).fields.len() + field_count(seq![*item]) < u32::MAX,
        ensures
            ({
                let (d, is) = struct_step(defs_of(old(self)), &m0, *item);
                &&& defs_of(final(self)) == d
                &&& issues_reported(old(self).semantic_errors@, final(self).semantic_errors@, is)
            }),
            same_names(final(self), &m0),
            final(self).fields.len() <= old(self).fields.len() + field_count(seq![*item]),
    {
        let ghost e0 = self.semantic_errors@;
        assert(e0.take(e0.len() as int) =~= e0);
        assert(seq![*item].drop_last() =~= Seq::<TopItem>::empty());
        if let TopItem::StructDef(sd) = item {
            if let Some((n, _)) = &sd.name {
                proof {
                    lemma_named_bound(self.struct_map@, n@);
                }
                if let Some(id) = self.get_struct_id_by_name(n.as_str()) {
                    let ids = self.fill_fields(&sd.fields, Ghost(m0));
                    if id.module == self.file_id && (id.index as usize) < self.structs.len() {
                        let i = id.index as usize;
                        let old_s = &self.structs[i];
                        let ns = Struct { name: old_s.name.clone(), fields: ids, range: old_s.range };
                        let ghost before = defs_of(self);
                        self.structs.set(i, ns);
                        proof {
                            assert(defs_of(self).structs =~= before.structs.update(
                                i as int,
                                StructView { fields: ns.fields@, ..before.structs[i as int] },
                            ));
                        }
                    }
                }
            }
        }
    }

    /// Reads the parameter types up to a `...`, reporting those that do not read.
    fn scan_params(&mut self, ps: &Vec<ParamNode>, Ghost(m0): Ghost<Module>) -> (r: (Vec<(String, Ty)>, bool))
        requires
            same_names(old(self), &m0),
        ensures
            ({
                let (ts, v, is) = params_scan(&m0, ps@);
                &&& metas_view(r.0@) == ts
                &&& r.1 == v
                &&& issues_reported(old(self).semantic_errors@, final(self).semantic_errors@, is)
            }),
            same_names(final(self), &m0),
            defs_of(final(self)) == defs_of(old(self)),
            final(self).fields.len() == old(self).fields.len(),
    {
        let ghost e0 = self.semantic_errors@;
        let ghost mut acc_is: Seq<TypeIssue> = Seq::empty();
        let mut ts: Vec<(String, Ty)> = Vec::new();
        let mut k: usize = 0;
        assert(e0.take(e0.len() as int) =~= e0);
        assert(ps@.skip(0) =~= ps@);
        while k < ps.len()
            invariant
                k <= ps.len(),
                e0 == old(self).semantic_errors@,
                same_names(self, &m0),
                defs_of(self) == defs_of(old(self)),
                self.fields.len() == old(self).fields.len(),
                issues_reported(e0, self.semantic_errors@, acc_is),
                ({
                    let full = params_scan(&m0, ps@);
                    let rest = params_scan(&m0, ps@.skip(k as int));
                    &&& full.0 == metas_view(ts@) + rest.0
                    &&& full.1 == rest.1
                    &&& full.2 == acc_is + rest.2
                }),
            decreases ps.len() - k,
        {
            let ghost rest = ps@.skip(k as int);
            proof {
                assert(rest.drop_first() =~= ps@.skip(k + 1));
                assert(rest[0] == ps@[k as int]);
            }
            let p = &ps[k];
            if p.is_variadic {
                proof {
                    assert(params_scan(&m0, ps@).2 =~= acc_is);
                    assert(params_scan(&m0, ps@).0 =~= metas_view(ts@));
                }
                return (ts, true);
            }
            let ghost e1 = self.semantic_errors@;
            match (&p.name, &p.ty) {
                (Some(pn), Some(t)) => match self.decl_type_of(t, Ghost(m0)) {
                    Ok(Some(ty)) => {
                        let ghost tv = metas_view(ts@);
                        ts.push((pn.clone(), ty));
                        proof {
                            assert(metas_view(ts@) =~= tv + seq![(pn@, ts@.last().1@)]);
                            assert(acc_is + Seq::<TypeIssue>::empty() =~= acc_is);
                        }
                    },
                    Ok(None) => {
                        proof {
                            assert(Seq::<(Seq<char>, TyView)>::empty() + params_scan(&m0, ps@.skip(k + 1)).0 =~= params_scan(&m0, ps@.skip(k + 1)).0);
                        }
                    },
                    Err(e) => {
                        self.semantic_errors.push(e);
                        proof {
                            assert(self.semantic_errors@.take(e1.len() as int) =~= e1);
                            lemma_issues_chain(e0, e1, self.semantic_errors@, acc_is, seq![params_scan(&m0, rest).2[0]]);
                            acc_is = acc_is + seq![params_scan(&m0, rest).2[0]];
                            assert(Seq::<(Seq<char>, TyView)>::empty() + params_scan(&m0, ps@.skip(k + 1)).0 =~= params_scan(&m0, ps@.skip(k + 1)).0);
                        }
                    },
                },
                _ => {
                    proof {
                        assert(Seq::<(Seq<char>, TyView)>::empty() + params_scan(&m0, ps@.skip(k + 1)).0 =~= params_scan(&m0, ps@.skip(k + 1)).0);
                        assert(Seq::<TypeIssue>::empty() + params_scan(&m0, ps@.skip(k + 1)).2 =~= params_scan(&m0, ps@.skip(k + 1)).2);
                    }
                },
            }
            k += 1;
        }
        proof {
            assert(params_scan(&m0, ps@).2 =~= acc_is);
            assert(params_scan(&m0, ps@).0 =~= metas_view(ts@));
        }
        (ts, false)
    }

    /// Sets the signature of the function `id`, if it is one of this file's.
    fn set_signature_exec(
        &mut self,
        id: FunctionID,
        ts: Vec<(String, Ty)>,
        ret: Ty,
        variadic: bool,
        Ghost(m0): Ghost<Module>,
    )
        requires
            same_names(old(self), &m0),
        ensures
            defs_of(final(self)) == set_signature(defs_of(old(self)), &m0, id, metas_view(ts@), ret@, variadic),
            same_names(final(self), &m0),
            final(self).fields.len() == old(self).fields.len(),
            final(self).semantic_errors == old(self).semantic_errors,
    {
        if id.module == self.file_id && (id.index as usize) < self.functions.len() {
            let i = id.index as usize;
            let f = &self.functions[i];
            let nf = Function {
                name: f.name.clone(),
                params: f.params.clone(),
                meta_types: ts,
                ret_type: ret,
                have_impl: f.have_impl,
                is_variadic: variadic,
                range: f.range,
            };
            let ghost before = defs_of(self);
            self.functions.set(i, nf);
            proof {

                assert(defs_of(self).functions =~= before.functions.update(
                    i as int,
                    FunctionView {
                        meta_types: metas_view(nf.meta_types@),
                        ret_type: nf.ret_type@,
                        is_variadic: variadic,
                        ..before.functions[i as int]
                    },
                ));
            }
        }
    }

    /// Fills in the signature of a function definition.
    fn fill_func_item(&mut self, item: &TopItem, Ghost(m0): Ghost<Module>)
        requires
            same_names(old(self), &m0),
        ensures
            ({
                let (d, is) = func_step(defs_of(old(self)), &m0, *item);
                &&& defs_of(final(self)) == d
                &&& issues_reported(old(self).semantic_errors@, final(self).semantic_errors@, is)
            }),
            same_names(final(self), &m0),
            final(self).fields.len() == old(self).fields.len(),
    {
        let ghost e0 = self.semantic_errors@;
        assert(e0.take(e0.len() as int) =~= e0);
        if let TopItem::FuncDef(f) = item {
            if let Some((n, _)) = &f.name {
                proof {
                    lemma_named_bound(self.function_map@, n@);
                }
                if let Some(id) = self.get_function_id_by_name(n.as_str()) {
                    let (ts, variadic) = match &f.params {
                        Some(ps) => self.scan_params(ps, Ghost(m0)),
                        None => (Vec::new(), false),
                    };
                    proof {
                        assert(metas_view(Seq::<(String, Ty)>::empty()) =~= Seq::<(Seq<char>, TyView)>::empty());
                    }
                    let ghost e1 = self.semantic_errors@;
                    let ghost is1 = match &f.params {
                        Some(ps) => params_scan(&m0, ps@).2,
                        None => Seq::<TypeIssue>::empty(),
                    };
                    match &f.ret_type {
                        Some(rt) => match self.decl_type_of(rt, Ghost(m0)) {
                            Ok(Some(t)) => {
                                self.set_signature_exec(id, ts, t, variadic, Ghost(m0));
                            },
                            Ok(None) => {},
                            Err(e) => {
                                self.semantic_errors.push(e);
                                proof {
                                    assert(self.semantic_errors@.take(e1.len() as int) =~= e1);
                                    let i = decl_type(&m0, *rt)->Err_0;
                                    lemma_issues_chain(e0, e1, self.semantic_errors@, is1, seq![i]);
                                    assert(is1 + seq![i] =~= is1.push(i));
                                }
                                self.set_signature_exec(id, ts, Ty::Void, variadic, Ghost(m0));
                            },
                        },
                        None => {
                            self.set_signature_exec(id, ts, Ty::Void, variadic, Ghost(m0));
                        },
                    }
                }
            }
        }
    }
}

impl Project {
    /// Fills in what the file's top-level definitions declare: the fields of
    /// each struct, then the parameter types, return type and variadic flag
    /// of each function, for the definitions whose names are bound. Types are
    /// read without a table of constants; each type that does not read is
    /// reported.
    pub fn fill_definitions(module: &mut Module, items: &Vec<TopItem>)
        requires
            old(module).fields.len() + field_count(items@) < u32::MAX,
        ensures
            defs_of(final(module)) == filled(old(module), items@).0,
            issues_reported(old(module).semantic_errors@, final(module).semantic_errors@, filled(old(module), items@).1),
            same_names(final(module), old(module)),
    {
        let ghost m0 = *module;
        let ghost d0 = defs_of(module);
        let ghost e0 = module.semantic_errors@;
        assert(e0.take(e0.len() as int) =~= e0);
        assert(items@.skip(0) =~= items@);
        let mut k: usize = 0;
        while k < items.len()
            invariant
                k <= items.len(),
                m0 == *old(module),
                d0 == defs_of(old(module)),
                e0 == old(module).semantic_errors@,
                same_names(module, &m0),
                module.fields.len() + field_count(items@.skip(k as int)) <= m0.fields.len() + field_count(items@),
                m0.fields.len() + field_count(items@) < u32::MAX,
                ({
                    let (d, is) = structs_fold(d0, &m0, items@.take(k as int));
                    &&& defs_of(module) == d
                    &&& issues_reported(e0, module.semantic_errors@, is)
                }),
            decreases items.len() - k,
        {
            proof {
                assert(items@.take(k + 1).drop_last() =~= items@.take(k as int));
                lemma_field_count_split(items@.skip(k as int));
                assert(items@.skip(k as int).drop_first() =~= items@.skip(k + 1));
            }
            let ghost e1 = module.semantic_errors@;
            let ghost prev = structs_fold(d0, &m0, items@.take(k as int));
            module.fill_struct_item(&items[k], Ghost(m0));
            proof {
                lemma_issues_chain(e0, e1, module.semantic_errors@, prev.1, struct_step(prev.0, &m0, items@[k as int]).1);
            }
            k += 1;
        }
        proof {
            assert(items@.take(items.len() as int) =~= items@);
        }
        let ghost d1 = defs_of(module);
        let ghost is_structs = structs_fold(d0, &m0, items@).1;
        let ghost e_mid = module.semantic_errors@;
        let mut k: usize = 0;
        assert(e_mid.take(e_mid.len() as int) =~= e_mid);
        while k < items.len()
            invariant
                k <= items.len(),
                m0 == *old(module),
                e0 == old(module).semantic_errors@,
                d1 == structs_fold(d0, &m0, items@).0,
                d0 == defs_of(old(module)),
                issues_reported(e0, e_mid, is_structs),
                is_structs == structs_fold(d0, &m0, items@).1,
                same_names(module, &m0),
                ({
                    let (d, is) = funcs_fold(d1, &m0, items@.take(k as int));
                    &&& defs_of(module) == d
                    &&& issues_reported(e_mid, module.semantic_errors@, is)
                }),
            decreases items.len() - k,
        {
            proof {
                assert(items@.take(k + 1).drop_last() =~= items@.take(k as int));
            }
            let ghost e1 = module.semantic_errors@;
            let ghost prev = funcs_fold(d1, &m0, items@.take(k as int));
            module.fill_func_item(&items[k], Ghost(m0));
            proof {
                lemma_issues_chain(e_mid, e1, module.semantic_errors@, prev.1, func_step(prev.0, &m0, items@[k as int]).1);
            }
            k += 1;
        }
        proof {
            assert(items@.take(items.len() as int) =~= items@);
            lemma_issues_chain(e0, e_mid, module.semantic_errors@, is_structs, funcs_fold(d1, &m0, items@).1);
        }
    }
}

proof fn lemma_field_count_split(items: Seq<TopItem>)
    requires
        items.len() > 0,
    ensures
        field_count(items) == field_count(seq![items[0]]) + field_count(items.drop_first()),
    decreases items.len(),
{
    assert(seq![items[0]].drop_last() =~= Seq::<TopItem>::empty());
    if items.len() > 1 {
        lemma_field_count_split(items.drop_last());
        assert(items.drop_last().drop_first() =~= items.drop_first().drop_last());
        assert(items.drop_last()[0] == items[0]);
    } else {
        assert(items.drop_first() =~= Seq::<TopItem>::empty());
        assert(items =~= seq![items[0]]);
    }
}


// ---------------------------------------------------------------------------
// The index of citations across files
// ---------------------------------------------------------------------------

/// A citation of a declaration: the file it is in and its range.
#[derive(Debug, Clone, Copy, PartialEq, Eq, Structural)]
pub struct CiterInfo {
    pub file_id: u32,
    pub range: TextRange,
}

/// The citations of the declarations of one file, by declaration.
#[derive(Debug)]
pub struct FileIndex {
    pub variable_reference: Vec<(VariableID, Vec<CiterInfo>)>,
    pub field_reference: Vec<(FieldID, Vec<CiterInfo>)>,
    pub function_reference: Vec<(FunctionID, Vec<CiterInfo>)>,
}

/// The citations of variable `k` of file `t` among the references `refs` of file `file`.
pub open spec fn var_cites(file: u32, refs: Seq<Reference>, t: u32, k: VariableID) -> Seq<CiterInfo>
    decreases refs.len(),
{
    if refs.len() == 0 {
        Seq::empty()
    } else {
        let rest = var_cites(file, refs.drop_last(), t, k);
        if file == t && refs.last().tag == ReferenceTag::VarRead(k) {
            rest.push(CiterInfo { file_id: file, range: refs.last().range })
        } else {
            rest
        }
    }
}

/// The citations of field `k` (of file `k.module`) among the references `refs` of file `file`.
pub open spec fn field_cites(file: u32, refs: Seq<Reference>, k: FieldID) -> Seq<CiterInfo>
    decreases refs.len(),
{
    if refs.len() == 0 {
        Seq::empty()
    } else {
        let rest = field_cites(file, refs.drop_last(), k);
        if refs.last().tag == ReferenceTag::FieldRead(k) {
            rest.push(CiterInfo { file_id: file, range: refs.last().range })
        } else {
            rest
        }
    }
}

/// The citations of function `k` (of file `k.module`) among the references `refs` of file `file`.
pub open spec fn function_cites(file: u32, refs: Seq<Reference>, k: FunctionID) -> Seq<CiterInfo>
    decreases refs.len(),
{
    if refs.len() == 0 {
        Seq::empty()
    } else {
        let rest = function_cites(file, refs.drop_last(), k);
        if refs.last().tag == ReferenceTag::FuncCall(k) {
            rest.push(CiterInfo { file_id: file, range: refs.last().range })
        } else {
            rest
        }
    }
}

/// The citations of variable `k` of file `t` in the files `ms`, file by file.
pub open spec fn all_var_cites(ms: Seq<Module>, t: u32, k: VariableID) -> Seq<CiterInfo>
    decreases ms.len(),
{
    if ms.len() == 0 {
        Seq::empty()
    } else {
        all_var_cites(ms.drop_last(), t, k) + var_cites(ms.last().file_id, ms.last().reference@, t, k)
    }
}

/// The citations of field `k` in the files `ms`, file by file.
pub open spec fn all_field_cites(ms: Seq<Module>, k: FieldID) -> Seq<CiterInfo>
    decreases ms.len(),
{
    if ms.len() == 0 {
        Seq::empty()
    } else {
        all_field_cites(ms.drop_last(), k) + field_cites(ms.last().file_id, ms.last().reference@, k)
    }
}

/// The citations of function `k` in the files `ms`, file by file.
pub open spec fn all_function_cites(ms: Seq<Module>, k: FunctionID) -> Seq<CiterInfo>
    decreases ms.len(),
{
    if ms.len() == 0 {
        Seq::empty()
    } else {
        all_function_cites(ms.drop_last(), k) + function_cites(ms.last().file_id, ms.last().reference@, k)
    }
}

/// The index of file `t`: its first entry.
pub open spec fn index_for(entries: Seq<(u32, FileIndex)>, t: u32) -> Option<FileIndex>
    decreases entries.len(),
{
    if entries.len() == 0 {
        None
    } else if entries[0].0 == t {
        Some(entries[0].1)
    } else {
        index_for(entries.drop_first(), t)
    }
}

/// The citations listed for variable `k` of file `t`.
pub open spec fn listed_var(entries: Seq<(u32, FileIndex)>, t: u32, k: VariableID) -> Seq<CiterInfo> {
    match index_for(entries, t) {
        Some(fi) => listed(fi.variable_reference@, k),
        None => Seq::empty(),
    }
}

/// The citations listed for field `k`.
pub open spec fn listed_field(entries: Seq<(u32, FileIndex)>, k: FieldID) -> Seq<CiterInfo> {
    match index_for(entries, k.module) {
        Some(fi) => listed(fi.field_reference@, k),
        None => Seq::empty(),
    }
}

/// The citations listed for function `k`.
pub open spec fn listed_function(entries: Seq<(u32, FileIndex)>, k: FunctionID) -> Seq<CiterInfo> {
    match index_for(entries, k.module) {
        Some(fi) => listed(fi.function_reference@, k),
        None => Seq::empty(),
    }
}

proof fn lemma_index_for_update(entries: Seq<(u32, FileIndex)>, i: int, x: FileIndex, t: u32)
    requires
        0 <= i < entries.len(),
        forall|j: int| 0 <= j < i ==> entries[j].0 != entries[i].0,
    ensures
        index_for(entries.update(i, (entries[i].0, x)), t) == if t == entries[i].0 {
            Some(x)
        } else {
            index_for(entries, t)
        },
    decreases entries.len(),
{
    let u = entries.update(i, (entries[i].0, x));
    if i > 0 {
        let d = entries.drop_first();
        assert(u.drop_first() =~= d.update(i - 1, (d[i - 1].0, x)));
        assert(u[0] == entries[0]);
        assert forall|j: int| 0 <= j < i - 1 implies #[trigger] d[j].0 != d[i - 1].0 by {
            assert(d[j] == entries[j + 1]);
        }
        lemma_index_for_update(d, i - 1, x, t);
        assert(entries[0].0 != entries[i].0);
    } else {
        assert(u.drop_first() =~= entries.drop_first());
        assert(u[0] == (entries[0].0, x));
    }
}

proof fn lemma_index_for_push(entries: Seq<(u32, FileIndex)>, e: (u32, FileIndex), t: u32)
    ensures
        index_for(entries.push(e), t) == if index_for(entries, t) is Some {
            index_for(entries, t)
        } else if e.0 == t {
            Some(e.1)
        } else {
            None
        },
    decreases entries.len(),
{
    if entries.len() > 0 {
        assert(entries.push(e).drop_first() =~= entries.drop_first().push(e));
        assert(entries.push(e)[0] == entries[0]);
        lemma_index_for_push(entries.drop_first(), e, t);
    } else {
        assert(entries.push(e).drop_first() =~= Seq::<(u32, FileIndex)>::empty());
        assert(entries.push(e)[0] == e);
        assert(index_for(entries, t) is None);
        assert(index_for(Seq::<(u32, FileIndex)>::empty(), t) is None);
    }
}

/// The position of the index of file `t`, added empty when there is none.
fn slot(entries: &mut Vec<(u32, FileIndex)>, t: u32) -> (pos: usize)
    ensures
        pos < final(entries).len(),
        final(entries)@[pos as int].0 == t,
        forall|j: int| 0 <= j < pos ==> final(entries)@[j].0 != t,
        index_for(final(entries)@, t) == Some(final(entries)@[pos as int].1),
        forall|t2: u32| t2 != t ==> #[trigger] index_for(final(entries)@, t2) == index_for(old(entries)@, t2),
        match index_for(old(entries)@, t) {
            Some(fi) => final(entries)@[pos as int].1 == fi,
            None => {
                &&& final(entries)@[pos as int].1.variable_reference@.len() == 0
                &&& final(entries)@[pos as int].1.field_reference@.len() == 0
                &&& final(entries)@[pos as int].1.function_reference@.len() == 0
            },
        },
{
    let mut i: usize = 0;
    assert(entries@.skip(0) =~= entries@);
    while i < entries.len()
        invariant
            i <= entries.len(),
            entries@ == old(entries)@,
            index_for(entries@, t) == index_for(entries@.skip(i as int), t),
            forall|j: int| 0 <= j < i ==> entries@[j].0 != t,
        decreases entries.len() - i,
    {
        if entries[i].0 == t {
            return i;
        }
        assert(entries@.skip(i as int).drop_first() =~= entries@.skip(i + 1));
        i += 1;
    }
    let fi = FileIndex { variable_reference: Vec::new(), field_reference: Vec::new(), function_reference: Vec::new() };
    let ghost e = (t, fi);
    let ghost before = entries@;
    entries.push((t, fi));
    proof {
        assert forall|t2: u32| #[trigger] index_for(entries@, t2) == (if index_for(before, t2) is Some {
            index_for(before, t2)
        } else if t == t2 {
            Some(fi)
        } else {
            None
        }) by {
            lemma_index_for_push(before, e, t2);
        }
    }
    entries.len() - 1
}

/// Indexes the citations of every declaration across the files `modules`:
/// each reference of a file cites a variable of that same file, a field or a
/// function of the file its id names; the citations of each declaration come
/// file by file, in the order of each file's references.
#[verifier::loop_isolation(false)]
pub fn index_references(modules: &Vec<Module>) -> (r: Vec<(u32, FileIndex)>)
    ensures
        forall|t: u32, k: VariableID| #[trigger] listed_var(r@, t, k) == all_var_cites(modules@, t, k),
        forall|k: FieldID| #[trigger] listed_field(r@, k) == all_field_cites(modules@, k),
        forall|k: FunctionID| #[trigger] listed_function(r@, k) == all_function_cites(modules@, k),
{
    let mut res: Vec<(u32, FileIndex)> = Vec::new();
    let mut mi: usize = 0;
    while mi < modules.len()
        invariant
            mi <= modules.len(),
            forall|t: u32, k: VariableID| #[trigger] listed_var(res@, t, k) == all_var_cites(modules@.take(mi as int), t, k),
            forall|k: FieldID| #[trigger] listed_field(res@, k) == all_field_cites(modules@.take(mi as int), k),
            forall|k: FunctionID| #[trigger] listed_function(res@, k) == all_function_cites(modules@.take(mi as int), k),
        decreases modules.len() - mi,
    {
        let m = &modules[mi];
        let ghost done = modules@.take(mi as int);
        proof {
            assert(modules@.take(mi + 1).drop_last() =~= done);
            assert(m.reference@.take(0) =~= Seq::<Reference>::empty());
        }
        let mut ri: usize = 0;
        while ri < m.reference.len()
            invariant
                ri <= m.reference.len(),
                forall|t: u32, k: VariableID| #[trigger] listed_var(res@, t, k) == all_var_cites(done, t, k) + var_cites(
                    m.file_id,
                    m.reference@.take(ri as int),
                    t,
                    k,
                ),
                forall|k: FieldID| #[trigger] listed_field(res@, k) == all_field_cites(done, k) + field_cites(
                    m.file_id,
                    m.reference@.take(ri as int),
                    k,
                ),
                forall|k: FunctionID| #[trigger] listed_function(res@, k) == all_function_cites(done, k) + function_cites(
                    m.file_id,
                    m.reference@.take(ri as int),
                    k,
                ),
            decreases m.reference.len() - ri,
        {
            let rf = m.reference[ri];
            let c = CiterInfo { file_id: m.file_id, range: rf.range };
            let ghost refs1 = m.reference@.take(ri + 1);
            proof {
                assert(refs1.drop_last() =~= m.reference@.take(ri as int));
                assert(refs1.last() == rf);
            }
            let target = match rf.tag {
                ReferenceTag::VarRead(_) => m.file_id,
                ReferenceTag::FieldRead(f) => f.module,
                ReferenceTag::FuncCall(f) => f.module,
            };
            let ghost r0 = res@;
            let pos = slot(&mut res, target);
            let ghost r1 = res@;
            let ghost old_fi = r1[pos as int].1;
            match rf.tag {
                ReferenceTag::VarRead(v) => {
                    push_listed(&mut res[pos].1.variable_reference, v, c);
                },
                ReferenceTag::FieldRead(f) => {
                    push_listed(&mut res[pos].1.field_reference, f, c);
                },
                ReferenceTag::FuncCall(f) => {
                    push_listed(&mut res[pos].1.function_reference, f, c);
                },
            }
            proof {
                let new_fi = res@[pos as int].1;
                assert(res@ =~= r1.update(pos as int, (target, new_fi)));
                assert forall|t2: u32| #[trigger] index_for(res@, t2) == (if t2 == target {
                    Some(new_fi)
                } else {
                    index_for(r0, t2)
                }) by {
                    lemma_index_for_update(r1, pos as int, new_fi, t2);
                }
                assert forall|t: u32, k: VariableID| #[trigger] listed_var(res@, t, k) == all_var_cites(done, t, k)
                    + var_cites(m.file_id, refs1, t, k) by {
                    assert(listed_var(r0, t, k) == all_var_cites(done, t, k) + var_cites(
                        m.file_id,
                        m.reference@.take(ri as int),
                        t,
                        k,
                    ));
                    if t == target {
                        if index_for(r0, t) is None {
                            assert(old_fi.variable_reference@ =~= Seq::<(VariableID, Vec<CiterInfo>)>::empty());
                        }
                        assert(listed_var(r0, t, k) == listed(old_fi.variable_reference@, k));
                        assert(listed_var(res@, t, k) == listed(new_fi.variable_reference@, k));
                    } else {
                        assert(listed_var(res@, t, k) == listed_var(r0, t, k));
                    }
                }
                assert forall|k: FieldID| #[trigger] listed_field(res@, k) == all_field_cites(done, k) + field_cites(
                    m.file_id,
                    refs1,
                    k,
                ) by {
                    assert(listed_field(r0, k) == all_field_cites(done, k) + field_cites(
                        m.file_id,
                        m.reference@.take(ri as int),
                        k,
                    ));
                    if k.module == target {
                        if index_for(r0, k.module) is None {
                            assert(old_fi.field_reference@ =~= Seq::<(FieldID, Vec<CiterInfo>)>::empty());
                        }
                        assert(listed_field(r0, k) == listed(old_fi.field_reference@, k));
                        assert(listed_field(res@, k) == listed(new_fi.field_reference@, k));
                    } else {
                        assert(listed_field(res@, k) == listed_field(r0, k));
                    }
                }
                assert forall|k: FunctionID| #[trigger] listed_function(res@, k) == all_function_cites(done, k)
                    + function_cites(m.file_id, refs1, k) by {
                    assert(listed_function(r0, k) == all_function_cites(done, k) + function_cites(
                        m.file_id,
                        m.reference@.take(ri as int),
                        k,
                    ));
                    if k.module == target {
                        if index_for(r0, k.module) is None {
                            assert(old_fi.function_reference@ =~= Seq::<(FunctionID, Vec<CiterInfo>)>::empty());
                        }
                        assert(listed_function(r0, k) == listed(old_fi.function_reference@, k));
                        assert(listed_function(res@, k) == listed(new_fi.function_reference@, k));
                    } else {
                        assert(listed_function(res@, k) == listed_function(r0, k));
                    }
                }
            }
            ri += 1;
        }
        proof {
            assert(m.reference@.take(m.reference.len() as int) =~= m.reference@);
        }
        mi += 1;
    }
    proof {
        assert(modules@.take(modules.len() as int) =~= modules@);
    }
    res
}

// ---------------------------------------------------------------------------
// The project
// ---------------------------------------------------------------------------

/// Whether `t` holds the declarations that module `m` shares with other files.
pub open spec fn thin_of(t: ThinModule, m: Module) -> bool {
    &&& t.file_id == m.file_id
    &&& t.functions@.map_values(|f: Function| f@) == m.functions@.map_values(|f: Function| f@)
    &&& t.structs@.map_values(|s: Struct| s@) == m.structs@.map_values(|s: Struct| s@)
    &&& t.fields@.map_values(|f: Field| f@) == m.fields@.map_values(|f: Field| f@)
}

/// Whether `ts` holds, in order, the shared declarations of each module of `ms`.
pub open spec fn shares(ts: Seq<ThinModule>, ms: Seq<Module>) -> bool {
    &&& ts.len() == ms.len()
    &&& forall|j: int| 0 <= j < ms.len() ==> thin_of(#[trigger] ts[j], ms[j])
}

/// Whether `b` is `a` but for its errors and the tables shared with it.
pub open spec fn same_but_errors_and_shares(a: Module, b: Module) -> bool {
    &&& a.file_id == b.file_id
    &&& a.variables == b.variables
    &&& a.reference == b.reference
    &&& a.functions == b.functions
    &&& a.structs == b.structs
    &&& a.fields == b.fields
    &&& a.scopes == b.scopes
    &&& a.global_scope == b.global_scope
    &&& a.green_tree == b.green_tree
    &&& a.value_table == b.value_table
    &&& a.variable_map == b.variable_map
    &&& a.reference_map == b.reference_map
    &&& a.struct_map == b.struct_map
    &&& a.function_map == b.function_map
    &&& a.type_table == b.type_table
    &&& a.current_scope == b.current_scope
    &&& a.current_function_ret_type == b.current_function_ret_type
    &&& a.loop_depth == b.loop_depth
    &&& a.overflowing_literals == b.overflowing_literals
    &&& a.expand_array == b.expand_array
    &&& a.index == b.index
}

/// Whether `e` reports a struct of file `f` that holds itself by value, in
/// the modules `ms`.
pub open spec fn cycle_report(ms: Seq<Module>, f: u32, e: AnalyzeError) -> bool {
    exists|s: StructID| s.module == f && reports(ms, e, s) && #[trigger] holds_cycle(ms, s)
}

/// Whether the errors `after` of file `f`, past the first `base`, report
/// every struct of that file that holds itself by value, among the modules `ms`.
pub open spec fn recursion_reported(ms: Seq<Module>, f: u32, base: nat, after: Seq<AnalyzeError>) -> bool {
    forall|s: StructID|
        s.module == f && #[trigger] holds_cycle(ms, s) && struct_def(ms, s) is Some ==> exists|p: int|
            base <= p < after.len() && reports(ms, after[p], s)
}

/// Whether the errors `r`, filed by file, report every struct of the modules
/// `ms` that holds itself by value, when no two modules share a file.
pub open spec fn errors_complete(ms: Seq<Module>, r: Seq<(u32, Vec<AnalyzeError>)>) -> bool {
    distinct_files(ms) ==> forall|s: StructID|
        #[trigger] holds_cycle(ms, s) && struct_def(ms, s) is Some ==> reported_struct(ms, r, s)
}

/// The declarations that each module shares with the others, in order.
fn share_declarations(modules: &Vec<Module>) -> (r: Vec<ThinModule>)
    ensures
        shares(r@, modules@),
{
    let mut out: Vec<ThinModule> = Vec::new();
    let mut j: usize = 0;
    while j < modules.len()
        invariant
            j <= modules.len(),
            out@.len() == j,
            forall|i: int| 0 <= i < j ==> thin_of(#[trigger] out@[i], modules@[i]),
        decreases modules.len() - j,
    {
        out.push(ThinModule::new(&modules[j]));
        j += 1;
    }
    out
}

/// A project: the modules of its files, the declarations they share, the
/// citations of every declaration, and the checks run across the files.
pub struct Project {
    pub modules: Vec<Module>,
    pub metadata: Vec<ThinModule>,
    pub citations: Vec<(u32, FileIndex)>,
    pub checker: Vec<RecursiveTypeChecker>,
}

impl Project {
    /// How many checks across files the project runs.
    pub open spec fn check_count(&self) -> nat {
        self.checker@.len()
    }

    /// A project with no files and no checks.
    pub fn new() -> (r: Project)
        ensures
            r.modules@.len() == 0,
            r.metadata@.len() == 0,
            r.citations@.len() == 0,
            r.check_count() == 0,
    {
        Project { modules: Vec::new(), metadata: Vec::new(), citations: Vec::new(), checker: Vec::new() }
    }

    /// The project with one more check across files: that no struct holds
    /// itself by value.
    pub fn with_checker(self) -> (r: Project)
        ensures
            r.modules == self.modules,
            r.metadata == self.metadata,
            r.citations == self.citations,
            r.check_count() == self.check_count() + 1,
    {
        let mut p = self;
        p.checker.push(RecursiveTypeChecker::default());
        p
    }

    /// How many checks across files the project runs.
    pub fn checker_count(&self) -> (r: usize)
        ensures
            r == self.check_count(),
    {
        self.checker.len()
    }

    /// Takes the analysed modules of the project's files (one per file) and
    /// completes the project: the citations of every declaration across the
    /// files are indexed; each check reports, to the module of each file,
    /// the structs of that file that hold themselves by value; and the
    /// declarations of every file are shared with the project and with each
    /// module.
    #[verifier::loop_isolation(false)]
    pub fn attach_modules(&mut self, modules: Vec<Module>)
        requires
            forall|j: int| 0 <= j < modules@.len() ==> #[trigger] modules@[j].structs@.len() <= u32::MAX,
            forall|i: int, j: int|
                0 <= i < j < modules@.len() ==> #[trigger] modules@[i].file_id != #[trigger] modules@[j].file_id,
        ensures
            final(self).check_count() == old(self).check_count(),
            final(self).modules@.len() == modules@.len(),
            forall|j: int|
                0 <= j < modules@.len() ==> same_but_errors_and_shares(modules@[j], #[trigger] final(self).modules@[j]),
            forall|j: int|
                0 <= j < modules@.len() ==> {
                    let before = modules@[j].semantic_errors@;
                    let after = (#[trigger] final(self).modules@[j]).semantic_errors@;
                    &&& before.len() <= after.len()
                    &&& after.take(before.len() as int) == before
                    &&& forall|p: int|
                        before.len() <= p < after.len() ==> cycle_report(modules@, modules@[j].file_id, #[trigger] after[p])
                },
            old(self).check_count() > 0 ==> forall|j: int|
                0 <= j < modules@.len() ==> recursion_reported(
                    modules@,
                    modules@[j].file_id,
                    modules@[j].semantic_errors@.len(),
                    (#[trigger] final(self).modules@[j]).semantic_errors@,
                ),
            old(self).check_count() == 0 ==> forall|j: int|
                0 <= j < modules@.len() ==> (#[trigger] final(self).modules@[j]).semantic_errors == modules@[j].semantic_errors,
            shares(final(self).metadata@, modules@),
            forall|j: int|
                0 <= j < modules@.len() ==> ((#[trigger] final(self).modules@[j]).metadata matches Some(md) && shares(
                    md@,
                    modules@,
                )),
            forall|t: u32, k: VariableID| #[trigger] listed_var(final(self).citations@, t, k) == all_var_cites(modules@, t, k),
            forall|k: FieldID| #[trigger] listed_field(final(self).citations@, k) == all_field_cites(modules@, k),
            forall|k: FunctionID| #[trigger] listed_function(final(self).citations@, k) == all_function_cites(modules@, k),
    {
        let ghost m0 = modules@;
        let citations = index_references(&modules);
        let mut results: Vec<Vec<(u32, Vec<AnalyzeError>)>> = Vec::new();
        let mut c: usize = 0;
        while c < self.checker.len()
            invariant
                c <= self.checker.len(),
                self.checker@.len() == old(self).checker@.len(),
                results@.len() == c,
                forall|k: int| 0 <= k < c ==> recursive_errors_sound(m0, #[trigger] results@[k]@),
                forall|k: int| 0 <= k < c ==> errors_complete(m0, #[trigger] results@[k]@),
                distinct_files(m0),
            decreases self.checker.len() - c,
        {
            let r = self.checker[c].check_project(&modules);
            results.push(r);
            c += 1;
        }
        let mut ms = modules;
        let ghost res0 = results@;
        let mut k: usize = 0;
        while k < results.len()
            invariant
                k <= results.len(),
                results@.len() == res0.len(),
                ms@.len() == m0.len(),
                forall|i: int| k <= i < res0.len() ==> #[trigger] results@[i] == res0[i],
                forall|i: int| 0 <= i < res0.len() ==> recursive_errors_sound(m0, #[trigger] res0[i]@),
                forall|i: int| 0 <= i < res0.len() ==> errors_complete(m0, #[trigger] res0[i]@),
                distinct_files(m0),
                k > 0 ==> forall|j: int|
                    0 <= j < m0.len() ==> recursion_reported(
                        m0,
                        m0[j].file_id,
                        m0[j].semantic_errors@.len(),
                        (#[trigger] ms@[j]).semantic_errors@,
                    ),
                forall|j: int| 0 <= j < m0.len() ==> same_but_errors_and_shares(m0[j], #[trigger] ms@[j]),
                forall|j: int| 0 <= j < m0.len() ==> (#[trigger] ms@[j]).metadata == m0[j].metadata,
                forall|j: int|
                    0 <= j < m0.len() ==> {
                        let before = m0[j].semantic_errors@;
                        let after = (#[trigger] ms@[j]).semantic_errors@;
                        &&& before.len() <= after.len()
                        &&& after.take(before.len() as int) == before
                        &&& forall|p: int| before.len() <= p < after.len() ==> cycle_report(m0, m0[j].file_id, #[trigger] after[p])
                    },
                res0.len() == 0 ==> forall|j: int| 0 <= j < m0.len() ==> (#[trigger] ms@[j]).semantic_errors == m0[j].semantic_errors,
            decreases results.len() - k,
        {
            let mut j: usize = 0;
            while j < ms.len()
                invariant
                    k < results.len(),
                    j <= ms.len(),
                    results@.len() == res0.len(),
                    ms@.len() == m0.len(),
                    forall|i: int| k < i < res0.len() ==> #[trigger] results@[i] == res0[i],
                    forall|j2: int| j <= j2 < m0.len() ==> #[trigger] listed(results@[k as int]@, m0[j2].file_id) == listed(
                        res0[k as int]@,
                        m0[j2].file_id,
                    ),
                    forall|j2: int| 0 <= j2 < m0.len() ==> same_but_errors_and_shares(m0[j2], #[trigger] ms@[j2]),
                    forall|j2: int| 0 <= j2 < m0.len() ==> (#[trigger] ms@[j2]).metadata == m0[j2].metadata,
                    errors_complete(m0, res0[k as int]@),
                    forall|j2: int|
                        0 <= j2 < m0.len() && (k > 0 || j2 < j) ==> recursion_reported(
                            m0,
                            m0[j2].file_id,
                            m0[j2].semantic_errors@.len(),
                            (#[trigger] ms@[j2]).semantic_errors@,
                        ),
                    forall|j2: int|
                        0 <= j2 < m0.len() ==> {
                            let before = m0[j2].semantic_errors@;
                            let after = (#[trigger] ms@[j2]).semantic_errors@;
                            &&& before.len() <= after.len()
                            &&& after.take(before.len() as int) == before
                            &&& forall|p: int|
                                before.len() <= p < after.len() ==> cycle_report(m0, m0[j2].file_id, #[trigger] after[p])
                        },
                decreases ms.len() - j,
            {
                let fid = ms[j].file_id;
                let ghost row = results@[k as int]@;
                let mut errs = take_listed(&mut results[k], fid);
                let ghost taken = errs@;
                let ghost e0 = ms@[j as int].semantic_errors@;
                ms[j].semantic_errors.append(&mut errs);
                proof {
                    let f = m0[j as int].file_id;
                    assert(taken == listed(res0[k as int]@, f));
                    assert(recursive_errors_sound(m0, res0[k as int]@));
                    let after = ms@[j as int].semantic_errors@;
                    assert(after == e0 + taken);
                    assert forall|p: int| e0.len() <= p < after.len() implies cycle_report(m0, f, #[trigger] after[p]) by {
                        let q = p - e0.len();
                        assert(reports_cycle_at(m0, res0[k as int]@, f, q));
                        assert(after[p] == listed(res0[k as int]@, f)[q]);
                    }
                    assert forall|j2: int| j < j2 < m0.len() implies #[trigger] listed(results@[k as int]@, m0[j2].file_id)
                        == listed(res0[k as int]@, m0[j2].file_id) by {
                        assert(m0[j2].file_id != m0[j as int].file_id);
                    }
                    assert(after.take(m0[j as int].semantic_errors@.len() as int) =~= m0[j as int].semantic_errors@);
                    let base = m0[j as int].semantic_errors@.len();
                    assert forall|sx: StructID|
                        sx.module == f && #[trigger] holds_cycle(m0, sx) && struct_def(m0, sx) is Some implies exists|p: int|
                        base <= p < after.len() && reports(m0, after[p], sx) by {
                        if k > 0 {
                            assert(recursion_reported(m0, f, base, e0));
                            let p = choose|p: int| base <= p < e0.len() && reports(m0, e0[p], sx);
                            assert(after[p] == e0[p]);
                        } else {
                            assert(reported_struct(m0, res0[k as int]@, sx));
                            let q = choose|q: int| 0 <= q < listed(res0[k as int]@, sx.module).len() && reports(
                                m0,
                                listed(res0[k as int]@, sx.module)[q],
                                sx,
                            );
                            let p = e0.len() + q;
                            assert(after[p] == taken[q]);
                        }
                    }
                    assert(recursion_reported(m0, f, base, after));
                }
                j += 1;
            }
            k += 1;
        }
        let ghost checked = ms@;
        let mut j: usize = 0;
        while j < ms.len()
            invariant
                j <= ms.len(),
                ms@.len() == m0.len(),
                forall|j2: int| 0 <= j2 < m0.len() ==> same_but_errors_and_shares(m0[j2], #[trigger] ms@[j2]),
                forall|j2: int| 0 <= j2 < m0.len() ==> (#[trigger] ms@[j2]).semantic_errors == checked[j2].semantic_errors,
                forall|j2: int| 0 <= j2 < j ==> ((#[trigger] ms@[j2]).metadata matches Some(md) && shares(md@, m0)),
            decreases ms.len() - j,
        {
            let md = share_declarations(&ms);
            proof {
                assert forall|i: int| 0 <= i < m0.len() implies thin_of(#[trigger] md@[i], m0[i]) by {
                    assert(thin_of(md@[i], ms@[i]));
                }
            }
            ms[j].metadata = Some(md);
            j += 1;
        }
        let shared = share_declarations(&ms);
        proof {
            assert forall|i: int| 0 <= i < m0.len() implies thin_of(#[trigger] shared@[i], m0[i]) by {
                assert(thin_of(shared@[i], ms@[i]));
            }
        }
        self.metadata = shared;
        self.citations = citations;
        self.modules = ms;
    }
}

} // verus!
