//! Variable definitions: the type they declare, the value their initialiser
//! gives them, and the variable they add to the scope.

use vstd::prelude::*;

use crate::array::{ArrayTree, ArrayTreeView};
use crate::error::AnalyzeError;
use crate::init::{
    array_err_view, fields_ready, init_err_view, same_context, snew, sstruct, tables_of, value_in, values_of,
    ArrayErrView, InitErrView, InitValNode, Tables,
};
use crate::literal::type_at;
use crate::project::FieldNode;
use crate::module::{
    at_range, bind_range, named, scopes_wf, FieldID, FieldView, Module, ScopeID, StructID, StructView, TextRange, VariableID,
};
use crate::typenode::{is_issue, node_type, parse_type_node, TypeIssue, TypeNode};
use crate::types::{array_type, const_type, struct_of, Ty, TyView};
use crate::value::{Value, ValueView};

verus! {

/// A variable definition: its name with the name's range, its type node and
/// its initialiser, where the parser found them.
#[derive(Debug)]
pub struct VarDefNode {
    pub name: Option<(String, TextRange)>,
    pub ty: Option<TypeNode>,
    pub init: Option<InitValNode>,
}

/// An error that a variable definition can report, as a mathematical value.
pub enum VarDefReport {
    /// Its type does not read.
    Type(TypeIssue),
    /// The scope already has a variable of that name.
    VariableDefined(Seq<char>, TextRange),
    /// Its array initialiser is wrong.
    ArrayError(ArrayErrView, TextRange),
    /// Its struct initialiser is wrong.
    Init(InitErrView),
    /// A global variable whose initialiser is not constant.
    ConstantExprExpected(TextRange),
    /// A constant without an initialiser.
    ExpectInitialVal(Seq<char>, TextRange),
}

/// Whether the error `e` is the report `r`.
pub open spec fn reports_var_def(e: AnalyzeError, r: VarDefReport) -> bool {
    match r {
        VarDefReport::Type(i) => is_issue(e, i),
        VarDefReport::VariableDefined(n, x) => e matches AnalyzeError::VariableDefined { name, range } && name@ == n
            && range == x,
        VarDefReport::ArrayError(a, x) => e matches AnalyzeError::ArrayError { message, range } && array_err_view(*message)
            == a && range == x,
        VarDefReport::Init(i) => init_err_view(e) == i,
        VarDefReport::ConstantExprExpected(x) => e matches AnalyzeError::ConstantExprExpected { range } && range == x,
        VarDefReport::ExpectInitialVal(n, x) => e matches AnalyzeError::ExpectInitialVal { name, range } && name@ == n
            && range == x,
    }
}

/// What a variable definition does: the tables after it, the error it
/// reports, and the type of the variable it declares.
pub struct VarDefEffect {
    pub tables: Tables,
    pub report: Option<VarDefReport>,
    pub declared: Option<TyView>,
}

/// What the initialiser `iv` of a variable of type `t` records, and the error
/// it has: an array gets its element tree (and its value when constant), a
/// struct its value when constant.
pub open spec fn init_effect(m: &Module, t: TyView, iv: InitValNode) -> (Tables, Option<VarDefReport>) {
    let st0 = tables_of(m);
    if array_type(t) {
        let (s, r) = snew(m, st0, t, iv);
        match r {
            Err(e) => (s, Some(VarDefReport::ArrayError(e, iv.trimmed))),
            Ok((tree, c)) => {
                let s2 = if c {
                    Tables { values: s.values.insert(iv.range, ValueView::Array(tree)), ..s }
                } else {
                    s
                };
                (Tables { arrays: s2.arrays.insert(iv.range, tree), ..s2 }, None)
            },
        }
    } else if struct_of(t) is Some {
        let (s, r) = sstruct(m, st0, struct_of(t)->0, iv);
        match r {
            Err(e) => (s, Some(VarDefReport::Init(e))),
            Ok(Some(v)) => (Tables { values: s.values.insert(iv.range, v), ..s }, None),
            Ok(None) => (s, None),
        }
    } else {
        (st0, None)
    }
}

/// The effect of the variable definition `node` in `m`.
pub open spec fn var_def_effect(m: &Module, node: &VarDefNode) -> VarDefEffect {
    let st0 = tables_of(m);
    let nothing = VarDefEffect { tables: st0, report: None, declared: None };
    match (node.name, node.ty) {
        (Some((name, vr)), Some(tn)) => match node_type(*m, tn, Some(m.value_table@)) {
            Err(i) => VarDefEffect { report: Some(VarDefReport::Type(i)), ..nothing },
            Ok(None) => nothing,
            Ok(Some(t)) => if named(m.scopes@[m.current_scope.0 as int].variables@, name@) is Some {
                VarDefEffect { report: Some(VarDefReport::VariableDefined(name@, vr)), ..nothing }
            } else {
                let is_global = m.current_scope == m.global_scope;
                let is_const = const_type(t);
                match node.init {
                    Some(iv) => {
                        let er = match iv.expr {
                            Some(e) => e,
                            None => iv.range,
                        };
                        let (st1, failed) = init_effect(m, t, iv);
                        match failed {
                            Some(rep) => VarDefEffect { tables: st1, report: Some(rep), declared: None },
                            None => match value_in(st1, er) {
                                Some(v) => VarDefEffect {
                                    tables: if is_const {
                                        Tables { values: st1.values.insert(vr, v), ..st1 }
                                    } else {
                                        st1
                                    },
                                    report: None,
                                    declared: Some(t),
                                },
                                None => if is_global {
                                    VarDefEffect {
                                        tables: st1,
                                        report: Some(VarDefReport::ConstantExprExpected(iv.trimmed)),
                                        declared: None,
                                    }
                                } else {
                                    VarDefEffect { tables: st1, report: None, declared: Some(t) }
                                },
                            },
                        }
                    },
                    None => if is_const {
                        VarDefEffect { report: Some(VarDefReport::ExpectInitialVal(name@, vr)), ..nothing }
                    } else {
                        VarDefEffect { declared: Some(t), ..nothing }
                    },
                }
            },
        },
        _ => nothing,
    }
}

impl Module {
    /// Analyses the variable definition `node`: reads its type (with the
    /// constants known so far), refuses a name the scope already has, gives
    /// an array initialiser its element tree and a struct initialiser its
    /// value, records the value of a constant, requires a global's
    /// initialiser to be constant and a constant to have one, and declares
    /// the variable in the current scope.
    #[verifier::rlimit(40)]
    pub fn leave_var_def(&mut self, node: &VarDefNode)
        requires
            fields_ready(old(self)),
            old(self).current_scope.0 < old(self).scopes.len(),
            old(self).variables.len() < u32::MAX,
        ensures
            final(self).type_table == old(self).type_table,
            final(self).file_id == old(self).file_id,
            final(self).structs == old(self).structs,
            final(self).fields == old(self).fields,
            final(self).functions == old(self).functions,
            final(self).metadata == old(self).metadata,
            final(self).current_scope == old(self).current_scope,
            final(self).scopes@.len() == old(self).scopes@.len(),
            tables_of(final(self)) == var_def_effect(old(self), node).tables,
            match var_def_effect(old(self), node).report {
                Some(r) => final(self).semantic_errors@.len() == old(self).semantic_errors@.len() + 1
                    && final(self).semantic_errors@.drop_last() == old(self).semantic_errors@ && reports_var_def(
                    final(self).semantic_errors@.last(),
                    r,
                ),
                None => final(self).semantic_errors@ == old(self).semantic_errors@,
            },
            match var_def_effect(old(self), node).declared {
                Some(t) => {
                    let id = VariableID(old(self).variables.len() as u32);
                    let (name, vr) = node.name->0;
                    &&& final(self).variables@.len() == old(self).variables@.len() + 1
                    &&& final(self).variables@.drop_last() == old(self).variables@
                    &&& final(self).variables@.last().name@ == name@
                    &&& final(self).variables@.last().ty@ == t
                    &&& final(self).variables@.last().range == vr
                    &&& at_range(final(self).variable_map@, vr) == Some(id)
                    &&& named(final(self).scopes@[old(self).current_scope.0 as int].variables@, name@) == Some(id)
                    &&& forall|i: int|
                        0 <= i < old(self).scopes@.len() && i != old(self).current_scope.0 ==> #[trigger] final(self).scopes@[i]
                            == old(self).scopes@[i]
                },
                None => {
                    &&& final(self).variables == old(self).variables
                    &&& final(self).variable_map == old(self).variable_map
                    &&& final(self).scopes == old(self).scopes
                },
            },
    {
        let (var_name, var_range) = match &node.name {
            Some((n, r)) => (n, *r),
            None => return,
        };
        let ty_node = match &node.ty {
            Some(t) => t,
            None => return,
        };
        let var_type = match parse_type_node(self, ty_node, Some(&self.value_table)) {
            Ok(Some(t)) => t,
            Ok(None) => return,
            Err(e) => {
                self.semantic_errors.push(e);
                return;
            },
        };
        let cur = self.current_scope.0 as usize;
        let is_global = self.current_scope == self.global_scope;
        let is_const = var_type.is_const();
        if self.scopes[cur].have_variable_def(var_name.as_str()) {
            self.semantic_errors.push(AnalyzeError::VariableDefined { name: var_name.clone(), range: var_range });
            return;
        }
        let ghost m0 = *self;
        if let Some(iv) = &node.init {
            let expr_range = match iv.expr {
                Some(e) => e,
                None => iv.range,
            };
            if var_type.is_array() {
                match ArrayTree::new(self, &var_type, iv) {
                    Err(e) => {
                        self.semantic_errors.push(AnalyzeError::ArrayError { message: Box::new(e), range: iv.trimmed });
                        return;
                    },
                    Ok((tree, is_const_list)) => {
                        let ghost s = tables_of(self);
                        if is_const_list {
                            bind_range(&mut self.value_table, iv.range, Value::Array(tree.duplicate()));
                        }
                        let ghost tv = tree@;
                        bind_range(&mut self.expand_array, iv.range, tree);
                        proof {
                            let s2 = if is_const_list {
                                Tables { values: s.values.insert(iv.range, ValueView::Array(tv)), ..s }
                            } else {
                                s
                            };
                            assert(tables_of(self).values =~= s2.values);
                            assert(tables_of(self).arrays =~= s2.arrays.insert(iv.range, tv));
                        }
                    },
                }
            } else if let Some(id) = var_type.as_struct_id() {
                match self.process_struct_init_value(id, iv) {
                    Ok(Some(v)) => {
                        let ghost s = tables_of(self);
                        let ghost vv = v@;
                        bind_range(&mut self.value_table, iv.range, v);
                        proof {
                            assert(tables_of(self).values =~= s.values.insert(iv.range, vv));
                        }
                    },
                    Ok(None) => {},
                    Err(e) => {
                        self.semantic_errors.push(e);
                        return;
                    },
                }
            }
            let ghost st1 = tables_of(self);
            match self.get_value_by_range(expr_range) {
                Some(v) => {
                    if is_const {
                        let v2 = v.clone();
                        let ghost vv = v2@;
                        bind_range(&mut self.value_table, var_range, v2);
                        proof {
                            assert(tables_of(self).values =~= st1.values.insert(var_range, vv));
                        }
                    }
                },
                None => {
                    if is_global {
                        self.semantic_errors.push(AnalyzeError::ConstantExprExpected { range: iv.trimmed });
                        return;
                    }
                },
            }
        } else if is_const {
            self.semantic_errors.push(AnalyzeError::ExpectInitialVal { name: var_name.clone(), range: var_range });
            return;
        }
        let mut scope = self.scopes.remove(cur);
        let id = scope.new_variable(&mut self.variables, &mut self.variable_map, var_name.clone(), var_type, var_range);
        self.scopes.insert(cur, scope);
        proof {
            assert(self.variables@.drop_last() =~= old(self).variables@);
        }
    }
}


// ---------------------------------------------------------------------------
// Struct definitions
// ---------------------------------------------------------------------------

/// An error that a struct definition can report, as a mathematical value.
pub enum StructDefReport {
    Type(TypeIssue),
    VariableDefined(Seq<char>, TextRange),
}

pub open spec fn reports_struct_def(e: AnalyzeError, r: StructDefReport) -> bool {
    match r {
        StructDefReport::Type(i) => is_issue(e, i),
        StructDefReport::VariableDefined(n, x) => e matches AnalyzeError::VariableDefined { name, range }
            && name@ == n && range == x,
    }
}

/// Where reading the fields of a struct definition stands: the fields added
/// and the ids to list, the names seen, the errors, and whether reading
/// stopped at a field whose type does not read.
pub struct StructScan {
    pub added: Seq<FieldView>,
    pub ids: Seq<FieldID>,
    pub seen: Set<Seq<char>>,
    pub reports: Seq<StructDefReport>,
    pub stopped: bool,
}

/// One more field: a new field for a new name; a repeated name is reported;
/// a type that does not read stops the reading (reported when it is wrong).
pub open spec fn scan_step(m: &Module, s: StructScan, f: FieldNode) -> StructScan {
    if s.stopped {
        s
    } else {
        match (f.name, f.ty) {
            (Some((n, r)), Some(tn)) => match node_type(*m, tn, Some(m.value_table@)) {
                Ok(None) => StructScan { stopped: true, ..s },
                Err(i) => StructScan { reports: s.reports.push(StructDefReport::Type(i)), stopped: true, ..s },
                Ok(Some(t)) => if s.seen.contains(n@) {
                    StructScan { reports: s.reports.push(StructDefReport::VariableDefined(n@, r)), ..s }
                } else {
                    StructScan {
                        added: s.added.push(FieldView { name: n@, ty: t, range: r }),
                        ids: s.ids.push(FieldID { module: m.file_id, index: (m.fields.len() + s.added.len()) as u32 }),
                        seen: s.seen.insert(n@),
                        ..s
                    }
                },
            },
            _ => s,
        }
    }
}

/// Reading the fields `fs` in order.
pub open spec fn struct_scan(m: &Module, fs: Seq<FieldNode>) -> StructScan
    decreases fs.len(),
{
    if fs.len() == 0 {
        StructScan { added: Seq::empty(), ids: Seq::empty(), seen: Set::empty(), reports: Seq::empty(), stopped: false }
    } else {
        scan_step(m, struct_scan(m, fs.drop_last()), fs.last())
    }
}

proof fn lemma_struct_scan_len(m: &Module, fs: Seq<FieldNode>)
    ensures
        struct_scan(m, fs).added.len() <= fs.len(),
        struct_scan(m, fs).ids.len() == struct_scan(m, fs).added.len(),
    decreases fs.len(),
{
    if fs.len() > 0 {
        lemma_struct_scan_len(m, fs.drop_last());
    }
}

/// Whether the errors `after` are `before` followed by the reports `rs`.
pub open spec fn struct_reported(before: Seq<AnalyzeError>, after: Seq<AnalyzeError>, rs: Seq<StructDefReport>) -> bool {
    &&& after.len() == before.len() + rs.len()
    &&& after.take(before.len() as int) == before
    &&& forall|i: int| 0 <= i < rs.len() ==> reports_struct_def(#[trigger] after[before.len() + i], rs[i])
}

impl Module {
    /// Opens the definition of a struct whose node spans `range`. A name that
    /// already names a struct is reported at the name. Otherwise a scope
    /// inside the global one is opened, and the struct is declared with no
    /// fields yet, so that its own fields may point to it.
    pub fn enter_struct_def(&mut self, node: &crate::project::StructDefNode, range: TextRange)
        requires
            old(self).scopes.len() < u32::MAX,
            old(self).structs.len() < u32::MAX,
        ensures
            final(self).variables == old(self).variables,
            final(self).functions == old(self).functions,
            final(self).fields == old(self).fields,
            final(self).type_table == old(self).type_table,
            final(self).value_table == old(self).value_table,
            final(self).function_map == old(self).function_map,
            final(self).file_id == old(self).file_id,
            final(self).global_scope == old(self).global_scope,
            match node.name {
                None => *final(self) == *old(self),
                Some((n, r)) => match named(old(self).struct_map@, n@) {
                    Some(_) => {
                        &&& final(self).semantic_errors@.len() == old(self).semantic_errors@.len() + 1
                        &&& final(self).semantic_errors@.drop_last() == old(self).semantic_errors@
                        &&& final(self).semantic_errors@.last() matches AnalyzeError::StructDefined { name, range: er }
                            && name@ == n@ && er == r
                        &&& final(self).structs == old(self).structs
                        &&& final(self).struct_map == old(self).struct_map
                        &&& final(self).scopes == old(self).scopes
                        &&& final(self).current_scope == old(self).current_scope
                    },
                    None => {
                        &&& final(self).semantic_errors == old(self).semantic_errors
                        &&& final(self).current_scope == ScopeID(old(self).scopes.len() as u32)
                        &&& final(self).scopes@.len() == old(self).scopes@.len() + 1
                        &&& final(self).scopes@.drop_last() == old(self).scopes@
                        &&& final(self).scopes@.last().parent == Some(old(self).global_scope)
                        &&& final(self).scopes@.last().range == range
                        &&& final(self).scopes@.last().variables@.len() == 0
                        &&& final(self).structs@.len() == old(self).structs@.len() + 1
                        &&& final(self).structs@.drop_last() == old(self).structs@
                        &&& final(self).structs@.last()@ == (StructView { name: n@, fields: Seq::empty(), range: r })
                        &&& final(self).struct_map@.len() == old(self).struct_map@.len() + 1
                        &&& final(self).struct_map@.drop_last() == old(self).struct_map@
                        &&& final(self).struct_map@.last().0@ == n@
                        &&& final(self).struct_map@.last().1 == (StructID {
                            module: old(self).file_id,
                            index: old(self).structs.len() as u32,
                        })
                    },
                },
            },
    {
        let (name, nr) = match &node.name {
            Some((n, r)) => (n, *r),
            None => return,
        };
        if self.get_struct_id_by_name(name.as_str()).is_some() {
            self.semantic_errors.push(AnalyzeError::StructDefined { name: name.clone(), range: nr });
            assert(self.semantic_errors@.drop_last() =~= old(self).semantic_errors@);
            return;
        }
        let g = self.global_scope;
        self.current_scope = self.new_scope(Some(g), range);
        let id = self.new_struct(name.clone(), Vec::new(), nr);
        self.struct_map.push((name.clone(), id));
        proof {
            assert(self.scopes@.drop_last() =~= old(self).scopes@);
            assert(self.structs@.drop_last() =~= old(self).structs@);
            assert(self.struct_map@.drop_last() =~= old(self).struct_map@);
        }
    }
}

impl Module {
    /// Gives the struct that `node` defines its fields, read with the
    /// constants known so far: each new name a new field; a repeated name is
    /// reported and left out; a field type that does not read stops the
    /// definition there, leaving the struct's fields as they were.
    #[verifier::loop_isolation(false)]
    pub fn leave_struct_def(&mut self, node: &crate::project::StructDefNode)
        requires
            old(self).fields.len() + node.fields.len() < u32::MAX,
        ensures
            final(self).type_table == old(self).type_table,
            final(self).value_table == old(self).value_table,
            final(self).struct_map == old(self).struct_map,
            final(self).functions == old(self).functions,
            final(self).scopes == old(self).scopes,
            final(self).variables == old(self).variables,
            final(self).file_id == old(self).file_id,
            match node.name {
                Some((n, _)) => match named(old(self).struct_map@, n@) {
                    Some(id) => {
                        let s = struct_scan(old(self), node.fields@);
                        &&& final(self).fields@.len() == old(self).fields@.len() + s.added.len()
                        &&& final(self).fields@.take(old(self).fields@.len() as int) == old(self).fields@
                        &&& forall|i: int|
                            0 <= i < s.added.len() ==> (#[trigger] final(self).fields@[old(self).fields@.len() + i])@
                                == s.added[i]
                        &&& struct_reported(old(self).semantic_errors@, final(self).semantic_errors@, s.reports)
                        &&& if !s.stopped && id.module == old(self).file_id && id.index < old(self).structs.len() {
                            &&& final(self).structs@.len() == old(self).structs@.len()
                            &&& final(self).structs@[id.index as int]@ == (StructView {
                                fields: s.ids,
                                ..old(self).structs@[id.index as int]@
                            })
                            &&& forall|i: int|
                                0 <= i < old(self).structs@.len() && i != id.index ==> #[trigger] final(self).structs@[i]
                                    == old(self).structs@[i]
                        } else {
                            final(self).structs == old(self).structs
                        }
                    },
                    None => final(self).fields == old(self).fields && final(self).structs == old(self).structs
                        && final(self).semantic_errors == old(self).semantic_errors,
                },
                None => final(self).fields == old(self).fields && final(self).structs == old(self).structs
                    && final(self).semantic_errors == old(self).semantic_errors,
            },
    {
        let name = match &node.name {
            Some((n, _)) => n,
            None => return,
        };
        let id = match self.get_struct_id_by_name(name.as_str()) {
            Some(id) => id,
            None => return,
        };
        let ghost m0 = *self;
        let ghost e0 = self.semantic_errors@;
        let ghost f0 = self.fields@;
        proof {
            assert(e0.take(e0.len() as int) =~= e0);
            assert(f0.take(f0.len() as int) =~= f0);
        }
        let mut seen: Vec<(String, bool)> = Vec::new();
        let mut ids: Vec<FieldID> = Vec::new();
        let mut k: usize = 0;
        while k < node.fields.len()
            invariant
                k <= node.fields.len(),
                ({
                    let s = struct_scan(&m0, node.fields@.take(k as int));
                    &&& !s.stopped
                    &&& ids@ == s.ids
                    &&& forall|key: Seq<char>| s.seen.contains(key) <==> (#[trigger] named(seen@, key)) is Some
                    &&& self.fields@.len() == f0.len() + s.added.len()
                    &&& self.fields@.take(f0.len() as int) == f0
                    &&& forall|i: int| 0 <= i < s.added.len() ==> (#[trigger] self.fields@[f0.len() + i])@ == s.added[i]
                    &&& struct_reported(e0, self.semantic_errors@, s.reports)
                }),
                self.type_table == m0.type_table,
                self.value_table == m0.value_table,
                self.struct_map == m0.struct_map,
                self.structs == m0.structs,
                self.functions == m0.functions,
                self.scopes == m0.scopes,
                self.variables == m0.variables,
                self.file_id == m0.file_id,
                self.metadata == m0.metadata,
                self.fields.len() <= f0.len() + k,
            decreases node.fields.len() - k,
        {
            let ghost s = struct_scan(&m0, node.fields@.take(k as int));
            proof {
                assert(node.fields@.take(k + 1).drop_last() =~= node.fields@.take(k as int));
                assert(node.fields@.take(k + 1).last() == node.fields@[k as int]);
                lemma_struct_scan_len(&m0, node.fields@.take(k as int));
            }
            let f = &node.fields[k];
            let ghost e1 = self.semantic_errors@;
            if let (Some((fname, frange)), Some(tn)) = (&f.name, &f.ty) {
                proof {
                    lemma_node_type_frame_vt(&m0, self, *tn);
                }
                let ty = match parse_type_node(self, tn, Some(&self.value_table)) {
                    Ok(Some(t)) => t,
                    Ok(None) => {
                        proof {
                            lemma_struct_scan_stopped(&m0, node.fields@, k + 1);
                        }
                        return;
                    },
                    Err(e) => {
                        self.semantic_errors.push(e);
                        proof {
                            assert(self.semantic_errors@.take(e0.len() as int) =~= e0);
                            let rs = struct_scan(&m0, node.fields@.take(k + 1)).reports;
                            assert forall|i: int| 0 <= i < rs.len() implies reports_struct_def(
                                #[trigger] self.semantic_errors@[e0.len() + i],
                                rs[i],
                            ) by {
                                if i < rs.len() - 1 {
                                    assert(self.semantic_errors@[e0.len() + i] == e1[e0.len() + i]);
                                }
                            }
                            lemma_struct_scan_stopped(&m0, node.fields@, k + 1);
                        }
                        return;
                    },
                };
                let key = fname.clone();
                if crate::module::position_named(&seen, &key).is_some() {
                    self.semantic_errors.push(AnalyzeError::VariableDefined { name: fname.clone(), range: *frange });
                    proof {
                        assert(self.semantic_errors@.take(e0.len() as int) =~= e0);
                        let rs = struct_scan(&m0, node.fields@.take(k + 1)).reports;
                        assert forall|i: int| 0 <= i < rs.len() implies reports_struct_def(
                            #[trigger] self.semantic_errors@[e0.len() + i],
                            rs[i],
                        ) by {
                            if i < rs.len() - 1 {
                                assert(self.semantic_errors@[e0.len() + i] == e1[e0.len() + i]);
                            }
                        }
                    }
                } else {
                    let ghost seen0 = seen@;
                    let ghost kg = key;
                    let fid = self.new_field(fname.clone(), ty, *frange);
                    ids.push(fid);
                    seen.push((key, true));
                    proof {
                        assert forall|k2: Seq<char>| #[trigger] named(seen@, k2) == (if named(seen0, k2) is Some {
                            named(seen0, k2)
                        } else if fname@ == k2 {
                            Some(true)
                        } else {
                            None
                        }) by {
                            crate::module::lemma_named_push(seen0, kg, true, k2);
                        }
                        assert(self.fields@.take(f0.len() as int) =~= f0);
                    }
                }
            }
            k += 1;
        }
        proof {
            assert(node.fields@.take(node.fields.len() as int) =~= node.fields@);
        }
        if id.module == self.file_id && (id.index as usize) < self.structs.len() {
            let i = id.index as usize;
            let old_s = &self.structs[i];
            let ns = crate::module::Struct { name: old_s.name.clone(), fields: ids, range: old_s.range };
            self.structs.set(i, ns);
        }
    }
}

proof fn lemma_struct_scan_stopped(m: &Module, fs: Seq<FieldNode>, j: int)
    requires
        0 <= j <= fs.len(),
        struct_scan(m, fs.take(j)).stopped,
    ensures
        struct_scan(m, fs) == struct_scan(m, fs.take(j)),
    decreases fs.len() - j,
{
    if j < fs.len() {
        assert(fs.take(j + 1).drop_last() =~= fs.take(j));
        lemma_struct_scan_stopped(m, fs, j + 1);
    } else {
        assert(fs.take(j) =~= fs);
    }
}

/// Read with the same constants and struct names, a type node reads the same.
proof fn lemma_node_type_frame_vt(a: &Module, b: &Module, n: TypeNode)
    requires
        a.value_table == b.value_table,
        a.struct_map == b.struct_map,
        a.structs == b.structs,
        a.file_id == b.file_id,
        a.metadata == b.metadata,
    ensures
        node_type(*a, n, Some(a.value_table@)) == node_type(*b, n, Some(b.value_table@)),
    decreases n,
{
    match n.kind {
        crate::typenode::TypeNodeKind::Array { inner, size } => {
            match inner {
                Some(i) => lemma_node_type_frame_vt(a, b, *i),
                None => {},
            }
            match size {
                Some(sz) => match at_range(a.value_table@, sz.range) {
                    Some(v) => match v@ {
                        ValueView::Struct(id, _) => assert(a.struct_at(id) == b.struct_at(id)),
                        ValueView::StructZero(id) => assert(a.struct_at(id) == b.struct_at(id)),
                        _ => {},
                    },
                    None => {},
                },
                None => {},
            }
        },
        crate::typenode::TypeNodeKind::Pointer { inner, .. } => match inner {
            Some(i) => lemma_node_type_frame_vt(a, b, *i),
            None => {},
        },
        _ => {},
    }
}

} // verus!
