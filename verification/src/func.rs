//! Functions and statements: the scopes that function bodies and blocks
//! open, function signatures and parameters, loops, `break`, `continue`,
//! `return` and assignments.

use vstd::prelude::*;

use crate::error::AnalyzeError;
use crate::expr::{is_lvalue, is_lvalue_expr, resolve, same_tables, ExprShape};
use crate::literal::type_at;
use crate::module::{
    at_range, bind_name, lookup_from, named, scopes_wf, FunctionView, Module, ScopeID, TextRange, VariableID,
};
use crate::typenode::{is_invalid_void_usage, is_issue, node_type, parse_type_node, void_use, TypeIssue, TypeNode};
use crate::types::{assignable, const_type, Ty, TyView};

verus! {

/// Whether two states of a module differ at most in their scopes, their
/// current scope, return type and loop depth, and their errors.
pub open spec fn same_except_scopes(a: &Module, b: &Module) -> bool {
    &&& a.file_id == b.file_id
    &&& a.variables == b.variables
    &&& a.functions == b.functions
    &&& a.structs == b.structs
    &&& a.fields == b.fields
    &&& a.type_table == b.type_table
    &&& a.value_table == b.value_table
    &&& a.variable_map == b.variable_map
    &&& a.struct_map == b.struct_map
    &&& a.function_map == b.function_map
    &&& a.metadata == b.metadata
    &&& a.reference == b.reference
}

impl Module {
    /// Opens the global scope of a file spanning `range`, and makes it both
    /// the global and the current scope.
    pub fn enter_comp_unit(&mut self, range: TextRange)
        requires
            old(self).scopes.len() < u32::MAX,
        ensures
            same_except_scopes(old(self), final(self)),
            final(self).semantic_errors == old(self).semantic_errors,
            final(self).current_scope == ScopeID(old(self).scopes.len() as u32),
            final(self).global_scope == final(self).current_scope,
            final(self).scopes@.len() == old(self).scopes@.len() + 1,
            final(self).scopes@.drop_last() == old(self).scopes@,
            final(self).scopes@.last().parent is None,
            final(self).scopes@.last().range == range,
            final(self).scopes@.last().variables@.len() == 0,
    {
        self.current_scope = self.new_scope(None, range);
        self.global_scope = self.current_scope;
        assert(self.scopes@.drop_last() =~= old(self).scopes@);
    }

    /// Opens the scope of a function body at `range`, inside the current one.
    pub fn enter_func_def(&mut self, range: TextRange)
        requires
            old(self).scopes.len() < u32::MAX,
        ensures
            same_except_scopes(old(self), final(self)),
            final(self).semantic_errors == old(self).semantic_errors,
            final(self).current_scope == ScopeID(old(self).scopes.len() as u32),
            final(self).scopes@.len() == old(self).scopes@.len() + 1,
            final(self).scopes@.drop_last() == old(self).scopes@,
            final(self).scopes@.last().parent == Some(old(self).current_scope),
            final(self).scopes@.last().range == range,
            final(self).scopes@.last().variables@.len() == 0,
    {
        let cur = self.current_scope;
        self.current_scope = self.new_scope(Some(cur), range);
        assert(self.scopes@.drop_last() =~= old(self).scopes@);
    }

    /// Opens the scope of a block at `range`, inside the current one.
    pub fn enter_block(&mut self, range: TextRange)
        requires
            old(self).scopes.len() < u32::MAX,
        ensures
            same_except_scopes(old(self), final(self)),
            final(self).semantic_errors == old(self).semantic_errors,
            final(self).current_scope == ScopeID(old(self).scopes.len() as u32),
            final(self).scopes@.len() == old(self).scopes@.len() + 1,
            final(self).scopes@.drop_last() == old(self).scopes@,
            final(self).scopes@.last().parent == Some(old(self).current_scope),
            final(self).scopes@.last().range == range,
    {
        self.enter_func_def(range);
    }

    /// Leaves a function body: back to the scope around it, outside any function.
    pub fn leave_func_def(&mut self)
        ensures
            same_except_scopes(old(self), final(self)),
            final(self).scopes == old(self).scopes,
            final(self).semantic_errors == old(self).semantic_errors,
            ({
                let c = old(self).current_scope.0;
                if c < old(self).scopes.len() && old(self).scopes@[c as int].parent is Some {
                    &&& final(self).current_scope == old(self).scopes@[c as int].parent->0
                    &&& final(self).current_function_ret_type is None
                } else {
                    &&& final(self).current_scope == old(self).current_scope
                    &&& final(self).current_function_ret_type == old(self).current_function_ret_type
                }
            }),
    {
        let c = self.current_scope.0 as usize;
        if c < self.scopes.len() {
            if let Some(p) = self.scopes[c].parent {
                self.current_scope = p;
                self.current_function_ret_type = None;
            }
        }
    }

    /// Leaves the body of a function implementation, as `leave_func_def` does.
    pub fn leave_func_attach(&mut self)
        ensures
            same_except_scopes(old(self), final(self)),
            final(self).scopes == old(self).scopes,
            final(self).semantic_errors == old(self).semantic_errors,
            ({
                let c = old(self).current_scope.0;
                if c < old(self).scopes.len() && old(self).scopes@[c as int].parent is Some {
                    &&& final(self).current_scope == old(self).scopes@[c as int].parent->0
                    &&& final(self).current_function_ret_type is None
                } else {
                    &&& final(self).current_scope == old(self).current_scope
                    &&& final(self).current_function_ret_type == old(self).current_function_ret_type
                }
            }),
    {
        self.leave_func_def();
    }

    /// Leaves a block: back to the scope around it.
    pub fn leave_block(&mut self)
        requires
            old(self).current_scope.0 < old(self).scopes.len(),
            old(self).scopes@[old(self).current_scope.0 as int].parent is Some,
        ensures
            same_except_scopes(old(self), final(self)),
            final(self).scopes == old(self).scopes,
            final(self).semantic_errors == old(self).semantic_errors,
            final(self).current_function_ret_type == old(self).current_function_ret_type,
            final(self).current_scope == old(self).scopes@[old(self).current_scope.0 as int].parent->0,
    {
        let c = self.current_scope.0 as usize;
        if let Some(p) = self.scopes[c].parent {
            self.current_scope = p;
        }
    }

    /// Enters the body of a loop.
    pub fn enter_while_stmt(&mut self)
        requires
            old(self).loop_depth < usize::MAX,
        ensures
            final(self).loop_depth == old(self).loop_depth + 1,
            same_except_scopes(old(self), final(self)),
            final(self).scopes == old(self).scopes,
            final(self).current_scope == old(self).current_scope,
            final(self).semantic_errors == old(self).semantic_errors,
    {
        self.loop_depth = self.loop_depth + 1;
    }

    /// Leaves the body of a loop.
    pub fn leave_while_stmt(&mut self)
        requires
            old(self).loop_depth > 0,
        ensures
            final(self).loop_depth == old(self).loop_depth - 1,
            same_except_scopes(old(self), final(self)),
            final(self).scopes == old(self).scopes,
            final(self).current_scope == old(self).current_scope,
            final(self).semantic_errors == old(self).semantic_errors,
    {
        self.loop_depth = self.loop_depth - 1;
    }

    /// Reports a `break` at `range` outside any loop.
    pub fn enter_break_stmt(&mut self, range: TextRange)
        ensures
            same_except_scopes(old(self), final(self)),
            final(self).scopes == old(self).scopes,
            final(self).current_scope == old(self).current_scope,
            final(self).loop_depth == old(self).loop_depth,
            if old(self).loop_depth == 0 {
                &&& final(self).semantic_errors@.len() == old(self).semantic_errors@.len() + 1
                &&& final(self).semantic_errors@.drop_last() == old(self).semantic_errors@
                &&& final(self).semantic_errors@.last() matches AnalyzeError::BreakOutsideLoop { range: r } && r == range
            } else {
                final(self).semantic_errors == old(self).semantic_errors
            },
    {
        if self.loop_depth == 0 {
            self.semantic_errors.push(AnalyzeError::BreakOutsideLoop { range });
            assert(self.semantic_errors@.drop_last() =~= old(self).semantic_errors@);
        }
    }

    /// Reports a `continue` at `range` outside any loop.
    pub fn enter_continue_stmt(&mut self, range: TextRange)
        ensures
            same_except_scopes(old(self), final(self)),
            final(self).scopes == old(self).scopes,
            final(self).current_scope == old(self).current_scope,
            final(self).loop_depth == old(self).loop_depth,
            if old(self).loop_depth == 0 {
                &&& final(self).semantic_errors@.len() == old(self).semantic_errors@.len() + 1
                &&& final(self).semantic_errors@.drop_last() == old(self).semantic_errors@
                &&& final(self).semantic_errors@.last() matches AnalyzeError::ContinueOutsideLoop { range: r } && r == range
            } else {
                final(self).semantic_errors == old(self).semantic_errors
            },
    {
        if self.loop_depth == 0 {
            self.semantic_errors.push(AnalyzeError::ContinueOutsideLoop { range });
            assert(self.semantic_errors@.drop_last() =~= old(self).semantic_errors@);
        }
    }

    /// Checks the value of a `return` at `range` (whose expression, if any,
    /// is at `expr`) against the return type of the function it is in.
    pub fn leave_return_stmt(&mut self, range: TextRange, expr: Option<TextRange>)
        ensures
            same_except_scopes(old(self), final(self)),
            final(self).scopes == old(self).scopes,
            final(self).current_scope == old(self).current_scope,
            ({
                let found = match expr {
                    Some(e) => type_at(old(self).type_table@, e),
                    None => Some(TyView::Void),
                };
                match (old(self).current_function_ret_type, found) {
                    (Some(expected), Some(f)) => if !assignable(expected@, f) {
                        &&& final(self).semantic_errors@.len() == old(self).semantic_errors@.len() + 1
                        &&& final(self).semantic_errors@.drop_last() == old(self).semantic_errors@
                        &&& final(self).semantic_errors@.last() matches AnalyzeError::ReturnTypeMismatch {
                            expected: x,
                            found: y,
                            range: r,
                        } && x@ == expected@ && y@ == f && r == range
                    } else {
                        final(self).semantic_errors == old(self).semantic_errors
                    },
                    _ => final(self).semantic_errors == old(self).semantic_errors,
                }
            }),
    {
        let expected = match &self.current_function_ret_type {
            Some(t) => t.clone(),
            None => return,
        };
        let found = match expr {
            Some(e) => match self.get_expr_type(e) {
                Some(t) => t.clone(),
                None => return,
            },
            None => Ty::Void,
        };
        if !expected.assign_to_me_is_ok(&found) {
            self.semantic_errors.push(AnalyzeError::ReturnTypeMismatch { expected, found, range });
            assert(self.semantic_errors@.drop_last() =~= old(self).semantic_errors@);
        }
    }
}

// ---------------------------------------------------------------------------
// Parameters and signatures
// ---------------------------------------------------------------------------

/// A parameter of a function definition: `...`, or its name with the name's
/// range and its type node.
#[derive(Debug)]
pub struct FuncFParamNode {
    pub is_variadic: bool,
    pub name: Option<(String, TextRange)>,
    pub ty: Option<TypeNode>,
}

/// An error that a parameter can report, as a mathematical value.
pub enum ParamReport {
    Type(TypeIssue),
    InvalidVoidUsage(TextRange),
    VariableDefined(Seq<char>, TextRange),
}

pub open spec fn reports_param(e: AnalyzeError, r: ParamReport) -> bool {
    match r {
        ParamReport::Type(i) => is_issue(e, i),
        ParamReport::InvalidVoidUsage(x) => e matches AnalyzeError::InvalidVoidUsage { range } && range == x,
        ParamReport::VariableDefined(n, x) => e matches AnalyzeError::VariableDefined { name, range } && name@ == n
            && range == x,
    }
}

/// What a parameter does: the error it reports, or the type of the variable
/// it declares in the current scope.
pub open spec fn param_effect(m: &Module, node: &FuncFParamNode) -> (Option<ParamReport>, Option<TyView>) {
    if node.is_variadic {
        (None, None)
    } else {
        match (node.name, node.ty) {
            (Some((name, r)), Some(tn)) => match node_type(*m, tn, Some(m.value_table@)) {
                Err(i) => (Some(ParamReport::Type(i)), None),
                Ok(None) => (None, None),
                Ok(Some(t)) => if void_use(t) {
                    (Some(ParamReport::InvalidVoidUsage(tn.range)), None)
                } else if named(m.scopes@[m.current_scope.0 as int].variables@, name@) is Some {
                    (Some(ParamReport::VariableDefined(name@, r)), None)
                } else {
                    (None, Some(t))
                },
            },
            _ => (None, None),
        }
    }
}

impl Module {
    /// Declares a parameter of the function being defined in the current
    /// scope, after checking its type and that the name is free there.
    pub fn leave_func_f_param(&mut self, node: &FuncFParamNode)
        requires
            old(self).current_scope.0 < old(self).scopes.len(),
            old(self).variables.len() < u32::MAX,
        ensures
            final(self).type_table == old(self).type_table,
            final(self).value_table == old(self).value_table,
            final(self).current_scope == old(self).current_scope,
            final(self).functions == old(self).functions,
            final(self).structs == old(self).structs,
            final(self).fields == old(self).fields,
            final(self).scopes@.len() == old(self).scopes@.len(),
            match param_effect(old(self), node).0 {
                Some(r) => final(self).semantic_errors@.len() == old(self).semantic_errors@.len() + 1
                    && final(self).semantic_errors@.drop_last() == old(self).semantic_errors@ && reports_param(
                    final(self).semantic_errors@.last(),
                    r,
                ),
                None => final(self).semantic_errors == old(self).semantic_errors,
            },
            match param_effect(old(self), node).1 {
                Some(t) => {
                    let id = VariableID(old(self).variables.len() as u32);
                    let (name, r) = node.name->0;
                    &&& final(self).variables@.len() == old(self).variables@.len() + 1
                    &&& final(self).variables@.drop_last() == old(self).variables@
                    &&& final(self).variables@.last().name@ == name@
                    &&& final(self).variables@.last().ty@ == t
                    &&& final(self).variables@.last().range == r
                    &&& at_range(final(self).variable_map@, r) == Some(id)
                    &&& named(final(self).scopes@[old(self).current_scope.0 as int].variables@, name@) == Some(id)
                    &&& forall|i: int|
                        0 <= i < old(self).scopes@.len() && i != old(self).current_scope.0 ==> #[trigger] final(self).scopes@[i]
                            == old(self).scopes@[i]
                },
                None => {
                    &&& final(self).variables == old(self).variables
                    &&& final(self).scopes == old(self).scopes
                    &&& final(self).variable_map == old(self).variable_map
                },
            },
    {
        if node.is_variadic {
            return;
        }
        let (name, range) = match &node.name {
            Some((n, r)) => (n, *r),
            None => return,
        };
        let ty_node = match &node.ty {
            Some(t) => t,
            None => return,
        };
        let param_type = match parse_type_node(self, ty_node, Some(&self.value_table)) {
            Ok(Some(t)) => t,
            Ok(None) => return,
            Err(e) => {
                self.semantic_errors.push(e);
                return;
            },
        };
        if is_invalid_void_usage(&param_type) {
            self.semantic_errors.push(AnalyzeError::InvalidVoidUsage { range: ty_node.range });
            return;
        }
        let cur = self.current_scope.0 as usize;
        if self.scopes[cur].have_variable_def(name.as_str()) {
            self.semantic_errors.push(AnalyzeError::VariableDefined { name: name.clone(), range });
            return;
        }
        let mut scope = self.scopes.remove(cur);
        scope.new_variable(&mut self.variables, &mut self.variable_map, name.clone(), param_type, range);
        self.scopes.insert(cur, scope);
        proof {
            assert(self.variables@.drop_last() =~= old(self).variables@);
        }
    }
}

/// A parameter of a signature as the signature sees it: `...`, or its name.
#[derive(Debug)]
pub struct SignParam {
    pub is_variadic: bool,
    pub ident: Option<String>,
}

/// A function signature: the function's name, its parameters, its return
/// type node, and whether a body follows it.
#[derive(Debug)]
pub struct FuncSignNode {
    pub name: Option<String>,
    pub params: Option<Vec<SignParam>>,
    pub ret_type: Option<TypeNode>,
    pub has_block: bool,
}

/// The parameters of a signature, read from the variables they declared in
/// `scope`: their ids, names and types, and whether a `...` ends the list;
/// `None` when a parameter has no name or no variable.
pub open spec fn sign_params(m: &Module, scope: crate::module::Scope, ps: Seq<SignParam>) -> Option<
    (Seq<VariableID>, Seq<(Seq<char>, TyView)>, bool),
>
    decreases ps.len(),
{
    if ps.len() == 0 {
        Some((Seq::empty(), Seq::empty(), false))
    } else if ps[0].is_variadic {
        Some((Seq::empty(), Seq::empty(), true))
    } else {
        match ps[0].ident {
            None => None,
            Some(n) => match lookup_from(m.scopes@, scope, n@) {
                None => None,
                Some(vid) => if vid.0 < m.variables.len() {
                    match sign_params(m, scope, ps.drop_first()) {
                        None => None,
                        Some((ids, metas, v)) => Some(
                            (seq![vid] + ids, seq![(n@, m.variables@[vid.0 as int].ty@)] + metas, v),
                        ),
                    }
                } else {
                    None
                },
            },
        }
    }
}

/// What a signature does when it reads: the parameters (or `None` when one
/// does not read), and the return type or the issue with it.
pub open spec fn sign_effect(m: &Module, node: &FuncSignNode) -> Option<(Seq<VariableID>, Seq<(Seq<char>, TyView)>, bool, Result<Option<TyView>, TypeIssue>)> {
    let scope = m.scopes@[m.current_scope.0 as int];
    let params = match node.params {
        Some(ps) => sign_params(m, scope, ps@),
        None => Some((Seq::empty(), Seq::empty(), false)),
    };
    match params {
        None => None,
        Some((ids, metas, v)) => Some(
            (
                ids,
                metas,
                v,
                match node.ret_type {
                    Some(tn) => node_type(*m, tn, Some(m.value_table@)),
                    None => Ok(Some(TyView::Void)),
                },
            ),
        ),
    }
}

impl Module {
    fn sign_params_exec(&self, scope: &crate::module::Scope, ps: &Vec<SignParam>) -> (r: Option<
        (Vec<VariableID>, Vec<(String, Ty)>, bool),
    >)
        requires
            scopes_wf(self.scopes@),
            scope.parent matches Some(p) ==> (p.0 as int) < self.scopes@.len(),
        ensures
            match (r, sign_params(self, *scope, ps@)) {
                (Some((ids, metas, v)), Some((ids2, metas2, v2))) => ids@ == ids2 && crate::module::metas_view(metas@)
                    == metas2 && v == v2,
                (None, None) => true,
                _ => false,
            },
    {
        let mut ids: Vec<VariableID> = Vec::new();
        let mut metas: Vec<(String, Ty)> = Vec::new();
        let mut k: usize = 0;
        assert(ps@.skip(0) =~= ps@);
        while k < ps.len()
            invariant
                k <= ps.len(),
                scopes_wf(self.scopes@),
                scope.parent matches Some(p) ==> (p.0 as int) < self.scopes@.len(),
                match sign_params(self, *scope, ps@) {
                    None => sign_params(self, *scope, ps@.skip(k as int)) is None,
                    Some((i1, m1, v1)) => sign_params(self, *scope, ps@.skip(k as int)) matches Some((i2, m2, v2)) && i1
                        == ids@ + i2 && m1 == crate::module::metas_view(metas@) + m2 && v1 == v2,
                },
            decreases ps.len() - k,
        {
            let ghost rest = ps@.skip(k as int);
            proof {
                assert(rest.drop_first() =~= ps@.skip(k + 1));
                assert(rest[0] == ps@[k as int]);
            }
            let p = &ps[k];
            if p.is_variadic {
                proof {
                    assert(ids@ + Seq::<VariableID>::empty() =~= ids@);
                    assert(crate::module::metas_view(metas@) + Seq::<(Seq<char>, TyView)>::empty() =~= crate::module::metas_view(
                        metas@,
                    ));
                }
                return Some((ids, metas, true));
            }
            let name = match &p.ident {
                Some(n) => n,
                None => return None,
            };
            proof {
                if let Some(pp) = scope.parent {
                    crate::module::lemma_chain_lookup_wf(self.scopes@, pp.0 as int, name@, self.scopes@.len());
                    assert(ScopeID(pp.0 as int as u32) == pp);
                }
            }
            let vid = match scope.look_up_variable(self, name.as_str()) {
                Some(v) => v,
                None => return None,
            };
            let var = match self.get_varaible_by_id(vid) {
                Some(v) => v,
                None => return None,
            };
            let ghost before_ids = ids@;
            let ghost before_metas = crate::module::metas_view(metas@);
            ids.push(vid);
            metas.push((name.clone(), var.ty.clone()));
            proof {
                assert(ids@ =~= before_ids + seq![vid]);
                assert(crate::module::metas_view(metas@) =~= before_metas + seq![(name@, var.ty@)]);
                match sign_params(self, *scope, ps@) {
                    Some((i1, m1, v1)) => {
                        let (ri, rm, rv) = sign_params(self, *scope, ps@.skip(k + 1))->0;
                        assert(i1 == ids@ + ri) by {
                            assert(before_ids + (seq![vid] + ri) =~= ids@ + ri);
                        }
                        assert(m1 == crate::module::metas_view(metas@) + rm) by {
                            assert(before_metas + (seq![(name@, var.ty@)] + rm) =~= crate::module::metas_view(metas@) + rm);
                        }
                    },
                    None => {},
                }
            }
            k += 1;
        }
        proof {
            assert(ids@ + Seq::<VariableID>::empty() =~= ids@);
            assert(crate::module::metas_view(metas@) + Seq::<(Seq<char>, TyView)>::empty() =~= crate::module::metas_view(
                metas@,
            ));
        }
        Some((ids, metas, false))
    }

    /// Completes the declaration of the function that `node` signs: its
    /// parameters (the variables the parameters declared in the current
    /// scope), their names and types, its return type, whether it has a body
    /// and whether it is variadic; and makes the return type the one that
    /// `return` statements are checked against.
    pub fn leave_func_sign(&mut self, node: &FuncSignNode)
        requires
            scopes_wf(old(self).scopes@),
            old(self).current_scope.0 < old(self).scopes.len(),
        ensures
            final(self).type_table == old(self).type_table,
            final(self).value_table == old(self).value_table,
            final(self).scopes == old(self).scopes,
            final(self).variables == old(self).variables,
            final(self).current_scope == old(self).current_scope,
            final(self).function_map == old(self).function_map,
            final(self).functions@.len() == old(self).functions@.len(),
            match sign_effect(old(self), node) {
                Some((ids, metas, variadic, ret)) => match ret {
                    Err(i) => final(self).semantic_errors@.len() == old(self).semantic_errors@.len() + 1
                        && final(self).semantic_errors@.drop_last() == old(self).semantic_errors@ && is_issue(
                        final(self).semantic_errors@.last(),
                        i,
                    ) && final(self).functions == old(self).functions,
                    Ok(None) => final(self).semantic_errors == old(self).semantic_errors && final(self).functions
                        == old(self).functions,
                    Ok(Some(t)) => {
                        &&& final(self).semantic_errors == old(self).semantic_errors
                        &&& match node.name {
                            Some(n) => {
                                &&& final(self).current_function_ret_type matches Some(x) && x@ == t
                                &&& match named(old(self).function_map@, n@) {
                                    Some(fid) => if fid.module == old(self).file_id && fid.index < old(self).functions.len() {
                                        &&& final(self).functions@[fid.index as int]@ == (FunctionView {
                                            params: ids,
                                            meta_types: metas,
                                            ret_type: t,
                                            have_impl: node.has_block,
                                            is_variadic: variadic,
                                            ..old(self).functions@[fid.index as int]@
                                        })
                                        &&& forall|i: int|
                                            0 <= i < old(self).functions@.len() && i != fid.index ==> #[trigger] final(self).functions@[i] == old(self).functions@[i]
                                    } else {
                                        final(self).functions == old(self).functions
                                    },
                                    None => final(self).functions == old(self).functions,
                                }
                            },
                            None => final(self).functions == old(self).functions,
                        }
                    },
                },
                None => final(self).semantic_errors == old(self).semantic_errors && final(self).functions == old(self).functions,
            },
    {
        let cur = self.current_scope.0 as usize;
        let (ids, metas, variadic) = match &node.params {
            Some(ps) => {
                let scope = &self.scopes[cur];
                proof {
                    assert(scopes_wf(self.scopes@));
                    assert(self.scopes@[cur as int] == *scope);
                }
                match self.sign_params_exec(scope, ps) {
                    Some(x) => x,
                    None => return,
                }
            },
            None => (Vec::new(), Vec::new(), false),
        };
        proof {
            assert(crate::module::metas_view(Seq::<(String, Ty)>::empty()) =~= Seq::<(Seq<char>, TyView)>::empty());
        }
        let ret_type = match &node.ret_type {
            Some(tn) => match parse_type_node(self, tn, Some(&self.value_table)) {
                Ok(Some(t)) => t,
                Ok(None) => return,
                Err(e) => {
                    self.semantic_errors.push(e);
                    return;
                },
            },
            None => Ty::Void,
        };
        let name = match &node.name {
            Some(n) => n,
            None => return,
        };
        if let Some(fid) = self.get_function_id_by_name(name.as_str()) {
            if fid.module == self.file_id && (fid.index as usize) < self.functions.len() {
                let i = fid.index as usize;
                let f = &self.functions[i];
                let nf = crate::module::Function {
                    name: f.name.clone(),
                    params: ids,
                    meta_types: metas,
                    ret_type: ret_type.clone(),
                    have_impl: node.has_block,
                    is_variadic: variadic,
                    range: f.range,
                };
                self.functions.set(i, nf);
            }
        }
        self.current_function_ret_type = Some(ret_type);
    }
}

// ---------------------------------------------------------------------------
// Implementations of declared functions
// ---------------------------------------------------------------------------

/// What entering the implementation of a declared function reports, as a
/// mathematical value.
pub enum AttachReport {
    FunctionUndefined(Seq<char>, TextRange),
    ImplementExternalFunction(Seq<char>, TextRange),
    FunctionImplemented(Seq<char>, TextRange),
}

pub open spec fn reports_attach(e: AnalyzeError, r: AttachReport) -> bool {
    match r {
        AttachReport::FunctionUndefined(n, x) => e matches AnalyzeError::FunctionUndefined { name, range } && name@ == n
            && range == x,
        AttachReport::ImplementExternalFunction(n, x) => e matches AnalyzeError::ImplementExternalFunction {
            name,
            range,
        } && name@ == n && range == x,
        AttachReport::FunctionImplemented(n, x) => e matches AnalyzeError::FunctionImplemented { name, range }
            && name@ == n && range == x,
    }
}

/// The bindings that the parameters of `f` add to a scope, in order.
pub open spec fn param_bindings(f: FunctionView) -> Seq<(Seq<char>, VariableID)> {
    let n = if f.params.len() < f.meta_types.len() {
        f.params.len()
    } else {
        f.meta_types.len()
    };
    Seq::new(n, |i: int| (f.meta_types[i].0, f.params[i]))
}

/// The name bound last in `bs` to `key`, or what `base` binds it to.
pub open spec fn rebound(base: Option<VariableID>, bs: Seq<(Seq<char>, VariableID)>, key: Seq<char>) -> Option<VariableID>
    decreases bs.len(),
{
    if bs.len() == 0 {
        base
    } else if bs.last().0 == key {
        Some(bs.last().1)
    } else {
        rebound(base, bs.drop_last(), key)
    }
}

impl Module {
    /// Opens the scope of the body of a declared function at `range` and
    /// checks that the function exists, is this file's, and has no body yet;
    /// then marks it implemented, binds its parameters in the new scope and
    /// makes its return type the one that `return` is checked against.
    #[verifier::loop_isolation(false)]
    pub fn enter_func_attach(&mut self, range: TextRange, name: &Option<(String, TextRange)>)
        requires
            old(self).scopes.len() < u32::MAX,
        ensures
            final(self).current_scope == ScopeID(old(self).scopes.len() as u32),
            final(self).scopes@.len() == old(self).scopes@.len() + 1,
            final(self).scopes@.drop_last() == old(self).scopes@,
            final(self).scopes@.last().parent == Some(old(self).current_scope),
            final(self).scopes@.last().range == range,
            final(self).type_table == old(self).type_table,
            final(self).value_table == old(self).value_table,
            final(self).variables == old(self).variables,
            match name {
                None => final(self).semantic_errors == old(self).semantic_errors && final(self).functions == old(self).functions && final(self).scopes@.last().variables@.len() == 0,
                Some((n, nr)) => match named(old(self).function_map@, n@) {
                    None => final(self).semantic_errors@ == old(self).semantic_errors@.push(final(self).semantic_errors@.last())
                        && reports_attach(final(self).semantic_errors@.last(), AttachReport::FunctionUndefined(n@, *nr))
                        && final(self).functions == old(self).functions,
                    Some(fid) => if fid.module != old(self).file_id {
                        final(self).semantic_errors@ == old(self).semantic_errors@.push(final(self).semantic_errors@.last())
                            && reports_attach(
                            final(self).semantic_errors@.last(),
                            AttachReport::ImplementExternalFunction(n@, *nr),
                        ) && final(self).functions == old(self).functions
                    } else if fid.index >= old(self).functions.len() {
                        final(self).semantic_errors == old(self).semantic_errors && final(self).functions == old(self).functions
                    } else if old(self).functions@[fid.index as int].have_impl {
                        final(self).semantic_errors@ == old(self).semantic_errors@.push(final(self).semantic_errors@.last())
                            && reports_attach(
                            final(self).semantic_errors@.last(),
                            AttachReport::FunctionImplemented(n@, *nr),
                        ) && final(self).functions == old(self).functions
                    } else {
                        let f = old(self).functions@[fid.index as int]@;
                        &&& final(self).semantic_errors == old(self).semantic_errors
                        &&& final(self).functions@[fid.index as int]@ == (FunctionView { have_impl: true, ..f })
                        &&& forall|i: int|
                            0 <= i < old(self).functions@.len() && i != fid.index ==> #[trigger] final(self).functions@[i]
                                == old(self).functions@[i]
                        &&& final(self).functions@.len() == old(self).functions@.len()
                        &&& forall|key: Seq<char>|
                            #[trigger] named(final(self).scopes@.last().variables@, key) == rebound(
                                None,
                                param_bindings(f),
                                key,
                            )
                        &&& final(self).current_function_ret_type matches Some(t) && t@ == f.ret_type
                    },
                },
            },
    {
        let cur = self.current_scope;
        let s = self.new_scope(Some(cur), range);
        self.current_scope = s;
        proof {
            assert(self.scopes@.drop_last() =~= old(self).scopes@);
        }
        let (n, nr) = match name {
            Some((n, r)) => (n, *r),
            None => return,
        };
        let fid = match self.get_function_id_by_name(n.as_str()) {
            Some(f) => f,
            None => {
                self.semantic_errors.push(AnalyzeError::FunctionUndefined { name: n.clone(), range: nr });
                return;
            },
        };
        if fid.module != self.file_id {
            self.semantic_errors.push(AnalyzeError::ImplementExternalFunction { name: n.clone(), range: nr });
            return;
        }
        let i = fid.index as usize;
        if i >= self.functions.len() {
            return;
        }
        if self.functions[i].have_impl {
            self.semantic_errors.push(AnalyzeError::FunctionImplemented { name: n.clone(), range: nr });
            return;
        }
        let f = self.functions[i].duplicate();
        let ghost fv = f@;
        let nf = crate::module::Function {
            name: f.name.clone(),
            params: f.params.clone(),
            meta_types: f.meta_types,
            ret_type: f.ret_type.duplicate(),
            have_impl: true,
            is_variadic: f.is_variadic,
            range: f.range,
        };
        let ret = f.ret_type;
        let ghost nfv = nf@;
        self.functions.set(i, nf);
        proof {
            assert(nfv == (FunctionView { have_impl: true, ..fv }));
        }
        let last = self.scopes.len() - 1;
        let mut scope = self.scopes.remove(last);
        let mut k: usize = 0;
        let ghost bs = param_bindings(fv);
        let count = if self.functions[i].params.len() < self.functions[i].meta_types.len() {
            self.functions[i].params.len()
        } else {
            self.functions[i].meta_types.len()
        };
        while k < count
            invariant
                k <= count,
                count == bs.len(),
                self.functions@[i as int]@ == nfv,
                nfv == (FunctionView { have_impl: true, ..fv }),
                scope.parent == Some(cur),
                scope.range == range,
                forall|key: Seq<char>| #[trigger] named(scope.variables@, key) == rebound(None, bs.take(k as int), key),
            decreases count - k,
        {
            let pname = self.functions[i].meta_types[k].0.clone();
            let vid = self.functions[i].params[k];
            proof {
                assert(bs.take(k + 1).drop_last() =~= bs.take(k as int));
                assert(bs.take(k + 1).last() == (pname@, vid));
            }
            bind_name(&mut scope.variables, pname, vid);
            k += 1;
        }
        proof {
            assert(bs.take(count as int) =~= bs);
        }
        self.scopes.push(scope);
        self.current_function_ret_type = Some(ret);
    }
}

// ---------------------------------------------------------------------------
// Assignments
// ---------------------------------------------------------------------------

/// The left side of an assignment: its range, the range without trivia, its
/// form, and for a variable use, the variable's name with its range.
#[derive(Debug)]
pub struct LhsNode {
    pub range: TextRange,
    pub trimmed: TextRange,
    pub shape: ExprShape,
    pub name: Option<(String, TextRange)>,
}

/// An assignment: its left side and the range of its right side.
#[derive(Debug)]
pub struct AssignStmtNode {
    pub lhs: Option<LhsNode>,
    pub rhs: Option<TextRange>,
}

/// An error that an assignment can report, as a mathematical value.
pub enum AssignReport {
    NotALValue(TextRange),
    AssignToConst(Seq<char>, TextRange),
    TypeMismatch(TyView, TyView, TextRange),
}

pub open spec fn reports_assign(e: AnalyzeError, r: AssignReport) -> bool {
    match r {
        AssignReport::NotALValue(x) => e matches AnalyzeError::NotALValue { range } && range == x,
        AssignReport::AssignToConst(n, x) => e matches AnalyzeError::AssignToConst { name, range } && name@ == n
            && range == x,
        AssignReport::TypeMismatch(a, b, x) => e matches AnalyzeError::TypeMismatch { expected, found, range }
            && expected@ == a && found@ == b && range == x,
    }
}

/// Whether the place `lhs` may be assigned: `Ok(true)`, `Ok(false)` when
/// that cannot be told, or the report of a read-only place.
pub open spec fn assignable_place(m: &Module, lhs: LhsNode) -> Result<bool, AssignReport> {
    match lhs.shape {
        ExprShape::IndexVal => match lhs.name {
            Some((n, nr)) => match resolve(m, n@) {
                Some(id) => match type_at(m.type_table@, lhs.range) {
                    Some(t) => if const_type(m.variables@[id.0 as int].ty@) || const_type(t) {
                        Err(AssignReport::AssignToConst(n@, nr))
                    } else {
                        Ok(true)
                    },
                    None => Ok(false),
                },
                None => Ok(false),
            },
            None => Ok(false),
        },
        ExprShape::PostfixExpr => match type_at(m.type_table@, lhs.range) {
            Some(t) => if const_type(t) {
                Err(AssignReport::AssignToConst("field"@, lhs.trimmed))
            } else {
                Ok(true)
            },
            None => Ok(false),
        },
        ExprShape::UnaryExpr(_) => match type_at(m.type_table@, lhs.range) {
            Some(t) => if const_type(t) {
                Err(AssignReport::AssignToConst("*ptr"@, lhs.trimmed))
            } else {
                Ok(true)
            },
            None => Ok(false),
        },
        ExprShape::Other => Ok(false),
    }
}

/// The error that an assignment reports, if any.
pub open spec fn assign_report(m: &Module, node: &AssignStmtNode) -> Option<AssignReport> {
    match (node.lhs, node.rhs) {
        (Some(l), Some(r)) => if !is_lvalue(l.shape) {
            Some(AssignReport::NotALValue(l.range))
        } else {
            match assignable_place(m, l) {
                Err(rep) => Some(rep),
                Ok(false) => None,
                Ok(true) => match (type_at(m.type_table@, l.range), type_at(m.type_table@, r)) {
                    (Some(lt), Some(rt)) => if !assignable(lt, rt) {
                        Some(AssignReport::TypeMismatch(lt, rt, r))
                    } else {
                        None
                    },
                    _ => None,
                },
            }
        },
        _ => None,
    }
}

/// Whether an assignment may be checked in `m`: a variable that the left side
/// names is in the table.
pub open spec fn assign_ok(m: &Module, node: &AssignStmtNode) -> bool {
    match node.lhs {
        Some(l) => match (l.shape, l.name) {
            (ExprShape::IndexVal, Some((n, _))) => match resolve(m, n@) {
                Some(id) => id.0 < m.variables.len(),
                None => true,
            },
            _ => true,
        },
        None => true,
    }
}

impl Module {
    /// Checks an assignment: the left side must be a place that may be
    /// written, and the right side's type must fit it.
    pub fn leave_assign_stmt(&mut self, node: &AssignStmtNode)
        requires
            scopes_wf(old(self).scopes@),
            assign_ok(old(self), node),
        ensures
            same_except_scopes(old(self), final(self)),
            final(self).scopes == old(self).scopes,
            final(self).current_scope == old(self).current_scope,
            match assign_report(old(self), node) {
                Some(r) => final(self).semantic_errors@ == old(self).semantic_errors@.push(final(self).semantic_errors@.last())
                    && reports_assign(final(self).semantic_errors@.last(), r),
                None => final(self).semantic_errors == old(self).semantic_errors,
            },
    {
        let (l, r) = match (&node.lhs, node.rhs) {
            (Some(l), Some(r)) => (l, r),
            _ => return,
        };
        if !is_lvalue_expr(l.shape) {
            self.semantic_errors.push(AnalyzeError::NotALValue { range: l.range });
            return;
        }
        let ok = match l.shape {
            ExprShape::IndexVal => {
                let (n, nr) = match &l.name {
                    Some((n, nr)) => (n, *nr),
                    None => return,
                };
                let id = match self.find_variable_def(n.as_str()) {
                    Some(id) => id,
                    None => return,
                };
                let var_const = self.variables[id.0 as usize].ty.is_const();
                let t = match self.get_expr_type(l.range) {
                    Some(t) => t,
                    None => return,
                };
                if var_const || t.is_const() {
                    self.semantic_errors.push(AnalyzeError::AssignToConst { name: n.clone(), range: nr });
                    return;
                }
                true
            },
            _ => {
                let t = match self.get_expr_type(l.range) {
                    Some(t) => t,
                    None => return,
                };
                if t.is_const() {
                    let what = if l.shape == ExprShape::PostfixExpr {
                        "field"
                    } else {
                        "*ptr"
                    };
                    proof {
                        reveal_strlit("field");
                        reveal_strlit("*ptr");
                    }
                    self.semantic_errors.push(AnalyzeError::AssignToConst { name: what.to_string(), range: l.trimmed });
                    return;
                }
                true
            },
        };
        let lt = match self.get_expr_type(l.range) {
            Some(t) => t.clone(),
            None => return,
        };
        let rt = match self.get_expr_type(r) {
            Some(t) => t.clone(),
            None => return,
        };
        if !lt.assign_to_me_is_ok(&rt) {
            self.semantic_errors.push(AnalyzeError::TypeMismatch { expected: lt, found: rt, range: r });
        }
    }
}

} // verus!
