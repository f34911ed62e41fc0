//! Type annotations: reading the type that a type node of the source writes,
//! and the type an indexed expression has.

use vstd::prelude::*;

use crate::error::AnalyzeError;
use crate::literal::type_at;
use crate::module::{at_range, bind_range, named, position_at_range, Module, TextRange};
use crate::types::{ty_view, unconst, Ty, TyView};
use crate::value::{value_type, Value, ValueView};

verus! {

/// The base type that a primitive type node names.
#[derive(Debug)]
pub enum PrimitType {
    I32,
    I8,
    Bool,
    Void,
    /// `struct` with the name that follows it, when there is one.
    Struct(Option<String>),
    /// A primitive type node with none of these keywords.
    Unknown,
}

/// The array length expression of an array type node: its range, and the
/// same range without trivia.
#[derive(Debug, Clone, Copy)]
pub struct SizeExpr {
    pub range: TextRange,
    pub trimmed: TextRange,
}

/// The form of a type node.
#[derive(Debug)]
pub enum TypeNodeKind {
    /// `[inner; size]`.
    Array { inner: Option<Box<TypeNode>>, size: Option<SizeExpr> },
    /// A pointer to `inner`; `is_const` when the pointer says so.
    Pointer { inner: Option<Box<TypeNode>>, is_const: bool },
    /// A primitive type, when the node has one.
    Primitive(Option<PrimitType>),
}

/// A type node of the source: its range, the range without trivia, whether
/// it carries `const`, and its form.
#[derive(Debug)]
pub struct TypeNode {
    pub range: TextRange,
    pub trimmed: TextRange,
    pub is_const: bool,
    pub kind: TypeNodeKind,
}

/// Why a type node does not make a type.
pub enum TypeIssue {
    /// An array of `void`, at the element type's range.
    InvalidVoidUsage(TextRange),
    /// An array length whose constant value is not an `i32` or `i8`.
    TypeMismatch(TyView, TextRange),
    /// An array length with no constant value.
    ConstantExprExpected(TextRange),
    /// A struct that is not defined.
    StructUndefined(Seq<char>, TextRange),
}

/// Whether the error `e` reports the issue `i`.
pub open spec fn is_issue(e: AnalyzeError, i: TypeIssue) -> bool {
    match i {
        TypeIssue::InvalidVoidUsage(x) => e matches AnalyzeError::InvalidVoidUsage { range } && range == x,
        TypeIssue::TypeMismatch(t, x) => e matches AnalyzeError::TypeMismatch { expected, found, range }
            && expected@ == TyView::Const(Box::new(TyView::I32)) && found@ == t && range == x,
        TypeIssue::ConstantExprExpected(x) => e matches AnalyzeError::ConstantExprExpected { range } && range == x,
        TypeIssue::StructUndefined(n, x) => e matches AnalyzeError::StructUndefined { name, range } && name@ == n
            && range == x,
    }
}

/// Whether a type stands for `void` used as a value's type.
pub open spec fn void_use(t: TyView) -> bool {
    unconst(t) is Void
}

/// The view of an optional table of constant values.
pub open spec fn table_view(vt: Option<&Vec<(TextRange, Value)>>) -> Option<Seq<(TextRange, Value)>> {
    match vt {
        Some(v) => Some(v@),
        None => None,
    }
}

/// `t`, made `const` when the node says so.
pub open spec fn with_const(is_const: bool, t: TyView) -> TyView {
    if is_const {
        TyView::Const(Box::new(t))
    } else {
        t
    }
}

/// The length that a constant array size gives, or the issue with it.
pub open spec fn array_length(m: Module, sz: SizeExpr, vt: Option<Seq<(TextRange, Value)>>) -> Result<Option<i32>, TypeIssue> {
    match vt {
        None => Ok(None),
        Some(tab) => match at_range(tab, sz.range) {
            Some(v) => match v@ {
                ValueView::I32(x) => Ok(Some(x)),
                ValueView::I8(x) => Ok(Some(x as i32)),
                w => Err(TypeIssue::TypeMismatch(value_type(w, m), sz.trimmed)),
            },
            None => Err(TypeIssue::ConstantExprExpected(sz.trimmed)),
        },
    }
}

/// The type that the node `n` writes (`None` where the node is incomplete),
/// or the issue it has. Without a table of constants, array lengths are left
/// open.
pub open spec fn node_type(m: Module, n: TypeNode, vt: Option<Seq<(TextRange, Value)>>) -> Result<Option<TyView>, TypeIssue>
    decreases n,
{
    match n.kind {
        TypeNodeKind::Array { inner, size } => match inner {
            None => Ok(None),
            Some(i) => match node_type(m, *i, vt) {
                Err(e) => Err(e),
                Ok(None) => Ok(None),
                Ok(Some(t)) => if void_use(t) {
                    Err(TypeIssue::InvalidVoidUsage(i.range))
                } else {
                    match size {
                        None => Ok(Some(TyView::Array(Box::new(t), None))),
                        Some(sz) => match array_length(m, sz, vt) {
                            Ok(len) => Ok(Some(TyView::Array(Box::new(t), len))),
                            Err(e) => Err(e),
                        },
                    }
                },
            },
        },
        TypeNodeKind::Pointer { inner, is_const } => match inner {
            None => Ok(None),
            Some(i) => match node_type(m, *i, vt) {
                Err(e) => Err(e),
                Ok(None) => Ok(None),
                Ok(Some(t)) => Ok(Some(TyView::Pointer { pointee: Box::new(t), is_const })),
            },
        },
        TypeNodeKind::Primitive(p) => match p {
            Some(PrimitType::I32) => Ok(Some(with_const(n.is_const, TyView::I32))),
            Some(PrimitType::I8) => Ok(Some(with_const(n.is_const, TyView::I8))),
            Some(PrimitType::Bool) => Ok(Some(with_const(n.is_const, TyView::Bool))),
            Some(PrimitType::Void) => Ok(Some(with_const(n.is_const, TyView::Void))),
            Some(PrimitType::Struct(Some(name))) => match named(m.struct_map@, name@) {
                Some(id) => Ok(Some(with_const(n.is_const, TyView::Struct { id, name: name@ }))),
                None => Err(TypeIssue::StructUndefined(name@, n.trimmed)),
            },
            _ => Ok(None),
        },
    }
}

/// Read with no table of constants, a type node depends on the module only
/// through the struct names it can see.
pub proof fn lemma_node_type_frame(m1: Module, m2: Module, n: TypeNode)
    requires
        m1.struct_map == m2.struct_map,
    ensures
        node_type(m1, n, None) == node_type(m2, n, None),
    decreases n,
{
    match n.kind {
        TypeNodeKind::Array { inner, .. } => match inner {
            Some(i) => lemma_node_type_frame(m1, m2, *i),
            None => {},
        },
        TypeNodeKind::Pointer { inner, .. } => match inner {
            Some(i) => lemma_node_type_frame(m1, m2, *i),
            None => {},
        },
        TypeNodeKind::Primitive(_) => {},
    }
}

/// Whether `r` is what `node_type` says.
pub open spec fn reads_as(r: Result<Option<Ty>, AnalyzeError>, expected: Result<Option<TyView>, TypeIssue>) -> bool {
    match (r, expected) {
        (Ok(Some(t)), Ok(Some(tv))) => t@ == tv,
        (Ok(None), Ok(None)) => true,
        (Err(e), Err(i)) => is_issue(e, i),
        _ => false,
    }
}

/// Whether `t` is `void` used as a value's type.
pub fn is_invalid_void_usage(t: &Ty) -> (r: bool)
    ensures
        r == void_use(t@),
{
    proof {
        reveal_with_fuel(ty_view, 2);
    }
    match t {
        Ty::Void => true,
        Ty::Const(inner) => matches!(**inner, Ty::Void),
        _ => false,
    }
}

fn wrap_const(is_const: bool, t: Ty) -> (r: Ty)
    ensures
        r@ == with_const(is_const, t@),
{
    if is_const {
        Ty::Const(Box::new(t))
    } else {
        t
    }
}

/// Reads the type that `node` writes, as `node_type` says. With no table of
/// constants, array lengths are left open.
pub fn parse_type_node(module: &Module, node: &TypeNode, value_table: Option<&Vec<(TextRange, Value)>>) -> (r: Result<
    Option<Ty>,
    AnalyzeError,
>)
    ensures
        reads_as(r, node_type(*module, *node, table_view(value_table))),
    decreases node,
{
    match &node.kind {
        TypeNodeKind::Array { inner, size } => {
            let i = match inner {
                Some(i) => i,
                None => return Ok(None),
            };
            let t = match parse_type_node(module, i, value_table) {
                Err(e) => return Err(e),
                Ok(None) => return Ok(None),
                Ok(Some(t)) => t,
            };
            if is_invalid_void_usage(&t) {
                return Err(AnalyzeError::InvalidVoidUsage { range: i.range });
            }
            let len = match (size, value_table) {
                (Some(sz), Some(vt)) => match position_at_range(vt, sz.range) {
                    Some(k) => match &vt[k].1 {
                        Value::I32(x) => Some(*x),
                        Value::I8(x) => Some(*x as i32),
                        w => {
                            let found = w.get_type(module);
                            proof {
                                reveal_with_fuel(ty_view, 2);
                            }
                            return Err(
                                AnalyzeError::TypeMismatch {
                                    expected: Ty::Const(Box::new(Ty::I32)),
                                    found,
                                    range: sz.trimmed,
                                },
                            );
                        },
                    },
                    None => return Err(AnalyzeError::ConstantExprExpected { range: sz.trimmed }),
                },
                _ => None,
            };
            proof {
                reveal_with_fuel(ty_view, 2);
            }
            Ok(Some(Ty::Array(Box::new(t), len)))
        },
        TypeNodeKind::Pointer { inner, is_const } => {
            let i = match inner {
                Some(i) => i,
                None => return Ok(None),
            };
            match parse_type_node(module, i, value_table) {
                Err(e) => Err(e),
                Ok(None) => Ok(None),
                Ok(Some(t)) => {
                    proof {
                        reveal_with_fuel(ty_view, 2);
                    }
                    Ok(Some(Ty::Pointer { pointee: Box::new(t), is_const: *is_const }))
                },
            }
        },
        TypeNodeKind::Primitive(p) => {
            let base = match p {
                Some(PrimitType::I32) => Ty::I32,
                Some(PrimitType::I8) => Ty::I8,
                Some(PrimitType::Bool) => Ty::Bool,
                Some(PrimitType::Void) => Ty::Void,
                Some(PrimitType::Struct(Some(name))) => match module.get_struct_id_by_name(name.as_str()) {
                    Some(id) => Ty::Struct { id, name: name.clone() },
                    None => return Err(AnalyzeError::StructUndefined { name: name.clone(), range: node.trimmed }),
                },
                _ => return Ok(None),
            };
            proof {
                reveal_with_fuel(ty_view, 2);
            }
            Ok(Some(wrap_const(node.is_const, base)))
        },
    }
}


// ---------------------------------------------------------------------------
// Indexing
// ---------------------------------------------------------------------------

/// An array type used as a value: a pointer to its first element.
pub open spec fn decay(t: TyView) -> TyView {
    match t {
        TyView::Array(inner, _) => TyView::Pointer { pointee: inner, is_const: true },
        _ => t,
    }
}

/// The type of `x[i]` for `x` of type `t`: the element of an array, the
/// target of a pointer; under `const`, that of the inner type, decayed.
pub open spec fn index_once(t: TyView) -> Option<TyView>
    decreases t,
{
    match t {
        TyView::Array(inner, _) => Some(*inner),
        TyView::Pointer { pointee, .. } => Some(*pointee),
        TyView::Const(inner) => match index_once(*inner) {
            Some(x) => Some(decay(x)),
            None => None,
        },
        _ => None,
    }
}

/// The type named in the error when `t` cannot be indexed: `t` without its `const`s.
pub open spec fn index_blame(t: TyView) -> TyView
    decreases t,
{
    match t {
        TyView::Const(inner) => index_blame(*inner),
        _ => t,
    }
}

/// The type of `x` indexed `n` times, decayed; or the type that could not be indexed.
pub open spec fn indexed(t: TyView, n: nat) -> Result<TyView, TyView>
    decreases n,
{
    if n == 0 {
        Ok(decay(t))
    } else {
        match index_once(t) {
            Some(x) => indexed(x, (n - 1) as nat),
            None => Err(index_blame(t)),
        }
    }
}

fn decay_exec(t: Ty) -> (r: Ty)
    ensures
        r@ == decay(t@),
{
    proof {
        reveal_with_fuel(ty_view, 2);
    }
    match t {
        Ty::Array(inner, _) => Ty::Pointer { pointee: inner, is_const: true },
        _ => t,
    }
}

fn index_once_exec(t: &Ty) -> (r: Result<Ty, Ty>)
    ensures
        r matches Ok(x) ==> index_once(t@) == Some(x@),
        r matches Err(b) ==> index_once(t@) is None && b@ == index_blame(t@),
    decreases t,
{
    proof {
        reveal_with_fuel(ty_view, 2);
    }
    match t {
        Ty::Array(inner, _) => Ok(inner.duplicate()),
        Ty::Pointer { pointee, .. } => Ok(pointee.duplicate()),
        Ty::Const(inner) => match index_once_exec(inner) {
            Ok(x) => Ok(decay_exec(x)),
            Err(b) => Err(b),
        },
        _ => Err(t.duplicate()),
    }
}

impl Module {
    /// The type of an expression of type `ty` indexed `index_count` times;
    /// an array that results is used as a pointer to its first element. An
    /// operand that cannot be indexed is reported at `range`.
    pub fn compute_indexed_type(ty: &Ty, index_count: usize, range: TextRange) -> (r: Result<Ty, AnalyzeError>)
        ensures
            match indexed(ty@, index_count as nat) {
                Ok(t) => r matches Ok(x) && x@ == t,
                Err(b) => r matches Err(e) && e matches AnalyzeError::ApplyOpOnType { ty: et, op, range: er }
                    && et@ == b && op@ == "[]"@ && er == range,
            },
    {
        let mut current = ty.duplicate();
        let mut k: usize = 0;
        while k < index_count
            invariant
                k <= index_count,
                indexed(ty@, index_count as nat) == indexed(current@, (index_count - k) as nat),
            decreases index_count - k,
        {
            match index_once_exec(&current) {
                Ok(x) => current = x,
                Err(b) => {
                    return Err(AnalyzeError::ApplyOpOnType { ty: b, op: "[]".to_string(), range });
                },
            }
            k += 1;
        }
        Ok(decay_exec(current))
    }
}


// ---------------------------------------------------------------------------
// Recording the types of type nodes
// ---------------------------------------------------------------------------

/// The type that the node `n` writes, built from the types already recorded
/// for its inner type node and the constant already recorded for its
/// length; `None` where something it needs is missing.
pub open spec fn recorded_type(m: &Module, n: TypeNode) -> Option<Result<TyView, TypeIssue>> {
    match n.kind {
        TypeNodeKind::Array { inner, size } => match inner {
            None => None,
            Some(i) => match type_at(m.type_table@, i.range) {
                None => None,
                Some(t) => match size {
                    None => None,
                    Some(sz) => match array_length(*m, sz, Some(m.value_table@)) {
                        Ok(len) => Some(Ok(TyView::Array(Box::new(t), len))),
                        Err(e) => Some(Err(e)),
                    },
                },
            },
        },
        TypeNodeKind::Pointer { inner, is_const } => match inner {
            None => None,
            Some(i) => match type_at(m.type_table@, i.range) {
                None => None,
                Some(t) => Some(Ok(TyView::Pointer { pointee: Box::new(t), is_const })),
            },
        },
        TypeNodeKind::Primitive(_) => match node_type(*m, n, None) {
            Ok(Some(t)) => Some(Ok(t)),
            Ok(None) => None,
            Err(e) => Some(Err(e)),
        },
    }
}

impl Module {
    /// Records the type that the type node `node` writes, from the types
    /// recorded for its parts, or reports why it has none.
    pub fn leave_type(&mut self, node: &TypeNode)
        ensures
            final(self).value_table == old(self).value_table,
            final(self).struct_map == old(self).struct_map,
            final(self).structs == old(self).structs,
            final(self).scopes == old(self).scopes,
            final(self).variables == old(self).variables,
            forall|key: TextRange|
                #[trigger] type_at(final(self).type_table@, key) == match recorded_type(old(self), *node) {
                    Some(Ok(t)) => if key == node.range {
                        Some(t)
                    } else {
                        type_at(old(self).type_table@, key)
                    },
                    _ => type_at(old(self).type_table@, key),
                },
            match recorded_type(old(self), *node) {
                Some(Err(i)) => final(self).semantic_errors@ == old(self).semantic_errors@.push(
                    final(self).semantic_errors@.last(),
                ) && is_issue(final(self).semantic_errors@.last(), i),
                _ => final(self).semantic_errors == old(self).semantic_errors,
            },
    {
        proof {
            reveal_with_fuel(ty_view, 2);
        }
        let ty = match &node.kind {
            TypeNodeKind::Array { inner, size } => {
                let i = match inner {
                    Some(i) => i,
                    None => return,
                };
                let t = match self.get_expr_type(i.range) {
                    Some(t) => t.clone(),
                    None => return,
                };
                let sz = match size {
                    Some(sz) => sz,
                    None => return,
                };
                let len = match self.get_value_by_range(sz.range) {
                    Some(Value::I32(x)) => *x,
                    Some(Value::I8(x)) => *x as i32,
                    Some(w) => {
                        let found = w.get_type(self);
                        self.semantic_errors.push(
                            AnalyzeError::TypeMismatch {
                                expected: Ty::Const(Box::new(Ty::I32)),
                                found,
                                range: sz.trimmed,
                            },
                        );
                        return;
                    },
                    None => {
                        self.semantic_errors.push(AnalyzeError::ConstantExprExpected { range: sz.trimmed });
                        return;
                    },
                };
                Ty::Array(Box::new(t), Some(len))
            },
            TypeNodeKind::Pointer { inner, is_const } => {
                let i = match inner {
                    Some(i) => i,
                    None => return,
                };
                let t = match self.get_expr_type(i.range) {
                    Some(t) => t.clone(),
                    None => return,
                };
                Ty::Pointer { pointee: Box::new(t), is_const: *is_const }
            },
            TypeNodeKind::Primitive(_) => match parse_type_node(self, node, None) {
                Ok(Some(t)) => t,
                Ok(None) => return,
                Err(e) => {
                    self.semantic_errors.push(e);
                    return;
                },
            },
        };
        bind_range(&mut self.type_table, node.range, ty);
    }
}

} // verus!
