//! Expressions: the type and compile-time value of unary and parenthesised
//! expressions, from those of their operands.

use vstd::prelude::*;

use crate::error::{AnalyzeError, ArgumentTypeMismatchData};
use crate::literal::{text_at, type_at, value_at};
use crate::array::{leaf_at, leaf_value, ArrayTreeValue};
use crate::module::{
    at_range, bind_range, first_field_named, lookup_in, metas_view, named, same_symbols, scopes_wf, unbind_range, FieldID,
    FunctionID, Module, Reference, ReferenceTag, Struct, StructID, StructView, TextRange, VariableID,
};
use crate::syntax_kind::SyntaxKind;
use crate::literal::int_literal;
use crate::typenode::indexed;
use crate::types::{
    assignable, binary_result, const_type, is_int, is_signed_int, struct_of, struct_pointer_of, unary_result, Ty,
    TyView, UnaryOpError,
};
use crate::value::{
    array_size, binary_overflows_division, binary_value, int_max, int_min, int_ty_name, int_ty_text, int_value,
    scalar_ty, unary_value, value_type, ErrView, EvalError, Value, ValueView,
};

verus! {

/// The syntactic form of an expression, as far as analysis looks at it.
#[derive(Debug, Clone, Copy, PartialEq, Eq, Structural)]
pub enum ExprShape {
    IndexVal,
    PostfixExpr,
    /// A unary expression, with its operator when it has one.
    UnaryExpr(Option<SyntaxKind>),
    Other,
}

/// An operand: its source range, the same range without trivia, and its form.
#[derive(Debug, Clone, Copy)]
pub struct ExprNode {
    pub range: TextRange,
    pub trimmed: TextRange,
    pub shape: ExprShape,
}

/// An operator token: its kind and its text.
#[derive(Debug)]
pub struct OpToken {
    pub kind: SyntaxKind,
    pub text: String,
}

/// A unary expression: its range, its operand and its operator, where the
/// parser found them.
#[derive(Debug)]
pub struct UnaryExprNode {
    pub range: TextRange,
    pub expr: Option<ExprNode>,
    pub op: Option<OpToken>,
}

/// Whether an expression of this form denotes a place: an indexed variable,
/// a field access or a dereference.
pub open spec fn is_lvalue(shape: ExprShape) -> bool {
    match shape {
        ExprShape::IndexVal | ExprShape::PostfixExpr => true,
        ExprShape::UnaryExpr(op) => op == Some(SyntaxKind::STAR),
        ExprShape::Other => false,
    }
}

/// Whether an expression of this form denotes a place.
pub fn is_lvalue_expr(shape: ExprShape) -> (r: bool)
    ensures
        r == is_lvalue(shape),
{
    match shape {
        ExprShape::IndexVal => true,
        ExprShape::PostfixExpr => true,
        ExprShape::UnaryExpr(op) => match op {
            Some(k) => k == SyntaxKind::STAR,
            None => false,
        },
        ExprShape::Other => false,
    }
}

/// An error that a unary expression can report, as a mathematical value.
pub enum UnaryReport {
    AddressOfRight(TextRange),
    VoidPointerDeref(TextRange),
    ApplyOpOnType(TyView, Seq<char>, TextRange),
    ConstArithmeticOverflow(Seq<char>, TextRange),
    IntegerLiteralOverflow(Seq<char>, Seq<char>, TextRange),
}

/// Whether the error `e` is the report `r`.
pub open spec fn reports(e: AnalyzeError, r: UnaryReport) -> bool {
    match r {
        UnaryReport::AddressOfRight(x) => e matches AnalyzeError::AddressOfRight { range } && range == x,
        UnaryReport::VoidPointerDeref(x) => e matches AnalyzeError::VoidPointerDeref { range } && range == x,
        UnaryReport::ApplyOpOnType(t, o, x) => e matches AnalyzeError::ApplyOpOnType { ty, op, range } && ty@ == t
            && op@ == o && range == x,
        UnaryReport::ConstArithmeticOverflow(m, x) => e matches AnalyzeError::ConstArithmeticOverflow {
            message,
            range,
        } && message@ == m && range == x,
        UnaryReport::IntegerLiteralOverflow(l, t, x) => e matches AnalyzeError::IntegerLiteralOverflow {
            literal,
            ty,
            range,
        } && literal@ == l && ty@ == t && range == x,
    }
}

/// What leaving a unary expression does: the type and value it gets, the
/// error it reports, and whether the overflowing literal it negates is settled.
pub struct UnaryEffect {
    pub ty: Option<TyView>,
    pub value: Option<ValueView>,
    pub report: Option<UnaryReport>,
    pub settles_literal: bool,
}

/// Whether a value is the smallest value of a signed integer type, the one
/// that negation leaves unchanged.
pub open spec fn is_min_int(v: ValueView) -> bool {
    match v {
        ValueView::I8(x) => x == i8::MIN,
        ValueView::I32(x) => x == i32::MIN,
        ValueView::I64(x) => x == i64::MIN,
        _ => false,
    }
}

/// Whether a value is an integer.
pub open spec fn is_int_value(v: ValueView) -> bool {
    scalar_ty(v) is Some && !(v is Bool)
}

pub open spec fn no_effect() -> UnaryEffect {
    UnaryEffect { ty: None, value: None, report: None, settles_literal: false }
}

pub open spec fn report_only(r: UnaryReport) -> UnaryEffect {
    UnaryEffect { ty: None, value: None, report: Some(r), settles_literal: false }
}

/// The effect of folding `op v` for the operand at `e` once its type is settled.
pub open spec fn fold_effect(m: &Module, node: &UnaryExprNode, e: ExprNode, op: SyntaxKind, ty: Option<TyView>) -> UnaryEffect {
    if op == SyntaxKind::STAR || op == SyntaxKind::AMP {
        UnaryEffect { ty, value: None, report: None, settles_literal: false }
    } else {
        match value_at(m.value_table@, e.range) {
            None => UnaryEffect { ty, value: None, report: None, settles_literal: false },
            Some(v) => {
                let lit = text_at(m.overflowing_literals@, e.range);
                let negates_literal = op == SyntaxKind::MINUS && lit is Some;
                let value = match unary_value(v, op) {
                    Ok(r) => Some(r),
                    Err(_) => None,
                };
                let report = if negates_literal {
                    if is_min_int(v) {
                        None
                    } else {
                        Some(UnaryReport::IntegerLiteralOverflow(lit->0, int_ty_name(scalar_ty(v)->0), e.range))
                    }
                } else {
                    match unary_value(v, op) {
                        Err(ErrView::Overflow(msg)) => Some(UnaryReport::ConstArithmeticOverflow(msg, node.range)),
                        _ => None,
                    }
                };
                UnaryEffect { ty, value, report, settles_literal: negates_literal }
            },
        }
    }
}

/// The effect of leaving the unary expression `node` in the module `m`.
pub open spec fn unary_effect(m: &Module, node: &UnaryExprNode) -> UnaryEffect {
    match (node.expr, node.op) {
        (Some(e), Some(op)) => {
            let k = op.kind;
            match type_at(m.type_table@, e.range) {
                Some(inner) => if k == SyntaxKind::AMP && !is_lvalue(e.shape) {
                    report_only(UnaryReport::AddressOfRight(e.trimmed))
                } else {
                    match unary_result(inner, k) {
                        Ok(t) => fold_effect(m, node, e, k, Some(t)),
                        Err(UnaryOpError::VoidPointerDeref) => report_only(UnaryReport::VoidPointerDeref(e.trimmed)),
                        Err(UnaryOpError::InvalidOp) => report_only(
                            UnaryReport::ApplyOpOnType(inner, op.text@, e.trimmed),
                        ),
                    }
                },
                None => fold_effect(m, node, e, k, None),
            }
        },
        _ => no_effect(),
    }
}

/// Whether leaving `node` in `m` may run: a negated literal that overflowed
/// has an integer value.
pub open spec fn unary_expr_ok(m: &Module, node: &UnaryExprNode) -> bool {
    match (node.expr, node.op) {
        (Some(e), Some(op)) => op.kind == SyntaxKind::MINUS && text_at(m.overflowing_literals@, e.range) is Some
            && value_at(m.value_table@, e.range) is Some ==> is_int_value(value_at(m.value_table@, e.range)->0),
        _ => true,
    }
}

/// Whether the operand at `range` is an integer literal that overflowed its type.
fn position_of_literal(m: &Module, range: TextRange) -> (r: bool)
    ensures
        r == text_at(m.overflowing_literals@, range) is Some,
{
    m.overflowing_text(range).is_some()
}

/// Whether a value is the smallest value of a signed integer type.
fn is_min_value(v: &Value) -> (r: bool)
    ensures
        r == is_min_int(v@),
{
    match v {
        Value::I8(x) => *x == i8::MIN,
        Value::I32(x) => *x == i32::MIN,
        Value::I64(x) => *x == i64::MIN,
        _ => false,
    }
}

/// The type of an integer value.
fn int_type_of(v: &Value) -> (t: Ty)
    requires
        is_int_value(v@),
    ensures
        t@ == scalar_ty(v@)->0,
        is_int(t@),
{
    match v {
        Value::I8(_) => Ty::I8,
        Value::U8(_) => Ty::U8,
        Value::I32(_) => Ty::I32,
        Value::U32(_) => Ty::U32,
        Value::I64(_) => Ty::I64,
        _ => Ty::U64,
    }
}

/// Negating an integer literal that is one above the largest value of its
/// signed type (as `-128i8`, from the literal `128i8` that `enter_literal`
/// leaves behind) gives the smallest value of that type, of that type, with
/// no error, and settles the literal's overflow.
pub proof fn lemma_negated_min_literal(m: &Module, node: &UnaryExprNode, s: Seq<char>, t: TyView)
    requires
        node.expr is Some,
        node.op is Some,
        node.op->0.kind == SyntaxKind::MINUS,
        is_signed_int(t),
        int_literal(s) == Some((t, (int_max(t) + 1) as nat)),
        type_at(m.type_table@, node.expr->0.range) == Some(t),
        value_at(m.value_table@, node.expr->0.range) == Some(int_value(t, int_max(t) + 1)),
        text_at(m.overflowing_literals@, node.expr->0.range) == Some(s),
    ensures
        unary_effect(m, node).ty == Some(t),
        unary_effect(m, node).value == Some(int_value(t, int_min(t))),
        unary_effect(m, node).report is None,
        unary_effect(m, node).settles_literal,
{
    let v = int_value(t, int_max(t) + 1);
    if t is I8 {
        assert(128int as i8 == -128i8) by (bit_vector);
        assert(v == ValueView::I8(-128i8));
    } else if t is I32 {
        assert(2147483648int as i32 == -2147483648i32) by (bit_vector);
        assert(v == ValueView::I32(-2147483648i32));
    } else {
        assert(9223372036854775808int as i64 == -9223372036854775808i64) by (bit_vector);
        assert(v == ValueView::I64(-9223372036854775808i64));
    }
    assert(is_min_int(v));
}

impl Module {
    /// The text of the overflowing literal at `range`, if there is one.
    pub fn overflowing_text(&self, range: TextRange) -> (r: Option<String>)
        ensures
            r matches Some(t) ==> text_at(self.overflowing_literals@, range) == Some(t@),
            r is None ==> text_at(self.overflowing_literals@, range) is None,
    {
        let mut i: usize = 0;
        assert(self.overflowing_literals@.skip(0) =~= self.overflowing_literals@);
        while i < self.overflowing_literals.len()
            invariant
                i <= self.overflowing_literals.len(),
                at_range(self.overflowing_literals@, range) == at_range(self.overflowing_literals@.skip(i as int), range),
            decreases self.overflowing_literals.len() - i,
        {
            if self.overflowing_literals[i].0 == range {
                return Some(self.overflowing_literals[i].1.clone());
            }
            assert(self.overflowing_literals@.skip(i as int).drop_first() =~= self.overflowing_literals@.skip(i + 1));
            i += 1;
        }
        None
    }
    /// Gives the unary expression `node` its type from its operand's, folds
    /// its value when the operand is constant, and reports what is wrong.
    /// A negated integer literal that overflowed is accepted when negation
    /// brings it back into range (as `-128i8`), and reported otherwise.
    pub fn leave_unary_expr(&mut self, node: &UnaryExprNode)
        requires
            unary_expr_ok(old(self), node),
        ensures
            same_symbols(old(self), final(self)),
            forall|key: TextRange|
                #[trigger] type_at(final(self).type_table@, key) == if key == node.range && unary_effect(
                    old(self),
                    node,
                ).ty is Some {
                    unary_effect(old(self), node).ty
                } else {
                    type_at(old(self).type_table@, key)
                },
            forall|key: TextRange|
                #[trigger] value_at(final(self).value_table@, key) == if key == node.range && unary_effect(
                    old(self),
                    node,
                ).value is Some {
                    unary_effect(old(self), node).value
                } else {
                    value_at(old(self).value_table@, key)
                },
            forall|key: TextRange|
                #[trigger] text_at(final(self).overflowing_literals@, key) == if unary_effect(
                    old(self),
                    node,
                ).settles_literal && key == node.expr->0.range {
                    None
                } else {
                    text_at(old(self).overflowing_literals@, key)
                },
            match unary_effect(old(self), node).report {
                Some(r) => final(self).semantic_errors@.len() == old(self).semantic_errors@.len() + 1
                    && final(self).semantic_errors@.drop_last() == old(self).semantic_errors@ && reports(
                    final(self).semantic_errors@.last(),
                    r,
                ),
                None => final(self).semantic_errors@ == old(self).semantic_errors@,
            },
    {
        let e = match node.expr {
            Some(e) => e,
            None => return,
        };
        let op = match &node.op {
            Some(op) => op,
            None => return,
        };
        let k = op.kind;
        if let Some(inner) = self.get_expr_type(e.range) {
            let inner = inner.clone();
            if k == SyntaxKind::AMP && !is_lvalue_expr(e.shape) {
                self.semantic_errors.push(AnalyzeError::AddressOfRight { range: e.trimmed });
                return;
            }
            match inner.validate_unary_op(k) {
                Ok(t) => bind_range(&mut self.type_table, node.range, t),
                Err(UnaryOpError::VoidPointerDeref) => {
                    self.semantic_errors.push(AnalyzeError::VoidPointerDeref { range: e.trimmed });
                    return;
                },
                Err(UnaryOpError::InvalidOp) => {
                    self.semantic_errors.push(
                        AnalyzeError::ApplyOpOnType { ty: inner, op: op.text.clone(), range: e.trimmed },
                    );
                    return;
                },
            }
        }
        if k == SyntaxKind::STAR || k == SyntaxKind::AMP {
            return;
        }
        let val = match self.get_value_by_range(e.range) {
            Some(v) => v.clone(),
            None => return,
        };
        let negates_literal = k == SyntaxKind::MINUS && position_of_literal(self, e.range);
        match Value::eval_unary(val.clone(), k) {
            Ok(res) => bind_range(&mut self.value_table, node.range, res),
            Err(EvalError::Overflow(message)) => {
                if !negates_literal {
                    self.semantic_errors.push(AnalyzeError::ConstArithmeticOverflow { message, range: node.range });
                }
            },
            Err(_) => {},
        }
        if negates_literal {
            let literal = match self.overflowing_text(e.range) {
                Some(t) => t,
                None => return,
            };
            if !is_min_value(&val) {
                let ty = int_ty_text(&int_type_of(&val)).to_string();
                self.semantic_errors.push(AnalyzeError::IntegerLiteralOverflow { literal, ty, range: e.range });
            }
            unbind_range(&mut self.overflowing_literals, e.range);
        }
    }
}


// ---------------------------------------------------------------------------
// Member access
// ---------------------------------------------------------------------------

/// The member part of a member access: the member's name with its range,
/// the part's range without trivia, and the ranges of the index expressions
/// that follow the member.
#[derive(Debug)]
pub struct FieldAccessNode {
    pub name: Option<(String, TextRange)>,
    pub trimmed: TextRange,
    pub indices: Vec<TextRange>,
}

/// A member access `base.member[i]...` or `base->member[i]...`.
#[derive(Debug)]
pub struct PostfixExprNode {
    pub range: TextRange,
    pub trimmed: TextRange,
    pub op: Option<OpToken>,
    pub field: Option<FieldAccessNode>,
    pub expr: Option<ExprNode>,
}

/// An error that a member access can report, as a mathematical value.
pub enum PostfixReport {
    NotAStruct(TyView, TextRange),
    NotAStructPointer(TyView, TextRange),
    ApplyOpOnType(TyView, Seq<char>, TextRange),
    FieldNotFound(Seq<char>, Seq<char>, TextRange),
}

/// Whether the error `e` is the report `r`.
pub open spec fn reports_postfix(e: AnalyzeError, r: PostfixReport) -> bool {
    match r {
        PostfixReport::NotAStruct(t, x) => e matches AnalyzeError::NotAStruct { ty, range } && ty@ == t && range == x,
        PostfixReport::NotAStructPointer(t, x) => e matches AnalyzeError::NotAStructPointer { ty, range } && ty@ == t
            && range == x,
        PostfixReport::ApplyOpOnType(t, o, x) => e matches AnalyzeError::ApplyOpOnType { ty, op, range } && ty@ == t
            && op@ == o && range == x,
        PostfixReport::FieldNotFound(s, f, x) => e matches AnalyzeError::FieldNotFound {
            struct_name,
            field_name,
            range,
        } && struct_name@ == s && field_name@ == f && range == x,
    }
}

/// What leaving a member access does: the type and value it gets, the field
/// it reads (with the member's range), and the error it reports.
pub struct PostfixEffect {
    pub ty: Option<TyView>,
    pub value: Option<ValueView>,
    pub field_read: Option<(TextRange, FieldID)>,
    pub report: Option<PostfixReport>,
}

pub open spec fn postfix_none() -> PostfixEffect {
    PostfixEffect { ty: None, value: None, field_read: None, report: None }
}

pub open spec fn postfix_report(r: PostfixReport) -> PostfixEffect {
    PostfixEffect { ty: None, value: None, field_read: None, report: Some(r) }
}

/// The struct that the base of a member access names, or the report when
/// the base does not fit the operator; `None` when a part is missing.
pub open spec fn member_struct(m: &Module, node: &PostfixExprNode) -> Option<Result<StructID, PostfixReport>> {
    match (node.op, node.field, node.expr) {
        (Some(op), Some(fa), Some(e)) => match (fa.name, type_at(m.type_table@, e.range)) {
            (Some(_), Some(bt)) => Some(
                if op.kind == SyntaxKind::DOT {
                    match struct_of(bt) {
                        Some(id) => Ok(id),
                        None => Err(PostfixReport::NotAStruct(bt, e.trimmed)),
                    }
                } else if op.kind == SyntaxKind::ARROW {
                    match struct_pointer_of(bt) {
                        Some(id) => Ok(id),
                        None => Err(PostfixReport::NotAStructPointer(bt, e.trimmed)),
                    }
                } else {
                    Err(PostfixReport::ApplyOpOnType(bt, op.text@, e.trimmed))
                },
            ),
            _ => None,
        },
        _ => None,
    }
}

/// The constant values of index expressions, when each is an `i32` or an `i8`.
pub open spec fn index_values(m: &Module, idx: Seq<TextRange>) -> Option<Seq<i32>>
    decreases idx.len(),
{
    if idx.len() == 0 {
        Some(Seq::empty())
    } else {
        match (index_values(m, idx.drop_last()), value_at(m.value_table@, idx.last())) {
            (Some(vs), Some(ValueView::I32(i))) => Some(vs.push(i)),
            (Some(vs), Some(ValueView::I8(i))) => Some(vs.push(i as i32)),
            _ => None,
        }
    }
}

/// The constant value of a member access on a constant struct.
pub open spec fn member_value(m: &Module, base: TextRange, s: StructView, name: Seq<char>, idx: Seq<TextRange>) -> Option<
    ValueView,
> {
    match (value_at(m.value_table@, base), first_field_named(s.fields, m.fields@, name)) {
        (Some(ValueView::Struct(_, fvs)), Some(fi)) => if fi < fvs.len() {
            if idx.len() == 0 {
                Some(fvs[fi])
            } else {
                match fvs[fi] {
                    ValueView::Array(tree) => match index_values(m, idx) {
                        Some(is) => match leaf_at(tree, is) {
                            Some(leaf) => match leaf_value(leaf, m.value_table@) {
                                Some(v) => Some(v@),
                                None => None,
                            },
                            None => None,
                        },
                        None => None,
                    },
                    _ => None,
                }
            }
        } else {
            None
        },
        _ => None,
    }
}

/// The effect of leaving the member access `node` in `m`.
pub open spec fn postfix_effect(m: &Module, node: &PostfixExprNode) -> PostfixEffect {
    match member_struct(m, node) {
        None => postfix_none(),
        Some(Err(r)) => postfix_report(r),
        Some(Ok(id)) => {
            let fa = node.field->0;
            let (mname, mrange) = fa.name->0;
            let e = node.expr->0;
            let bt = type_at(m.type_table@, e.range)->0;
            let s = m.struct_at(id)->0;
            match first_field_named(s.fields, m.fields@, mname@) {
                None => postfix_report(PostfixReport::FieldNotFound(s.name, mname@, node.trimmed)),
                Some(i) => {
                    let fid = s.fields[i];
                    let f = m.field_at(fid)->0;
                    match indexed(f.ty, fa.indices@.len()) {
                        Err(b) => postfix_report(PostfixReport::ApplyOpOnType(b, "[]"@, fa.trimmed)),
                        Ok(t) => PostfixEffect {
                            ty: Some(
                                if const_type(bt) && !const_type(t) {
                                    TyView::Const(Box::new(t))
                                } else {
                                    t
                                },
                            ),
                            value: member_value(m, e.range, s, mname@, fa.indices@),
                            field_read: Some((mrange, fid)),
                            report: None,
                        },
                    }
                },
            }
        },
    }
}

/// The name of the member that a member access reads.
pub open spec fn member_name_of(node: &PostfixExprNode) -> Seq<char> {
    match node.field {
        Some(fa) => match fa.name {
            Some((n, _)) => n@,
            None => Seq::empty(),
        },
        None => Seq::empty(),
    }
}

/// Whether leaving `node` in `m` may run: the struct that the base names is
/// known, and so is the member it finds.
pub open spec fn postfix_ok(m: &Module, node: &PostfixExprNode) -> bool {
    match member_struct(m, node) {
        Some(Ok(id)) => match m.struct_at(id) {
            Some(s) => match first_field_named(s.fields, m.fields@, member_name_of(node)) {
                Some(i) => m.field_at(s.fields[i]) is Some,
                None => true,
            },
            None => false,
        },
        _ => true,
    }
}

/// Whether two states of a module have the same declarations and scopes:
/// they differ at most in their expression tables, references and errors.
pub open spec fn same_tables(a: &Module, b: &Module) -> bool {
    &&& a.file_id == b.file_id
    &&& a.variables == b.variables
    &&& a.functions == b.functions
    &&& a.structs == b.structs
    &&& a.fields == b.fields
    &&& a.scopes == b.scopes
    &&& a.global_scope == b.global_scope
    &&& a.current_scope == b.current_scope
    &&& a.green_tree == b.green_tree
    &&& a.variable_map == b.variable_map
    &&& a.struct_map == b.struct_map
    &&& a.function_map == b.function_map
    &&& a.metadata == b.metadata
}

impl Module {
    /// Gives the member access `node` the type of its member (indexed as the
    /// access says, and `const` when its base is), records the read of the
    /// field, folds its value from a constant struct, and reports a base that
    /// does not fit the operator or a member that the struct lacks.
    pub fn leave_postfix_expr(&mut self, node: &PostfixExprNode)
        requires
            postfix_ok(old(self), node),
            old(self).reference.len() < u32::MAX,
        ensures
            same_tables(old(self), final(self)),
            final(self).overflowing_literals == old(self).overflowing_literals,
            forall|key: TextRange|
                #[trigger] type_at(final(self).type_table@, key) == if key == node.range && postfix_effect(
                    old(self),
                    node,
                ).ty is Some {
                    postfix_effect(old(self), node).ty
                } else {
                    type_at(old(self).type_table@, key)
                },
            forall|key: TextRange|
                #[trigger] value_at(final(self).value_table@, key) == if key == node.range && postfix_effect(
                    old(self),
                    node,
                ).value is Some {
                    postfix_effect(old(self), node).value
                } else {
                    value_at(old(self).value_table@, key)
                },
            match postfix_effect(old(self), node).field_read {
                Some((r, fid)) => final(self).reference@ == old(self).reference@.push(
                    Reference { tag: ReferenceTag::FieldRead(fid), range: r },
                ),
                None => final(self).reference@ == old(self).reference@,
            },
            match postfix_effect(old(self), node).report {
                Some(r) => final(self).semantic_errors@ == old(self).semantic_errors@.push(final(self).semantic_errors@.last())
                    && reports_postfix(final(self).semantic_errors@.last(), r),
                None => final(self).semantic_errors@ == old(self).semantic_errors@,
            },
    {
        let op = match &node.op {
            Some(op) => op,
            None => return,
        };
        let fa = match &node.field {
            Some(fa) => fa,
            None => return,
        };
        let (member_name, member_range) = match &fa.name {
            Some((n, r)) => (n, *r),
            None => return,
        };
        let e = match node.expr {
            Some(e) => e,
            None => return,
        };
        let base_ty = match self.get_expr_type(e.range) {
            Some(t) => t.clone(),
            None => return,
        };
        let struct_id = if op.kind == SyntaxKind::DOT {
            match base_ty.as_struct_id() {
                Some(id) => id,
                None => {
                    self.semantic_errors.push(AnalyzeError::NotAStruct { ty: base_ty, range: e.trimmed });
                    return;
                },
            }
        } else if op.kind == SyntaxKind::ARROW {
            match base_ty.as_struct_pointer_id() {
                Some(id) => id,
                None => {
                    self.semantic_errors.push(AnalyzeError::NotAStructPointer { ty: base_ty, range: e.trimmed });
                    return;
                },
            }
        } else {
            self.semantic_errors.push(
                AnalyzeError::ApplyOpOnType { ty: base_ty, op: op.text.clone(), range: e.trimmed },
            );
            return;
        };
        let struct_def = match self.get_struct_by_id(struct_id) {
            Some(s) => s,
            None => return,
        };
        let field_id = match struct_def.field(self, member_name.as_str()) {
            Some(f) => f,
            None => {
                self.semantic_errors.push(
                    AnalyzeError::FieldNotFound {
                        struct_name: struct_def.name.clone(),
                        field_name: member_name.clone(),
                        range: node.trimmed,
                    },
                );
                return;
            },
        };
        let field = match self.get_field_by_id(field_id) {
            Some(f) => f,
            None => return,
        };
        let result_ty = match Self::compute_indexed_type(&field.ty, fa.indices.len(), fa.trimmed) {
            Ok(t) => t,
            Err(err) => {
                self.semantic_errors.push(err);
                return;
            },
        };
        let result_ty = if base_ty.is_const() && !result_ty.is_const() {
            Ty::Const(Box::new(result_ty))
        } else {
            result_ty
        };
        proof {
            reveal_with_fuel(crate::types::ty_view, 2);
        }
        let ghost m0 = *self;
        bind_range(&mut self.type_table, node.range, result_ty);
        self.new_reference(member_range, ReferenceTag::FieldRead(field_id));
        let value = self.member_value_of(e.range, &struct_def, member_name, &fa.indices);
        proof {
            assert(member_value(self, e.range, struct_def@, member_name@, fa.indices@) == member_value(
                &m0,
                e.range,
                struct_def@,
                member_name@,
                fa.indices@,
            )) by {
                lemma_member_value_frame(&m0, self, e.range, struct_def@, member_name@, fa.indices@);
            }
        }
        if let Some(v) = value {
            bind_range(&mut self.value_table, node.range, v);
        }
    }

    /// The constant value of a member access on the constant struct at `base`.
    fn member_value_of(&self, base: TextRange, s: &Struct, name: &String, idx: &Vec<TextRange>) -> (r: Option<Value>)
        ensures
            r matches Some(v) ==> member_value(self, base, s@, name@, idx@) == Some(v@),
            r is None ==> member_value(self, base, s@, name@, idx@) is None,
    {
        let whole = match self.get_value_by_range(base) {
            Some(v) => v,
            None => return None,
        };
        let fvs = match whole {
            Value::Struct(_, fvs) => fvs,
            _ => return None,
        };
        let ghost w = whole@->Struct_1;
        proof {
            assert(w.len() == fvs.len());
        }
        let fi = match s.find_field(self, name.as_str()) {
            Some(i) => i,
            None => return None,
        };
        if fi >= fvs.len() {
            return None;
        }
        let fv = &fvs[fi];
        proof {
            assert(w[fi as int] == fvs@[fi as int]@);
        }
        if idx.len() == 0 {
            return Some(fv.clone());
        }
        let tree = match fv {
            Value::Array(t) => t,
            _ => return None,
        };
        let mut is: Vec<i32> = Vec::new();
        let mut k: usize = 0;
        while k < idx.len()
            invariant
                k <= idx.len(),
                index_values(self, idx@.take(k as int)) == Some(is@),
            decreases idx.len() - k,
        {
            proof {
                assert(idx@.take(k + 1).drop_last() =~= idx@.take(k as int));
            }
            match self.get_value_by_range(idx[k]) {
                Some(Value::I32(i)) => is.push(*i),
                Some(Value::I8(i)) => is.push(*i as i32),
                _ => {
                    proof {
                        lemma_index_values_prefix(self, idx@, k as int + 1);
                    }
                    return None;
                },
            }
            k += 1;
        }
        proof {
            assert(idx@.take(idx.len() as int) =~= idx@);
        }
        let leaf = match tree.get_leaf(is.as_slice()) {
            Ok(l) => l,
            Err(_) => return None,
        };
        match leaf.get_const_value(&self.value_table) {
            Some(v) => Some(v.clone()),
            None => None,
        }
    }
}

proof fn lemma_index_values_prefix(m: &Module, idx: Seq<TextRange>, k: int)
    requires
        0 <= k <= idx.len(),
        index_values(m, idx.take(k)) is None,
    ensures
        index_values(m, idx) is None,
    decreases idx.len() - k,
{
    if k < idx.len() {
        assert(idx.take(k + 1).drop_last() =~= idx.take(k));
        lemma_index_values_prefix(m, idx, k + 1);
    } else {
        assert(idx.take(k) =~= idx);
    }
}

proof fn lemma_index_values_frame(a: &Module, b: &Module, idx: Seq<TextRange>)
    requires
        a.value_table == b.value_table,
    ensures
        index_values(a, idx) == index_values(b, idx),
    decreases idx.len(),
{
    if idx.len() > 0 {
        lemma_index_values_frame(a, b, idx.drop_last());
    }
}

proof fn lemma_member_value_frame(a: &Module, b: &Module, base: TextRange, s: StructView, name: Seq<char>, idx: Seq<TextRange>)
    requires
        a.value_table == b.value_table,
        a.fields == b.fields,
    ensures
        member_value(a, base, s, name, idx) == member_value(b, base, s, name, idx),
{
    lemma_index_values_frame(a, b, idx);
}


// ---------------------------------------------------------------------------
// Variables and their elements
// ---------------------------------------------------------------------------

/// The zero value of a type: `0` of an integer type (`i32` for `void`),
/// `false`, a null pointer, a struct of zeros, the element zero of an array.
/// A float type has none here.
pub open spec fn zero_value(t: TyView) -> Option<ValueView>
    decreases t,
{
    match t {
        TyView::I32 | TyView::Void => Some(ValueView::I32(0)),
        TyView::I8 => Some(ValueView::I8(0)),
        TyView::U8 => Some(ValueView::U8(0)),
        TyView::U32 => Some(ValueView::U32(0)),
        TyView::I64 => Some(ValueView::I64(0)),
        TyView::U64 => Some(ValueView::U64(0)),
        TyView::Bool => Some(ValueView::Bool(false)),
        TyView::F32 => None,
        TyView::Array(inner, _) => zero_value(*inner),
        TyView::Pointer { .. } => Some(ValueView::Null),
        TyView::Struct { id, .. } => Some(ValueView::StructZero(id)),
        TyView::Const(inner) => zero_value(*inner),
    }
}

impl Ty {
    /// The zero value of the type, as `zero_value` says.
    pub fn const_zero(&self) -> (r: Option<Value>)
        ensures
            r matches Some(v) ==> zero_value(self@) == Some(v@),
            r is None ==> zero_value(self@) is None,
        decreases self,
    {
        proof {
            reveal_with_fuel(crate::types::ty_view, 2);
        }
        match self {
            Ty::I32 | Ty::Void => Some(Value::I32(0)),
            Ty::I8 => Some(Value::I8(0)),
            Ty::U8 => Some(Value::U8(0)),
            Ty::U32 => Some(Value::U32(0)),
            Ty::I64 => Some(Value::I64(0)),
            Ty::U64 => Some(Value::U64(0)),
            Ty::Bool => Some(Value::Bool(false)),
            Ty::F32 => None,
            Ty::Array(inner, _) => inner.const_zero(),
            Ty::Pointer { .. } => Some(Value::Null),
            Ty::Struct { id, .. } => Some(Value::StructZero(*id)),
            Ty::Const(inner) => inner.const_zero(),
        }
    }
}

/// An index expression: its range and the range without trivia.
#[derive(Debug, Clone, Copy)]
pub struct IndexNode {
    pub range: TextRange,
    pub trimmed: TextRange,
}

/// A use of a variable, maybe indexed: `a`, `a[i][j]`.
#[derive(Debug)]
pub struct IndexValNode {
    pub range: TextRange,
    pub trimmed: TextRange,
    /// The variable's name and the name's range.
    pub name: Option<(String, TextRange)>,
    pub indices: Vec<IndexNode>,
}

/// An error that a variable use can report, as a mathematical value.
pub enum IndexReport {
    VariableUndefined(Seq<char>, TextRange),
    ApplyOpOnType(TyView, Seq<char>, TextRange),
    /// An index whose constant value is not an integer.
    TypeMismatch(TyView, TextRange),
    /// Constant indices that do not fit the constant array's shape.
    ArrayError(TextRange),
}

/// Whether the error `e` is the report `r`.
pub open spec fn reports_index(e: AnalyzeError, r: IndexReport) -> bool {
    match r {
        IndexReport::VariableUndefined(n, x) => e matches AnalyzeError::VariableUndefined { name, range } && name@ == n
            && range == x,
        IndexReport::ApplyOpOnType(t, o, x) => e matches AnalyzeError::ApplyOpOnType { ty, op, range } && ty@ == t
            && op@ == o && range == x,
        IndexReport::TypeMismatch(t, x) => e matches AnalyzeError::TypeMismatch { expected, found, range } && expected@
            == TyView::I32 && found@ == t && range == x,
        IndexReport::ArrayError(x) => e matches AnalyzeError::ArrayError { message, range } && *message is MisMatchIndexAndType
            && range == x,
    }
}

/// What leaving a variable use does.
pub struct IndexEffect {
    pub ty: Option<TyView>,
    pub value: Option<ValueView>,
    pub var_read: Option<(TextRange, VariableID)>,
    pub report: Option<IndexReport>,
}

/// The variable that a name resolves to from the scope analysis is in.
pub open spec fn resolve(m: &Module, name: Seq<char>) -> Option<VariableID> {
    if m.current_scope.0 < m.scopes@.len() {
        lookup_in(m.scopes@, m.current_scope.0 as int, name)
    } else {
        None
    }
}

/// Reading the constant indices: their numbers; `Err(None)` when one has no
/// constant value; `Err(Some(..))` with the type and range of the first one
/// that is not an integer.
pub open spec fn index_scan(m: &Module, idx: Seq<IndexNode>) -> Result<Seq<i32>, Option<(TyView, TextRange)>>
    decreases idx.len(),
{
    if idx.len() == 0 {
        Ok(Seq::empty())
    } else {
        match index_scan(m, idx.drop_last()) {
            Err(e) => Err(e),
            Ok(is) => match value_at(m.value_table@, idx.last().range) {
                None => Err(None),
                Some(v) => match array_size(v) {
                    Some(i) => Ok(is.push(i)),
                    None => Err(Some((value_type(v, *m), idx.last().trimmed))),
                },
            },
        }
    }
}

/// The constant value and the error of a constant variable use whose
/// variable has the constant value `v`.
pub open spec fn element_value(m: &Module, node: &IndexValNode, var_ty: TyView, v: ValueView) -> (Option<ValueView>, Option<IndexReport>) {
    match v {
        ValueView::Array(tree) => match index_scan(m, node.indices@) {
            Err(None) => (None, None),
            Err(Some((t, x))) => (None, Some(IndexReport::TypeMismatch(t, x))),
            Ok(is) => match leaf_at(tree, is) {
                None => (None, Some(IndexReport::ArrayError(node.trimmed))),
                Some(leaf) => if leaf is Empty {
                    (zero_value(var_ty), None)
                } else {
                    match leaf_value(leaf, m.value_table@) {
                        Some(x) => (Some(x@), None),
                        None => (None, None),
                    }
                },
            },
        },
        _ => (Some(v), None),
    }
}

/// The effect of leaving the variable use `node` in `m`: its type after
/// indexing; when the variable is constant and so is the result, the value
/// read out of the variable's constant value.
pub open spec fn index_effect(m: &Module, node: &IndexValNode) -> IndexEffect {
    match node.name {
        None => IndexEffect { ty: None, value: None, var_read: None, report: None },
        Some((n, nr)) => match resolve(m, n@) {
            None => IndexEffect {
                ty: None,
                value: None,
                var_read: None,
                report: Some(IndexReport::VariableUndefined(n@, nr)),
            },
            Some(id) => {
                let var = m.variables@[id.0 as int];
                match indexed(var.ty@, node.indices@.len()) {
                    Err(b) => IndexEffect {
                        ty: None,
                        value: None,
                        var_read: Some((nr, id)),
                        report: Some(IndexReport::ApplyOpOnType(b, "[]"@, node.trimmed)),
                    },
                    Ok(t) => if const_type(var.ty@) && const_type(t) {
                        match value_at(m.value_table@, var.range) {
                            None => IndexEffect { ty: Some(t), value: None, var_read: Some((nr, id)), report: None },
                            Some(v) => {
                                let (value, report) = element_value(m, node, var.ty@, v);
                                IndexEffect { ty: Some(t), value, var_read: Some((nr, id)), report }
                            },
                        }
                    } else {
                        IndexEffect { ty: Some(t), value: None, var_read: Some((nr, id)), report: None }
                    },
                }
            },
        },
    }
}

/// Whether leaving `node` in `m` may run: the variable the name resolves to is in the table.
pub open spec fn index_val_ok(m: &Module, node: &IndexValNode) -> bool {
    match node.name {
        Some((n, _)) => match resolve(m, n@) {
            Some(id) => id.0 < m.variables.len(),
            None => true,
        },
        None => true,
    }
}

impl Module {
    /// Resolves the variable of `node`, records the read, gives the use the
    /// variable's type after indexing, and for a constant variable whose
    /// indexed type is constant, folds the element out of its constant value
    /// (zero for an element that the initialiser left out).
    #[verifier::loop_isolation(false)]
    pub fn leave_index_val(&mut self, node: &IndexValNode)
        requires
            scopes_wf(old(self).scopes@),
            index_val_ok(old(self), node),
            old(self).reference.len() < u32::MAX,
        ensures
            same_tables(old(self), final(self)),
            final(self).overflowing_literals == old(self).overflowing_literals,
            forall|key: TextRange|
                #[trigger] type_at(final(self).type_table@, key) == if key == node.range && index_effect(
                    old(self),
                    node,
                ).ty is Some {
                    index_effect(old(self), node).ty
                } else {
                    type_at(old(self).type_table@, key)
                },
            forall|key: TextRange|
                #[trigger] value_at(final(self).value_table@, key) == if key == node.range && index_effect(
                    old(self),
                    node,
                ).value is Some {
                    index_effect(old(self), node).value
                } else {
                    value_at(old(self).value_table@, key)
                },
            match index_effect(old(self), node).var_read {
                Some((r, id)) => final(self).reference@ == old(self).reference@.push(
                    Reference { tag: ReferenceTag::VarRead(id), range: r },
                ),
                None => final(self).reference@ == old(self).reference@,
            },
            match index_effect(old(self), node).report {
                Some(r) => final(self).semantic_errors@ == old(self).semantic_errors@.push(final(self).semantic_errors@.last())
                    && reports_index(final(self).semantic_errors@.last(), r),
                None => final(self).semantic_errors@ == old(self).semantic_errors@,
            },
    {
        let (var_name, var_range) = match &node.name {
            Some((n, r)) => (n, *r),
            None => return,
        };
        let var_id = match self.find_variable_def(var_name.as_str()) {
            Some(id) => id,
            None => {
                self.semantic_errors.push(AnalyzeError::VariableUndefined { name: var_name.clone(), range: var_range });
                return;
            },
        };
        let ghost m0 = *self;
        self.new_reference(var_range, ReferenceTag::VarRead(var_id));
        let var_ty = self.variables[var_id.0 as usize].ty.clone();
        let decl_range = self.variables[var_id.0 as usize].range;
        let result_ty = match Self::compute_indexed_type(&var_ty, node.indices.len(), node.trimmed) {
            Ok(t) => t,
            Err(e) => {
                self.semantic_errors.push(e);
                return;
            },
        };
        let is_const = var_ty.is_const() && result_ty.is_const();
        bind_range(&mut self.type_table, node.range, result_ty);
        if !is_const {
            return;
        }
        let value = match self.get_value_by_range(decl_range) {
            Some(v) => v.clone(),
            None => return,
        };
        let ghost m1 = *self;
        proof {
            lemma_index_scan_frame(&m0, &m1, node.indices@);
        }
        let folded = match &value {
            Value::Array(tree) => {
                let mut is: Vec<i32> = Vec::new();
                let mut k: usize = 0;
                while k < node.indices.len()
                    invariant
                        k <= node.indices.len(),
                        *self == m1,
                        index_scan(self, node.indices@.take(k as int)) == Ok::<Seq<i32>, Option<(TyView, TextRange)>>(is@),
                    decreases node.indices.len() - k,
                {
                    proof {
                        assert(node.indices@.take(k + 1).drop_last() =~= node.indices@.take(k as int));
                        assert(node.indices@.take(k + 1).last() == node.indices@[k as int]);
                    }
                    let idx = node.indices[k];
                    let v = match self.get_value_by_range(idx.range) {
                        Some(v) => v,
                        None => {
                            proof {
                                lemma_index_scan_prefix(self, node.indices@, k as int + 1);
                            }
                            return;
                        },
                    };
                    match v.get_array_size() {
                        Some(i) => is.push(i),
                        None => {
                            let found = v.get_type(self);
                            proof {
                                lemma_index_scan_prefix(&m1, node.indices@, k as int + 1);
                            }
                            self.semantic_errors.push(AnalyzeError::TypeMismatch { expected: Ty::I32, found, range: idx.trimmed });
                            return;
                        },
                    }
                    k += 1;
                }
                proof {
                    assert(node.indices@.take(node.indices.len() as int) =~= node.indices@);
                }
                let leaf = match tree.get_leaf(is.as_slice()) {
                    Ok(l) => l,
                    Err(e) => {
                        self.semantic_errors.push(AnalyzeError::ArrayError { message: Box::new(e), range: node.trimmed });
                        return;
                    },
                };
                match leaf {
                    ArrayTreeValue::Empty => match var_ty.const_zero() {
                        Some(z) => z,
                        None => return,
                    },
                    _ => match leaf.get_const_value(&self.value_table) {
                        Some(v) => v.clone(),
                        None => return,
                    },
                }
            },
            _ => value,
        };
        bind_range(&mut self.value_table, node.range, folded);
    }
}

proof fn lemma_index_scan_prefix(m: &Module, idx: Seq<IndexNode>, k: int)
    requires
        0 <= k <= idx.len(),
        index_scan(m, idx.take(k)) is Err,
    ensures
        index_scan(m, idx) == index_scan(m, idx.take(k)),
    decreases idx.len() - k,
{
    if k < idx.len() {
        assert(idx.take(k + 1).drop_last() =~= idx.take(k));
        lemma_index_scan_prefix(m, idx, k + 1);
    } else {
        assert(idx.take(k) =~= idx);
    }
}

proof fn lemma_index_scan_frame(a: &Module, b: &Module, idx: Seq<IndexNode>)
    requires
        a.value_table == b.value_table,
        a.file_id == b.file_id,
        a.structs == b.structs,
        a.metadata == b.metadata,
    ensures
        index_scan(a, idx) == index_scan(b, idx),
    decreases idx.len(),
{
    if idx.len() > 0 {
        lemma_index_scan_frame(a, b, idx.drop_last());
        assert forall|v: ValueView| value_type(v, *a) == value_type(v, *b) by {
            match v {
                ValueView::Struct(id, _) => assert(a.struct_at(id) == b.struct_at(id)),
                ValueView::StructZero(id) => assert(a.struct_at(id) == b.struct_at(id)),
                _ => {},
            }
        }
    }
}


// ---------------------------------------------------------------------------
// Binary, parenthesised and call expressions
// ---------------------------------------------------------------------------

/// A binary expression: its range, the ranges of its operands and its operator.
#[derive(Debug)]
pub struct BinaryExprNode {
    pub range: TextRange,
    pub lhs: Option<TextRange>,
    pub rhs: Option<TextRange>,
    pub op: Option<OpToken>,
}

/// An error that a binary expression can report, as a mathematical value.
pub enum BinaryReport {
    BinaryOpTypeMismatch(Seq<char>, TyView, TyView, TextRange),
    ConstArithmeticOverflow(Seq<char>, TextRange),
}

pub open spec fn reports_binary(e: AnalyzeError, r: BinaryReport) -> bool {
    match r {
        BinaryReport::BinaryOpTypeMismatch(o, l, rt, x) => e matches AnalyzeError::BinaryOpTypeMismatch {
            op,
            lhs,
            rhs,
            range,
        } && op@ == o && lhs@ == l && rhs@ == rt && range == x,
        BinaryReport::ConstArithmeticOverflow(msg, x) => e matches AnalyzeError::ConstArithmeticOverflow {
            message,
            range,
        } && message@ == msg && range == x,
    }
}

/// What leaving a binary expression does.
pub struct BinaryEffect {
    pub ty: Option<TyView>,
    pub value: Option<ValueView>,
    pub report: Option<BinaryReport>,
}

/// The effect of leaving the binary expression `node` in `m`: the type of
/// the result when both operand types are known (a mismatch is reported and
/// stops there); the folded value when both operands are constant (an
/// overflow is reported).
pub open spec fn binary_effect(m: &Module, node: &BinaryExprNode) -> BinaryEffect {
    match (node.lhs, node.rhs, node.op) {
        (Some(l), Some(r), Some(op)) => {
            let lt = type_at(m.type_table@, l);
            let rt = type_at(m.type_table@, r);
            let ty = if lt is Some && rt is Some {
                binary_result(lt->0, rt->0, op.kind)
            } else {
                None
            };
            if lt is Some && rt is Some && ty is None {
                BinaryEffect {
                    ty: None,
                    value: None,
                    report: Some(BinaryReport::BinaryOpTypeMismatch(op.text@, lt->0, rt->0, node.range)),
                }
            } else {
                match (value_at(m.value_table@, l), value_at(m.value_table@, r)) {
                    (Some(lv), Some(rv)) => match binary_value(lv, rv, op.kind) {
                        Ok(v) => BinaryEffect { ty, value: Some(v), report: None },
                        Err(ErrView::Overflow(msg)) => BinaryEffect {
                            ty,
                            value: None,
                            report: Some(BinaryReport::ConstArithmeticOverflow(msg, node.range)),
                        },
                        Err(_) => BinaryEffect { ty, value: None, report: None },
                    },
                    _ => BinaryEffect { ty, value: None, report: None },
                }
            }
        },
        _ => BinaryEffect { ty: None, value: None, report: None },
    }
}

/// Whether leaving `node` in `m` may run: folding does not divide the
/// smallest value of a type by -1.
pub open spec fn binary_expr_ok(m: &Module, node: &BinaryExprNode) -> bool {
    match (node.lhs, node.rhs, node.op) {
        (Some(l), Some(r), Some(op)) => match (value_at(m.value_table@, l), value_at(m.value_table@, r)) {
            (Some(lv), Some(rv)) => !binary_overflows_division(lv, rv, op.kind),
            _ => true,
        },
        _ => true,
    }
}

/// A parenthesised expression: its range and that of the expression inside.
#[derive(Debug, Clone, Copy)]
pub struct ParenExprNode {
    pub range: TextRange,
    pub expr: Option<TextRange>,
}

impl Module {
    /// Gives the binary expression `node` its result type and folds its value.
    pub fn leave_binary_expr(&mut self, node: &BinaryExprNode)
        requires
            binary_expr_ok(old(self), node),
        ensures
            same_symbols(old(self), final(self)),
            final(self).overflowing_literals == old(self).overflowing_literals,
            forall|key: TextRange|
                #[trigger] type_at(final(self).type_table@, key) == if key == node.range && binary_effect(
                    old(self),
                    node,
                ).ty is Some {
                    binary_effect(old(self), node).ty
                } else {
                    type_at(old(self).type_table@, key)
                },
            forall|key: TextRange|
                #[trigger] value_at(final(self).value_table@, key) == if key == node.range && binary_effect(
                    old(self),
                    node,
                ).value is Some {
                    binary_effect(old(self), node).value
                } else {
                    value_at(old(self).value_table@, key)
                },
            match binary_effect(old(self), node).report {
                Some(r) => final(self).semantic_errors@ == old(self).semantic_errors@.push(final(self).semantic_errors@.last())
                    && reports_binary(final(self).semantic_errors@.last(), r),
                None => final(self).semantic_errors@ == old(self).semantic_errors@,
            },
    {
        let (l, r, op) = match (node.lhs, node.rhs, &node.op) {
            (Some(l), Some(r), Some(op)) => (l, r, op),
            _ => return,
        };
        let lt = match self.get_expr_type(l) {
            Some(t) => Some(t.clone()),
            None => None,
        };
        let rt = match self.get_expr_type(r) {
            Some(t) => Some(t.clone()),
            None => None,
        };
        if let (Some(a), Some(b)) = (&lt, &rt) {
            match Ty::compute_binary_result_type(a, b, op.kind) {
                Some(t) => bind_range(&mut self.type_table, node.range, t),
                None => {
                    self.semantic_errors.push(
                        AnalyzeError::BinaryOpTypeMismatch { op: op.text.clone(), lhs: a.clone(), rhs: b.clone(), range: node.range },
                    );
                    return;
                },
            }
        }
        let lv = match self.get_value_by_range(l) {
            Some(v) => v,
            None => return,
        };
        let rv = match self.get_value_by_range(r) {
            Some(v) => v,
            None => return,
        };
        match Value::calc_binary_expr(lv, rv, op.kind, self) {
            Ok(v) => bind_range(&mut self.value_table, node.range, v),
            Err(EvalError::Overflow(message)) => {
                self.semantic_errors.push(AnalyzeError::ConstArithmeticOverflow { message, range: node.range });
            },
            Err(_) => {},
        }
    }

    /// Gives the parenthesised expression the type and the constant value of
    /// the expression inside.
    pub fn leave_paren_expr(&mut self, node: &ParenExprNode)
        ensures
            same_symbols(old(self), final(self)),
            final(self).overflowing_literals == old(self).overflowing_literals,
            final(self).semantic_errors == old(self).semantic_errors,
            forall|key: TextRange|
                #[trigger] type_at(final(self).type_table@, key) == match node.expr {
                    Some(e) => if key == node.range && type_at(old(self).type_table@, e) is Some {
                        type_at(old(self).type_table@, e)
                    } else {
                        type_at(old(self).type_table@, key)
                    },
                    None => type_at(old(self).type_table@, key),
                },
            forall|key: TextRange|
                #[trigger] value_at(final(self).value_table@, key) == match node.expr {
                    Some(e) => if key == node.range && value_at(old(self).value_table@, e) is Some {
                        value_at(old(self).value_table@, e)
                    } else {
                        value_at(old(self).value_table@, key)
                    },
                    None => value_at(old(self).value_table@, key),
                },
    {
        let e = match node.expr {
            Some(e) => e,
            None => return,
        };
        let ghost vt = self.value_table@;
        if let Some(t) = self.get_expr_type(e) {
            let t = t.clone();
            bind_range(&mut self.type_table, node.range, t);
        }
        if let Some(v) = self.get_value_by_range(e) {
            let v = v.clone();
            bind_range(&mut self.value_table, node.range, v);
        }
    }
}

/// The argument list of a call: its range and the ranges of the arguments.
#[derive(Debug)]
pub struct ArgsNode {
    pub range: TextRange,
    pub args: Vec<TextRange>,
}

/// A call: its range, the called name with its range, and the arguments.
#[derive(Debug)]
pub struct CallExprNode {
    pub range: TextRange,
    pub name: Option<(String, TextRange)>,
    pub args: Option<ArgsNode>,
}

/// An error that a call can report, as a mathematical value.
pub enum CallReport {
    FunctionUndefined(Seq<char>, TextRange),
    ArgumentCountMismatch(Seq<char>, nat, nat, TextRange),
    /// The function, the parameter, the argument's position from 1, the
    /// parameter's type, the argument's type and the argument's range.
    ArgumentTypeMismatch(Seq<char>, Seq<char>, nat, TyView, TyView, TextRange),
}

pub open spec fn reports_call(e: AnalyzeError, r: CallReport) -> bool {
    match r {
        CallReport::FunctionUndefined(n, x) => e matches AnalyzeError::FunctionUndefined { name, range } && name@ == n
            && range == x,
        CallReport::ArgumentCountMismatch(n, ex, fd, x) => e matches AnalyzeError::ArgumentCountMismatch {
            function_name,
            expected,
            found,
            range,
        } && function_name@ == n && expected == ex && found == fd && range == x,
        CallReport::ArgumentTypeMismatch(n, p, i, et, ft, x) => e matches AnalyzeError::ArgumentTypeMismatch(d)
            && d.function_name@ == n && d.param_name@ == p && d.arg_index == i && d.expected@ == et && d.found@ == ft
            && d.range == x,
    }
}

/// Whether the errors `after` are `before` followed by the reports `rs`.
pub open spec fn calls_reported(before: Seq<AnalyzeError>, after: Seq<AnalyzeError>, rs: Seq<CallReport>) -> bool {
    &&& after.len() == before.len() + rs.len()
    &&& after.take(before.len() as int) == before
    &&& forall|i: int| 0 <= i < rs.len() ==> reports_call(#[trigger] after[before.len() + i], rs[i])
}

/// The reports for the first `n` arguments whose known type does not fit
/// their parameter.
pub open spec fn arg_reports(m: &Module, fname: Seq<char>, params: Seq<(Seq<char>, TyView)>, args: Seq<TextRange>, n: int) -> Seq<
    CallReport,
>
    decreases n,
{
    if n <= 0 {
        Seq::empty()
    } else {
        let rest = arg_reports(m, fname, params, args, n - 1);
        let i = n - 1;
        match type_at(m.type_table@, args[i]) {
            Some(at) => if !assignable(params[i].1, at) {
                rest.push(CallReport::ArgumentTypeMismatch(fname, params[i].0, (i + 1) as nat, params[i].1, at, args[i]))
            } else {
                rest
            },
            None => rest,
        }
    }
}

/// What leaving a call does: the type it gets, the function it calls (with
/// the name's range) and the errors it reports.
pub struct CallEffect {
    pub ty: Option<TyView>,
    pub call: Option<(TextRange, FunctionID)>,
    pub reports: Seq<CallReport>,
}

/// The effect of leaving the call `node` in `m`.
pub open spec fn call_effect(m: &Module, node: &CallExprNode) -> CallEffect {
    match node.name {
        None => CallEffect { ty: None, call: None, reports: Seq::empty() },
        Some((n, nr)) => match named(m.function_map@, n@) {
            None => CallEffect { ty: None, call: None, reports: seq![CallReport::FunctionUndefined(n@, nr)] },
            Some(fid) => match m.function_at(fid) {
                None => CallEffect { ty: None, call: Some((nr, fid)), reports: Seq::empty() },
                Some(f) => {
                    let args = match node.args {
                        Some(a) => a.args@,
                        None => Seq::empty(),
                    };
                    let at = match node.args {
                        Some(a) => a.range,
                        None => nr,
                    };
                    let n_exp = f.meta_types.len();
                    if (f.is_variadic && args.len() < n_exp) || (!f.is_variadic && args.len() != n_exp) {
                        CallEffect {
                            ty: Some(f.ret_type),
                            call: Some((nr, fid)),
                            reports: seq![CallReport::ArgumentCountMismatch(n@, n_exp, args.len(), at)],
                        }
                    } else {
                        CallEffect {
                            ty: Some(f.ret_type),
                            call: Some((nr, fid)),
                            reports: arg_reports(m, n@, f.meta_types, args, n_exp as int),
                        }
                    }
                },
            },
        },
    }
}

impl Module {
    /// Resolves the called function, records the call, checks the number of
    /// arguments (at least the parameters for a variadic function) and the
    /// type of each argument that has a parameter, and gives the call the
    /// function's return type.
    #[verifier::loop_isolation(false)]
    pub fn leave_call_expr(&mut self, node: &CallExprNode)
        requires
            old(self).reference.len() < u32::MAX,
        ensures
            same_tables(old(self), final(self)),
            final(self).value_table == old(self).value_table,
            final(self).overflowing_literals == old(self).overflowing_literals,
            forall|key: TextRange|
                #[trigger] type_at(final(self).type_table@, key) == if key == node.range && call_effect(
                    old(self),
                    node,
                ).ty is Some {
                    call_effect(old(self), node).ty
                } else {
                    type_at(old(self).type_table@, key)
                },
            match call_effect(old(self), node).call {
                Some((r, fid)) => final(self).reference@ == old(self).reference@.push(
                    Reference { tag: ReferenceTag::FuncCall(fid), range: r },
                ),
                None => final(self).reference@ == old(self).reference@,
            },
            calls_reported(old(self).semantic_errors@, final(self).semantic_errors@, call_effect(old(self), node).reports),
    {
        let ghost e0 = self.semantic_errors@;
        proof {
            assert(e0.take(e0.len() as int) =~= e0);
        }
        let (name, nr) = match &node.name {
            Some((n, r)) => (n, *r),
            None => return,
        };
        let fid = match self.get_function_id_by_name(name.as_str()) {
            Some(f) => f,
            None => {
                self.semantic_errors.push(AnalyzeError::FunctionUndefined { name: name.clone(), range: nr });
                proof {
                    assert(self.semantic_errors@.take(e0.len() as int) =~= e0);
                }
                return;
            },
        };
        let ghost m0 = *self;
        self.new_reference(nr, ReferenceTag::FuncCall(fid));
        let func = match self.get_function_by_id(fid) {
            Some(f) => f,
            None => return,
        };
        let empty: Vec<TextRange> = Vec::new();
        let (args, at) = match &node.args {
            Some(a) => (&a.args, a.range),
            None => (&empty, nr),
        };
        let n_exp = func.meta_types.len();
        if (func.is_variadic && args.len() < n_exp) || (!func.is_variadic && args.len() != n_exp) {
            self.semantic_errors.push(
                AnalyzeError::ArgumentCountMismatch {
                    function_name: name.clone(),
                    expected: n_exp,
                    found: args.len(),
                    range: at,
                },
            );
            proof {
                assert(self.semantic_errors@.take(e0.len() as int) =~= e0);
            }
            bind_range(&mut self.type_table, node.range, func.ret_type.clone());
            return;
        }
        let mut i: usize = 0;
        while i < n_exp
            invariant
                i <= n_exp,
                n_exp <= args.len(),
                self.type_table == m0.type_table,
                self.value_table == m0.value_table,
                self.overflowing_literals == m0.overflowing_literals,
                self.reference@ == m0.reference@.push(Reference { tag: ReferenceTag::FuncCall(fid), range: nr }),
                same_tables(&m0, self),
                calls_reported(e0, self.semantic_errors@, arg_reports(&m0, name@, metas_view(func.meta_types@), args@, i as int)),
            decreases n_exp - i,
        {
            let ghost before = self.semantic_errors@;
            if let Some(actual) = self.get_expr_type(args[i]) {
                let (pname, pty) = &func.meta_types[i];
                if !pty.assign_to_me_is_ok(actual) {
                    let found = actual.clone();
                    self.semantic_errors.push(
                        AnalyzeError::ArgumentTypeMismatch(
                            Box::new(
                                ArgumentTypeMismatchData {
                                    function_name: name.clone(),
                                    param_name: pname.clone(),
                                    arg_index: i + 1,
                                    expected: pty.clone(),
                                    found,
                                    range: args[i],
                                },
                            ),
                        ),
                    );
                    proof {
                        let rs = arg_reports(&m0, name@, metas_view(func.meta_types@), args@, i + 1);
                        assert(self.semantic_errors@.take(e0.len() as int) =~= e0);
                        assert forall|j: int| 0 <= j < rs.len() implies reports_call(
                            #[trigger] self.semantic_errors@[e0.len() + j],
                            rs[j],
                        ) by {
                            if j < rs.len() - 1 {
                                assert(self.semantic_errors@[e0.len() + j] == before[e0.len() + j]);
                            }
                        }
                    }
                }
            }
            i += 1;
        }
        bind_range(&mut self.type_table, node.range, func.ret_type.clone());
    }
}

} // verus!
