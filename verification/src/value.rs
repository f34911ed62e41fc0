//! Compile-time values and the constant folding of operators on them.

use vstd::prelude::*;

use crate::array::{tree_view, ArrayTree, ArrayTreeView};
use crate::module::{Module, StructID};
use crate::syntax_kind::{kind_name, SyntaxKind};
use crate::module::StructView;
use crate::text::{concat_str, decimal_text, push_char, radix_digits};
use crate::types::{
    arith_op, compare_op, is_int, is_signed_int, logic_op, promotion, unconst, widens, Ty, TyView,
};
use crate::tytext::{signed_text, wide_int_text};

verus! {

/// A value known at compile time.
#[derive(Debug)]
pub enum Value {
    I32(i32),
    I8(i8),
    U8(u8),
    U32(u32),
    I64(i64),
    U64(u64),
    Bool(bool),
    String(String),
    Array(ArrayTree),
    Struct(StructID, Vec<Value>),
    StructZero(StructID),
    Null,
}

/// A value as a mathematical object.
pub enum ValueView {
    I32(i32),
    I8(i8),
    U8(u8),
    U32(u32),
    I64(i64),
    U64(u64),
    Bool(bool),
    String(Seq<char>),
    Array(ArrayTreeView),
    Struct(StructID, Seq<ValueView>),
    StructZero(StructID),
    Null,
}

/// The mathematical value of a value.
pub open spec fn value_view(v: Value) -> ValueView
    decreases v,
{
    match v {
        Value::I32(x) => ValueView::I32(x),
        Value::I8(x) => ValueView::I8(x),
        Value::U8(x) => ValueView::U8(x),
        Value::U32(x) => ValueView::U32(x),
        Value::I64(x) => ValueView::I64(x),
        Value::U64(x) => ValueView::U64(x),
        Value::Bool(b) => ValueView::Bool(b),
        Value::String(s) => ValueView::String(s@),
        Value::Array(t) => ValueView::Array(tree_view(t)),
        Value::Struct(id, vals) => ValueView::Struct(
            id,
            Seq::new(
                vals.len() as nat,
                |i: int|
                    {
                        if 0 <= i < vals.len() {
                            proof {
                                broadcast use vstd::std_specs::vec::axiom_vec_index_decreases;

                            }
                            value_view(vals[i])
                        } else {
                            ValueView::Null
                        }
                    },
            ),
        ),
        Value::StructZero(id) => ValueView::StructZero(id),
        Value::Null => ValueView::Null,
    }
}

impl View for Value {
    type V = ValueView;

    open spec fn view(&self) -> ValueView {
        value_view(*self)
    }
}

/// Why a constant expression cannot be folded.
#[derive(Debug)]
pub enum EvalError {
    TypeMismatch,
    UnsupportedOperation(String),
    Overflow(String),
}

/// An evaluation error as a mathematical value.
pub enum ErrView {
    TypeMismatch,
    UnsupportedOperation(Seq<char>),
    Overflow(Seq<char>),
}

/// The mathematical value of the outcome of an evaluation.
pub open spec fn outcome(r: Result<Value, EvalError>) -> Result<ValueView, ErrView> {
    match r {
        Ok(v) => Ok(v@),
        Err(EvalError::TypeMismatch) => Err(ErrView::TypeMismatch),
        Err(EvalError::UnsupportedOperation(s)) => Err(ErrView::UnsupportedOperation(s@)),
        Err(EvalError::Overflow(s)) => Err(ErrView::Overflow(s@)),
    }
}

// ---------------------------------------------------------------------------
// Numbers
// ---------------------------------------------------------------------------

/// The smallest value of an integer type.
pub open spec fn int_min(t: TyView) -> int {
    match t {
        TyView::I8 => i8::MIN as int,
        TyView::I32 => i32::MIN as int,
        TyView::I64 => i64::MIN as int,
        _ => 0,
    }
}

/// The largest value of an integer type.
pub open spec fn int_max(t: TyView) -> int {
    match t {
        TyView::I8 => i8::MAX as int,
        TyView::U8 => u8::MAX as int,
        TyView::I32 => i32::MAX as int,
        TyView::U32 => u32::MAX as int,
        TyView::I64 => i64::MAX as int,
        TyView::U64 => u64::MAX as int,
        _ => 0,
    }
}

pub open spec fn in_range(t: TyView, x: int) -> bool {
    int_min(t) <= x <= int_max(t)
}

/// The value of integer type `t` that holds `x`.
pub open spec fn int_value(t: TyView, x: int) -> ValueView {
    match t {
        TyView::I8 => ValueView::I8(x as i8),
        TyView::U8 => ValueView::U8(x as u8),
        TyView::I32 => ValueView::I32(x as i32),
        TyView::U32 => ValueView::U32(x as u32),
        TyView::I64 => ValueView::I64(x as i64),
        TyView::U64 => ValueView::U64(x as u64),
        _ => ValueView::Null,
    }
}

/// The type of a scalar value (an integer or a boolean).
pub open spec fn scalar_ty(v: ValueView) -> Option<TyView> {
    match v {
        ValueView::I32(_) => Some(TyView::I32),
        ValueView::I8(_) => Some(TyView::I8),
        ValueView::U8(_) => Some(TyView::U8),
        ValueView::U32(_) => Some(TyView::U32),
        ValueView::I64(_) => Some(TyView::I64),
        ValueView::U64(_) => Some(TyView::U64),
        ValueView::Bool(_) => Some(TyView::Bool),
        _ => None,
    }
}

/// The number a scalar stands for; `true` is 1 and `false` is 0.
pub open spec fn num(v: ValueView) -> int {
    match v {
        ValueView::I32(x) => x as int,
        ValueView::I8(x) => x as int,
        ValueView::U8(x) => x as int,
        ValueView::U32(x) => x as int,
        ValueView::I64(x) => x as int,
        ValueView::U64(x) => x as int,
        ValueView::Bool(b) => if b {
            1
        } else {
            0
        },
        _ => 0,
    }
}

/// Whether a scalar counts as true: a boolean itself, an integer when non-zero.
pub open spec fn truth(v: ValueView) -> Option<bool> {
    if scalar_ty(v) is Some {
        Some(num(v) != 0)
    } else {
        None
    }
}

/// The name of an integer type in the source language.
pub open spec fn int_ty_name(t: TyView) -> Seq<char> {
    match t {
        TyView::I8 => seq!['i', '8'],
        TyView::U8 => seq!['u', '8'],
        TyView::I32 => seq!['i', '3', '2'],
        TyView::U32 => seq!['u', '3', '2'],
        TyView::I64 => seq!['i', '6', '4'],
        _ => seq!['u', '6', '4'],
    }
}

/// Division that rounds toward zero.
pub open spec fn trunc_div(x: int, d: int) -> int {
    if x == 0 {
        0
    } else if x > 0 && d > 0 {
        x / d
    } else if x < 0 && d < 0 {
        (x * -1) / (d * -1)
    } else if x < 0 {
        ((x * -1) / d) * -1
    } else {
        (x / (d * -1)) * -1
    }
}

/// The remainder that goes with `trunc_div`; it has the sign of `x`.
pub open spec fn trunc_rem(x: int, d: int) -> int {
    if x == 0 {
        0
    } else if x > 0 && d > 0 {
        x % d
    } else if x < 0 && d < 0 {
        ((x * -1) % (d * -1)) * -1
    } else if x < 0 {
        ((x * -1) % d) * -1
    } else {
        x % (d * -1)
    }
}

/// The text of an overflow error: `{lhs} {op} {rhs} overflows {type}`.
pub open spec fn overflow_text(lhs: int, op: char, rhs: int, ty_name: Seq<char>) -> Seq<char> {
    signed_text(lhs) + " "@ + seq![op] + " "@ + signed_text(rhs) + " overflows "@ + ty_name
}

/// The name given to a struct that no table holds: `struct#` and its slot.
pub open spec fn struct_placeholder_text(index: u32) -> Seq<char> {
    "struct#"@ + radix_digits(index as nat, 10)
}

/// The text of an overflow error, as `overflow_text` says.
fn overflow_message(lhs: i128, op: char, rhs: i128, ty_name: &str) -> (s: String)
    requires
        -18446744073709551615 <= lhs <= 18446744073709551615,
        -18446744073709551615 <= rhs <= 18446744073709551615,
    ensures
        s@ == overflow_text(lhs as int, op, rhs as int, ty_name@),
{
    let a = wide_int_text(lhs);
    let mut s = concat_str(a.as_str(), " ");
    push_char(&mut s, op);
    let b = wide_int_text(rhs);
    let s = concat_str(s.as_str(), " ");
    let s = concat_str(s.as_str(), b.as_str());
    let s = concat_str(s.as_str(), " overflows ");
    let s = concat_str(s.as_str(), ty_name);
    proof {
        reveal_strlit(" ");
        reveal_strlit(" overflows ");
        assert(s@ =~= overflow_text(lhs as int, op, rhs as int, ty_name@));
    }
    s
}

/// The name given to a struct that no table holds, as `struct_placeholder_text` says.
fn struct_placeholder_name(index: u32) -> (s: String)
    ensures
        s@ == struct_placeholder_text(index),
{
    let digits = decimal_text(index as u64);
    concat_str("struct#", digits.as_str())
}

/// An owned copy of a piece of text.
fn text(s: &str) -> (r: String)
    ensures
        r@ == s@,
{
    s.to_string()
}

// ---------------------------------------------------------------------------
// What folding computes
// ---------------------------------------------------------------------------

/// Whether a scalar of type `from` converts to type `to`: to itself, to a wider
/// integer of the same signedness, a boolean to any integer, an integer to a boolean.
pub open spec fn cast_accepts(to: TyView, from: TyView) -> bool {
    &&& is_int(to) || to is Bool
    &&& is_int(from) || from is Bool
    &&& to == from || from is Bool || to is Bool || (is_int(from) && widens(to, from))
}

/// The scalar of type `p` that holds the number `x`; a boolean holds `x != 0`.
pub open spec fn scalar_value(p: TyView, x: int) -> ValueView {
    if p is Bool {
        ValueView::Bool(x != 0)
    } else {
        int_value(p, x)
    }
}

/// `v` converted to the scalar type `to`.
pub open spec fn cast_value(v: ValueView, to: TyView) -> Result<ValueView, ErrView> {
    match scalar_ty(v) {
        Some(from) => if cast_accepts(to, from) {
            Ok(scalar_value(to, num(v)))
        } else {
            Err(ErrView::TypeMismatch)
        },
        None => Err(ErrView::TypeMismatch),
    }
}

/// `v` converted for a place of type `target`: scalars are converted, the
/// rest is kept as it is.
pub open spec fn convert_value(v: ValueView, target: TyView) -> Result<ValueView, ErrView> {
    let t = unconst(target);
    if is_int(t) || t is Bool {
        cast_value(v, t)
    } else {
        Ok(v)
    }
}

pub open spec fn compare(a: int, b: int, op: SyntaxKind) -> bool {
    if op == SyntaxKind::LT {
        a < b
    } else if op == SyntaxKind::GT {
        a > b
    } else if op == SyntaxKind::LTEQ {
        a <= b
    } else if op == SyntaxKind::GTEQ {
        a >= b
    } else if op == SyntaxKind::EQEQ {
        a == b
    } else {
        a != b
    }
}

/// Whether `a op b` on two integers of type `t` would be a division that
/// overflows (the smallest value divided by -1).
pub open spec fn division_overflows(t: TyView, a: int, b: int, op: SyntaxKind) -> bool {
    &&& op == SyntaxKind::SLASH || op == SyntaxKind::PERCENT
    &&& is_signed_int(t)
    &&& a == int_min(t)
    &&& b == -1
}

/// `a op b` on two integers of type `t`.
pub open spec fn int_op_value(t: TyView, a: int, b: int, op: SyntaxKind) -> Result<ValueView, ErrView> {
    if op == SyntaxKind::PLUS {
        if in_range(t, a + b) {
            Ok(int_value(t, a + b))
        } else {
            Err(ErrView::Overflow(overflow_text(a, '+', b, int_ty_name(t))))
        }
    } else if op == SyntaxKind::MINUS {
        if in_range(t, a - b) {
            Ok(int_value(t, a - b))
        } else {
            Err(ErrView::Overflow(overflow_text(a, '-', b, int_ty_name(t))))
        }
    } else if op == SyntaxKind::STAR {
        if in_range(t, a * b) {
            Ok(int_value(t, a * b))
        } else {
            Err(ErrView::Overflow(overflow_text(a, '*', b, int_ty_name(t))))
        }
    } else if op == SyntaxKind::SLASH {
        if b == 0 {
            Err(ErrView::UnsupportedOperation("Division by zero"@))
        } else {
            Ok(int_value(t, trunc_div(a, b)))
        }
    } else if op == SyntaxKind::PERCENT {
        if b == 0 {
            Err(ErrView::UnsupportedOperation("Modulo by zero"@))
        } else {
            Ok(int_value(t, trunc_rem(a, b)))
        }
    } else if compare_op(op) {
        Ok(ValueView::Bool(compare(a, b, op)))
    } else {
        Err(ErrView::TypeMismatch)
    }
}

/// `l op r` on two scalars of one type.
pub open spec fn same_type_value(l: ValueView, r: ValueView, op: SyntaxKind) -> Result<ValueView, ErrView> {
    match (scalar_ty(l), scalar_ty(r)) {
        (Some(tl), Some(tr)) => if tl != tr {
            Err(ErrView::TypeMismatch)
        } else if tl is Bool {
            if op == SyntaxKind::EQEQ {
                Ok(ValueView::Bool(num(l) == num(r)))
            } else if op == SyntaxKind::NEQ {
                Ok(ValueView::Bool(num(l) != num(r)))
            } else {
                Err(ErrView::UnsupportedOperation(kind_name(op)))
            }
        } else {
            int_op_value(tl, num(l), num(r), op)
        },
        _ => Err(ErrView::TypeMismatch),
    }
}

/// The folded value of `l op r`. Logical operators take truth values;
/// comparisons and arithmetic bring both sides to their common type first
/// (arithmetic only on integers); `null` compares equal to `null`.
pub open spec fn binary_value(l: ValueView, r: ValueView, op: SyntaxKind) -> Result<ValueView, ErrView> {
    if l is Null && r is Null {
        if op == SyntaxKind::EQEQ {
            Ok(ValueView::Bool(true))
        } else if op == SyntaxKind::NEQ {
            Ok(ValueView::Bool(false))
        } else {
            Err(ErrView::UnsupportedOperation(kind_name(op)))
        }
    } else if logic_op(op) {
        match (truth(l), truth(r)) {
            (Some(a), Some(b)) => Ok(
                ValueView::Bool(
                    if op == SyntaxKind::AMPAMP {
                        a && b
                    } else {
                        a || b
                    },
                ),
            ),
            _ => Err(ErrView::TypeMismatch),
        }
    } else if compare_op(op) || arith_op(op) {
        match (scalar_ty(l), scalar_ty(r)) {
            (Some(tl), Some(tr)) => match promotion(tl, tr) {
                Some(p) => if compare_op(op) || is_int(p) {
                    same_type_value(scalar_value(p, num(l)), scalar_value(p, num(r)), op)
                } else {
                    Err(ErrView::TypeMismatch)
                },
                None => Err(ErrView::TypeMismatch),
            },
            _ => Err(ErrView::TypeMismatch),
        }
    } else {
        same_type_value(l, r, op)
    }
}

/// Folding a comparison of two integers of one type gives the truth of the
/// comparison of the numbers: `a > b` folds to `Bool(a > b)` and so on for
/// each comparison operator. So `a > a` folds to `false`, `a > b` folds to
/// the negation of `a <= b`, and `a > b` folds like `b < a`.
pub proof fn lemma_fold_comparison(t: TyView, a: int, b: int)
    requires
        is_int(t),
        in_range(t, a),
        in_range(t, b),
    ensures
        ({
            let x = int_value(t, a);
            let y = int_value(t, b);
            &&& binary_value(x, y, SyntaxKind::LT) == Ok::<ValueView, ErrView>(ValueView::Bool(a < b))
            &&& binary_value(x, y, SyntaxKind::GT) == Ok::<ValueView, ErrView>(ValueView::Bool(a > b))
            &&& binary_value(x, y, SyntaxKind::LTEQ) == Ok::<ValueView, ErrView>(ValueView::Bool(a <= b))
            &&& binary_value(x, y, SyntaxKind::GTEQ) == Ok::<ValueView, ErrView>(ValueView::Bool(a >= b))
            &&& binary_value(x, y, SyntaxKind::EQEQ) == Ok::<ValueView, ErrView>(ValueView::Bool(a == b))
            &&& binary_value(x, y, SyntaxKind::NEQ) == Ok::<ValueView, ErrView>(ValueView::Bool(a != b))
            &&& binary_value(x, y, SyntaxKind::GT) == binary_value(y, x, SyntaxKind::LT)
            &&& binary_value(x, x, SyntaxKind::GT) == Ok::<ValueView, ErrView>(ValueView::Bool(false))
        }),
{
    let x = int_value(t, a);
    let y = int_value(t, b);
    assert(scalar_ty(x) == Some(t) && num(x) == a);
    assert(scalar_ty(y) == Some(t) && num(y) == b);
    assert(promotion(t, t) == Some(t));
    assert(scalar_value(t, a) == x);
    assert(scalar_value(t, b) == y);
}

/// Whether folding `l op r` would divide the smallest value of a signed type by -1.
pub open spec fn binary_overflows_division(l: ValueView, r: ValueView, op: SyntaxKind) -> bool {
    &&& !(l is Null && r is Null)
    &&& arith_op(op)
    &&& scalar_ty(l) is Some
    &&& scalar_ty(r) is Some
    &&& promotion(scalar_ty(l)->0, scalar_ty(r)->0) matches Some(p) && division_overflows(
        p,
        num(l),
        num(r),
        op,
    )
}

/// Whether `l op r` on two integers of one type divides its smallest value by -1.
pub open spec fn same_type_division_overflows(l: ValueView, r: ValueView, op: SyntaxKind) -> bool {
    &&& scalar_ty(l) is Some
    &&& scalar_ty(l) == scalar_ty(r)
    &&& division_overflows(scalar_ty(l)->0, num(l), num(r), op)
}

/// `-x` on integers of type `t`, wrapping around at the ends of the range.
pub open spec fn wrapping_neg(t: TyView, x: int) -> int {
    if x == 0 {
        0
    } else if is_signed_int(t) {
        if x == int_min(t) {
            x
        } else {
            -x
        }
    } else {
        int_max(t) + 1 - x
    }
}

/// The folded value of `op v`: `!` takes a truth value, `+` and `-` an integer
/// (a boolean counts as an `i32`); `-` wraps around.
pub open spec fn unary_value(v: ValueView, op: SyntaxKind) -> Result<ValueView, ErrView> {
    if op == SyntaxKind::BANG {
        match truth(v) {
            Some(b) => Ok(ValueView::Bool(!b)),
            None => Err(ErrView::TypeMismatch),
        }
    } else if op == SyntaxKind::PLUS || op == SyntaxKind::MINUS {
        match scalar_ty(v) {
            Some(t) => {
                let t2 = if t is Bool {
                    TyView::I32
                } else {
                    t
                };
                if op == SyntaxKind::PLUS {
                    Ok(int_value(t2, num(v)))
                } else {
                    Ok(int_value(t2, wrapping_neg(t2, num(v))))
                }
            },
            None => Err(ErrView::TypeMismatch),
        }
    } else {
        Err(ErrView::UnsupportedOperation(kind_name(op)))
    }
}

/// The length an array dimension gets from a value: integers as `i32`
/// (wrapping), nothing from the rest.
pub open spec fn array_size(v: ValueView) -> Option<i32> {
    match v {
        ValueView::I32(x) => Some(x),
        ValueView::U32(x) => Some(x as i32),
        ValueView::I8(x) => Some(x as i32),
        ValueView::U8(x) => Some(x as i32),
        ValueView::U64(x) => Some(x as i32),
        ValueView::I64(x) => Some(x as i32),
        _ => None,
    }
}

/// The name under which a struct value's type is shown.
pub open spec fn struct_type_name(m: Module, id: StructID) -> Seq<char> {
    match m.struct_at(id) {
        Some(s) => s.name,
        None => struct_placeholder_text(id.index),
    }
}

/// The type of a value. String literals are `*const u8`, `null` is `*const void`,
/// an array's element type is not recorded.
pub open spec fn value_type(v: ValueView, m: Module) -> TyView {
    match v {
        ValueView::I32(_) => TyView::I32,
        ValueView::I8(_) => TyView::I8,
        ValueView::U8(_) => TyView::U8,
        ValueView::U32(_) => TyView::U32,
        ValueView::I64(_) => TyView::I64,
        ValueView::U64(_) => TyView::U64,
        ValueView::Bool(_) => TyView::Bool,
        ValueView::String(_) => TyView::Pointer { pointee: Box::new(TyView::U8), is_const: true },
        ValueView::Array(_) => TyView::Array(Box::new(TyView::Void), None),
        ValueView::Struct(id, _) => TyView::Struct { id, name: struct_type_name(m, id) },
        ValueView::StructZero(id) => TyView::Struct { id, name: struct_type_name(m, id) },
        ValueView::Null => TyView::Pointer { pointee: Box::new(TyView::Void), is_const: true },
    }
}

// ---------------------------------------------------------------------------
// Folding
// ---------------------------------------------------------------------------

pub(crate) fn int_ty_text(t: &Ty) -> (r: &'static str)
    requires
        is_int(t@),
    ensures
        r@ == int_ty_name(t@),
{
    match t {
        Ty::I8 => {
            proof {
                reveal_strlit("i8");
            }
            "i8"
        },
        Ty::U8 => {
            proof {
                reveal_strlit("u8");
            }
            "u8"
        },
        Ty::I32 => {
            proof {
                reveal_strlit("i32");
            }
            "i32"
        },
        Ty::U32 => {
            proof {
                reveal_strlit("u32");
            }
            "u32"
        },
        Ty::I64 => {
            proof {
                reveal_strlit("i64");
            }
            "i64"
        },
        _ => {
            proof {
                reveal_strlit("u64");
            }
            "u64"
        },
    }
}

fn fits(t: &Ty, x: i128) -> (r: bool)
    requires
        is_int(t@),
    ensures
        r == in_range(t@, x as int),
{
    match t {
        Ty::I8 => -128 <= x && x <= 127,
        Ty::U8 => 0 <= x && x <= 255,
        Ty::I32 => -2147483648 <= x && x <= 2147483647,
        Ty::U32 => 0 <= x && x <= 4294967295,
        Ty::I64 => -9223372036854775808 <= x && x <= 9223372036854775807,
        _ => 0 <= x && x <= 18446744073709551615,
    }
}

fn make_int(t: &Ty, x: i128) -> (r: Value)
    requires
        is_int(t@),
        in_range(t@, x as int),
    ensures
        r@ == int_value(t@, x as int),
{
    match t {
        Ty::I8 => Value::I8(x as i8),
        Ty::U8 => Value::U8(x as u8),
        Ty::I32 => Value::I32(x as i32),
        Ty::U32 => Value::U32(x as u32),
        Ty::I64 => Value::I64(x as i64),
        _ => Value::U64(x as u64),
    }
}

proof fn lemma_div_bounds(x: int, d: int)
    requires
        d != 0,
    ensures
        -abs(x) <= trunc_div(x, d) <= abs(x),
        abs(d) >= 2 ==> -abs(x) <= 2 * trunc_div(x, d) <= abs(x),
        x != 0 ==> -abs(d) < trunc_rem(x, d) < abs(d),
        x == 0 ==> trunc_rem(x, d) == 0,
        x > 0 ==> trunc_rem(x, d) >= 0,
        x < 0 ==> trunc_rem(x, d) <= 0,
{
    let ax = abs(x);
    let ad = abs(d);
    if ax > 0 {
        assert(ax / ad <= ax) by (nonlinear_arith)
            requires
                ax > 0,
                ad >= 1,
        ;
        assert(ad >= 2 ==> 2 * (ax / ad) <= ax) by (nonlinear_arith)
            requires
                ax > 0,
                ad >= 1,
        ;
        assert(0 <= ax / ad) by (nonlinear_arith)
            requires
                ax > 0,
                ad >= 1,
        ;
        assert(0 <= ax % ad < ad) by (nonlinear_arith)
            requires
                ax > 0,
                ad >= 1,
        ;
    }
}

pub open spec fn abs(x: int) -> int {
    if x < 0 {
        -x
    } else {
        x
    }
}

/// `a op b` on two integers of type `t`, computed exactly and checked against the range of `t`.
fn int_op(t: &Ty, a: i128, b: i128, op: SyntaxKind) -> (r: Result<Value, EvalError>)
    requires
        is_int(t@),
        in_range(t@, a as int),
        in_range(t@, b as int),
        !division_overflows(t@, a as int, b as int, op),
    ensures
        outcome(r) == int_op_value(t@, a as int, b as int, op),
{
    if op == SyntaxKind::PLUS {
        let x = a + b;
        if fits(t, x) {
            Ok(make_int(t, x))
        } else {
            Err(EvalError::Overflow(overflow_message(a, '+', b, int_ty_text(t))))
        }
    } else if op == SyntaxKind::MINUS {
        let x = a - b;
        if fits(t, x) {
            Ok(make_int(t, x))
        } else {
            Err(EvalError::Overflow(overflow_message(a, '-', b, int_ty_text(t))))
        }
    } else if op == SyntaxKind::STAR {
        match a.checked_mul(b) {
            Some(x) => {
                if fits(t, x) {
                    Ok(make_int(t, x))
                } else {
                    Err(EvalError::Overflow(overflow_message(a, '*', b, int_ty_text(t))))
                }
            },
            None => Err(EvalError::Overflow(overflow_message(a, '*', b, int_ty_text(t)))),
        }
    } else if op == SyntaxKind::SLASH {
        if b == 0 {
            let m = text("Division by zero");
            Err(EvalError::UnsupportedOperation(m))
        } else {
            proof {
                lemma_div_bounds(a as int, b as int);
            }
            match a.checked_div(b) {
                Some(q) => Ok(make_int(t, q)),
                None => {
                    proof {
                        assert(false);
                    }
                    Err(EvalError::TypeMismatch)
                },
            }
        }
    } else if op == SyntaxKind::PERCENT {
        if b == 0 {
            let m = text("Modulo by zero");
            Err(EvalError::UnsupportedOperation(m))
        } else {
            proof {
                lemma_div_bounds(a as int, b as int);
            }
            match a.checked_rem(b) {
                Some(q) => Ok(make_int(t, q)),
                None => {
                    proof {
                        assert(false);
                    }
                    Err(EvalError::TypeMismatch)
                },
            }
        }
    } else if op == SyntaxKind::LT {
        Ok(Value::Bool(a < b))
    } else if op == SyntaxKind::GT {
        Ok(Value::Bool(a > b))
    } else if op == SyntaxKind::LTEQ {
        Ok(Value::Bool(a <= b))
    } else if op == SyntaxKind::GTEQ {
        Ok(Value::Bool(a >= b))
    } else if op == SyntaxKind::EQEQ {
        Ok(Value::Bool(a == b))
    } else if op == SyntaxKind::NEQ {
        Ok(Value::Bool(a != b))
    } else {
        Err(EvalError::TypeMismatch)
    }
}

impl Value {
    /// A copy of the value.
    pub fn duplicate(&self) -> (r: Value)
        ensures
            r@ == self@,
        decreases self,
    {
        match self {
            Value::I32(x) => Value::I32(*x),
            Value::I8(x) => Value::I8(*x),
            Value::U8(x) => Value::U8(*x),
            Value::U32(x) => Value::U32(*x),
            Value::I64(x) => Value::I64(*x),
            Value::U64(x) => Value::U64(*x),
            Value::Bool(b) => Value::Bool(*b),
            Value::String(s) => Value::String(s.clone()),
            Value::Array(t) => Value::Array(t.duplicate()),
            Value::Struct(id, vals) => {
                let mut out: Vec<Value> = Vec::new();
                let mut i: usize = 0;
                while i < vals.len()
                    invariant
                        *self is Struct,
                        (*self)->Struct_1 == *vals,
                        i <= vals.len(),
                        out.len() == i,
                        forall|j: int| 0 <= j < i ==> value_view(#[trigger] out[j]) == value_view(vals[j]),
                    decreases vals.len() - i,
                {
                    proof {
                        broadcast use vstd::std_specs::vec::axiom_vec_index_decreases;

                        assert(decreases_to!(*self => (*self)->Struct_1));
                        assert(decreases_to!((*self)->Struct_1 => (*self)->Struct_1[i as int]));
                    }
                    let c = vals[i].duplicate();
                    out.push(c);
                    i += 1;
                }
                let r = Value::Struct(*id, out);
                assert(value_view(r)->Struct_1 =~= value_view(*self)->Struct_1);
                r
            },
            Value::StructZero(id) => Value::StructZero(*id),
            Value::Null => Value::Null,
        }
    }

    /// The value as a boolean: a boolean itself, an integer as "not zero".
    pub fn cast_to_bool(&self) -> (r: Result<Value, EvalError>)
        ensures
            outcome(r) == cast_value(self@, TyView::Bool),
    {
        match self {
            Value::Bool(v) => Ok(Value::Bool(*v)),
            Value::I32(v) => Ok(Value::Bool(*v != 0)),
            Value::I8(v) => Ok(Value::Bool(*v != 0)),
            Value::I64(v) => Ok(Value::Bool(*v != 0)),
            Value::U32(v) => Ok(Value::Bool(*v != 0)),
            Value::U8(v) => Ok(Value::Bool(*v != 0)),
            Value::U64(v) => Ok(Value::Bool(*v != 0)),
            _ => Err(EvalError::TypeMismatch),
        }
    }

    /// The value as an `i32`: from an `i32`, a narrower integer of the same
    /// signedness, or a boolean (1 or 0).
    pub fn cast_to_i32(&self) -> (r: Result<Value, EvalError>)
        ensures
            outcome(r) == cast_value(self@, TyView::I32),
    {
        match self {
            Value::I32(v) => Ok(Value::I32(*v)),
            Value::I8(v) => Ok(Value::I32(*v as i32)),
            Value::Bool(v) => Ok(Value::I32(if *v { 1 } else { 0 })),
            _ => Err(EvalError::TypeMismatch),
        }
    }

    /// The value as an `i8`: from an `i8`, a narrower integer of the same
    /// signedness, or a boolean (1 or 0).
    pub fn cast_to_i8(&self) -> (r: Result<Value, EvalError>)
        ensures
            outcome(r) == cast_value(self@, TyView::I8),
    {
        match self {
            Value::I8(v) => Ok(Value::I8(*v)),
            Value::Bool(v) => Ok(Value::I8(if *v { 1 } else { 0 })),
            _ => Err(EvalError::TypeMismatch),
        }
    }

    /// The value as an `u8`: from an `u8`, a narrower integer of the same
    /// signedness, or a boolean (1 or 0).
    pub fn cast_to_u8(&self) -> (r: Result<Value, EvalError>)
        ensures
            outcome(r) == cast_value(self@, TyView::U8),
    {
        match self {
            Value::U8(v) => Ok(Value::U8(*v)),
            Value::Bool(v) => Ok(Value::U8(if *v { 1 } else { 0 })),
            _ => Err(EvalError::TypeMismatch),
        }
    }

    /// The value as an `u32`: from an `u32`, a narrower integer of the same
    /// signedness, or a boolean (1 or 0).
    pub fn cast_to_u32(&self) -> (r: Result<Value, EvalError>)
        ensures
            outcome(r) == cast_value(self@, TyView::U32),
    {
        match self {
            Value::U32(v) => Ok(Value::U32(*v)),
            Value::U8(v) => Ok(Value::U32(*v as u32)),
            Value::Bool(v) => Ok(Value::U32(if *v { 1 } else { 0 })),
            _ => Err(EvalError::TypeMismatch),
        }
    }

    /// The value as an `i64`: from an `i64`, a narrower integer of the same
    /// signedness, or a boolean (1 or 0).
    pub fn cast_to_i64(&self) -> (r: Result<Value, EvalError>)
        ensures
            outcome(r) == cast_value(self@, TyView::I64),
    {
        match self {
            Value::I64(v) => Ok(Value::I64(*v)),
            Value::I32(v) => Ok(Value::I64(*v as i64)),
            Value::I8(v) => Ok(Value::I64(*v as i64)),
            Value::Bool(v) => Ok(Value::I64(if *v { 1 } else { 0 })),
            _ => Err(EvalError::TypeMismatch),
        }
    }

    /// The value as an `u64`: from an `u64`, a narrower integer of the same
    /// signedness, or a boolean (1 or 0).
    pub fn cast_to_u64(&self) -> (r: Result<Value, EvalError>)
        ensures
            outcome(r) == cast_value(self@, TyView::U64),
    {
        match self {
            Value::U64(v) => Ok(Value::U64(*v)),
            Value::U32(v) => Ok(Value::U64(*v as u64)),
            Value::U8(v) => Ok(Value::U64(*v as u64)),
            Value::Bool(v) => Ok(Value::U64(if *v { 1 } else { 0 })),
            _ => Err(EvalError::TypeMismatch),
        }
    }

    /// The value converted to the scalar type `target_ty` (without `const`).
    fn cast_to_type(&self, target_ty: &Ty) -> (r: Result<Value, EvalError>)
        ensures
            outcome(r) == (if is_int(unconst(target_ty@)) || unconst(target_ty@) is Bool {
                cast_value(self@, unconst(target_ty@))
            } else {
                Err(ErrView::TypeMismatch)
            }),
    {
        match target_ty.unwrap_const() {
            Ty::I32 => self.cast_to_i32(),
            Ty::I8 => self.cast_to_i8(),
            Ty::U8 => self.cast_to_u8(),
            Ty::U32 => self.cast_to_u32(),
            Ty::I64 => self.cast_to_i64(),
            Ty::U64 => self.cast_to_u64(),
            Ty::Bool => self.cast_to_bool(),
            _ => Err(EvalError::TypeMismatch),
        }
    }

    /// The value converted for a place of type `target_ty`, as constant
    /// propagation does on an assignment.
    pub fn convert_to(&self, target_ty: &Ty, module: &Module) -> (r: Result<Value, EvalError>)
        ensures
            outcome(r) == convert_value(self@, target_ty@),
    {
        let target_unwrapped = target_ty.unwrap_const();
        let source_ty = self.get_type(module);
        if source_ty == target_unwrapped {
            return Ok(self.duplicate());
        }
        match target_unwrapped {
            Ty::I32 => self.cast_to_i32(),
            Ty::I8 => self.cast_to_i8(),
            Ty::U8 => self.cast_to_u8(),
            Ty::U32 => self.cast_to_u32(),
            Ty::I64 => self.cast_to_i64(),
            Ty::U64 => self.cast_to_u64(),
            Ty::Bool => self.cast_to_bool(),
            _ => Ok(self.duplicate()),
        }
    }

    /// The type of the value; a struct value's type carries the struct's name.
    pub fn get_type(&self, module: &Module) -> (r: Ty)
        ensures
            r@ == value_type(self@, *module),
    {
        proof {
            reveal_with_fuel(crate::types::ty_view, 2);
        }
        match self {
            Value::I32(_) => Ty::I32,
            Value::I8(_) => Ty::I8,
            Value::U8(_) => Ty::U8,
            Value::U32(_) => Ty::U32,
            Value::I64(_) => Ty::I64,
            Value::U64(_) => Ty::U64,
            Value::Bool(_) => Ty::Bool,
            Value::String(_) => Ty::Pointer { pointee: Box::new(Ty::U8), is_const: true },
            Value::Array(_) => Ty::Array(Box::new(Ty::Void), None),
            Value::Struct(struct_id, _) => {
                let name = match module.get_struct_by_id(*struct_id) {
                    Some(s) => s.name,
                    None => struct_placeholder_name(struct_id.index),
                };
                Ty::Struct { id: *struct_id, name }
            },
            Value::StructZero(struct_id) => {
                let name = match module.get_struct_by_id(*struct_id) {
                    Some(s) => s.name,
                    None => struct_placeholder_name(struct_id.index),
                };
                Ty::Struct { id: *struct_id, name }
            },
            Value::Null => Ty::Pointer { pointee: Box::new(Ty::Void), is_const: true },
        }
    }

    /// The length an array dimension gets from this value.
    pub fn get_array_size(&self) -> (r: Option<i32>)
        ensures
            r == array_size(self@),
    {
        match self {
            Value::I32(v) => Some(*v),
            Value::U32(v) => Some(*v as i32),
            Value::I8(v) => Some(*v as i32),
            Value::U8(v) => Some(*v as i32),
            Value::U64(v) => Some(*v as i32),
            Value::I64(v) => Some(*v as i32),
            _ => None,
        }
    }
}

fn neg_i32(x: i32) -> (r: i32)
    ensures
        r as int == wrapping_neg(TyView::I32, x as int),
{
    if x == i32::MIN {
        x
    } else {
        -x
    }
}

fn neg_i8(x: i8) -> (r: i8)
    ensures
        r as int == wrapping_neg(TyView::I8, x as int),
{
    if x == i8::MIN {
        x
    } else {
        -x
    }
}

fn neg_i64(x: i64) -> (r: i64)
    ensures
        r as int == wrapping_neg(TyView::I64, x as int),
{
    if x == i64::MIN {
        x
    } else {
        -x
    }
}

fn neg_u8(x: u8) -> (r: u8)
    ensures
        r as int == wrapping_neg(TyView::U8, x as int),
{
    if x == 0 {
        0
    } else {
        u8::MAX - x + 1
    }
}

fn neg_u32(x: u32) -> (r: u32)
    ensures
        r as int == wrapping_neg(TyView::U32, x as int),
{
    if x == 0 {
        0
    } else {
        u32::MAX - x + 1
    }
}

fn neg_u64(x: u64) -> (r: u64)
    ensures
        r as int == wrapping_neg(TyView::U64, x as int),
{
    if x == 0 {
        0
    } else {
        u64::MAX - x + 1
    }
}

impl Value {
    /// `lhs op rhs` on two scalars of one type.
    fn same_type_op(lhs: &Value, rhs: &Value, op: SyntaxKind) -> (r: Result<Value, EvalError>)
        requires
            !same_type_division_overflows(lhs@, rhs@, op),
        ensures
            outcome(r) == same_type_value(lhs@, rhs@, op),
    {
        match (lhs, rhs) {
            (Value::I32(l), Value::I32(r)) => int_op(&Ty::I32, *l as i128, *r as i128, op),
            (Value::I8(l), Value::I8(r)) => int_op(&Ty::I8, *l as i128, *r as i128, op),
            (Value::U8(l), Value::U8(r)) => int_op(&Ty::U8, *l as i128, *r as i128, op),
            (Value::U32(l), Value::U32(r)) => int_op(&Ty::U32, *l as i128, *r as i128, op),
            (Value::I64(l), Value::I64(r)) => int_op(&Ty::I64, *l as i128, *r as i128, op),
            (Value::U64(l), Value::U64(r)) => int_op(&Ty::U64, *l as i128, *r as i128, op),
            (Value::Bool(l), Value::Bool(r)) => {
                if op == SyntaxKind::EQEQ {
                    Ok(Value::Bool(*l == *r))
                } else if op == SyntaxKind::NEQ {
                    Ok(Value::Bool(*l != *r))
                } else {
                    Err(EvalError::UnsupportedOperation(text(op.name())))
                }
            },
            _ => Err(EvalError::TypeMismatch),
        }
    }

    /// Folds `lhs op rhs`. `null` compares equal to `null`; `&&` and `||` take
    /// truth values; comparisons bring both sides to their common type; arithmetic
    /// brings both sides to the type of the result and fails on overflow.
    pub fn calc_binary_expr(lhs: &Value, rhs: &Value, op: SyntaxKind, module: &Module) -> (r: Result<
        Value,
        EvalError,
    >)
        requires
            !binary_overflows_division(lhs@, rhs@, op),
        ensures
            outcome(r) == binary_value(lhs@, rhs@, op),
    {
        if let (Value::Null, Value::Null) = (lhs, rhs) {
            return if op == SyntaxKind::EQEQ {
                Ok(Value::Bool(true))
            } else if op == SyntaxKind::NEQ {
                Ok(Value::Bool(false))
            } else {
                Err(EvalError::UnsupportedOperation(text(op.name())))
            };
        }
        let lhs_ty = lhs.get_type(module);
        let rhs_ty = rhs.get_type(module);
        proof {
            reveal_with_fuel(crate::types::ty_view, 2);
        }

        if op == SyntaxKind::AMPAMP || op == SyntaxKind::PIPEPIPE {
            let l = match lhs.cast_to_bool() {
                Ok(v) => v,
                Err(e) => return Err(e),
            };
            let r = match rhs.cast_to_bool() {
                Ok(v) => v,
                Err(e) => return Err(e),
            };
            return match (l, r) {
                (Value::Bool(lv), Value::Bool(rv)) => Ok(
                    Value::Bool(
                        if op == SyntaxKind::AMPAMP {
                            lv && rv
                        } else {
                            lv || rv
                        },
                    ),
                ),
                _ => {
                    proof {
                        assert(false);
                    }
                    Err(EvalError::TypeMismatch)
                },
            };
        }
        if op == SyntaxKind::LT || op == SyntaxKind::GT || op == SyntaxKind::LTEQ || op
            == SyntaxKind::GTEQ || op == SyntaxKind::EQEQ || op == SyntaxKind::NEQ {
            let promoted_ty = match Ty::compute_promotion_type(&lhs_ty, &rhs_ty) {
                Some(t) => t,
                None => return Err(EvalError::TypeMismatch),
            };
            if lhs_ty.unwrap_const() != promoted_ty || rhs_ty.unwrap_const() != promoted_ty {
                let l = match lhs.cast_to_type(&promoted_ty) {
                    Ok(v) => v,
                    Err(e) => return Err(e),
                };
                let r = match rhs.cast_to_type(&promoted_ty) {
                    Ok(v) => v,
                    Err(e) => return Err(e),
                };
                return Self::same_type_op(&l, &r, op);
            }
        }
        if op == SyntaxKind::PLUS || op == SyntaxKind::MINUS || op == SyntaxKind::STAR || op
            == SyntaxKind::SLASH || op == SyntaxKind::PERCENT {
            let target_ty = match Ty::compute_binary_result_type(&lhs_ty, &rhs_ty, op) {
                Some(t) => t,
                None => return Err(EvalError::TypeMismatch),
            };
            if lhs_ty.unwrap_const() != target_ty || rhs_ty.unwrap_const() != target_ty {
                let l = match lhs.cast_to_type(&target_ty) {
                    Ok(v) => v,
                    Err(e) => return Err(e),
                };
                let r = match rhs.cast_to_type(&target_ty) {
                    Ok(v) => v,
                    Err(e) => return Err(e),
                };
                return Self::same_type_op(&l, &r, op);
            }
        }
        Self::same_type_op(lhs, rhs, op)
    }

    /// Folds `op val`: `!` on a truth value, `+` and `-` on an integer (a
    /// boolean counts as an `i32`), with `-` wrapping around.
    pub fn eval_unary(val: Value, op: SyntaxKind) -> (r: Result<Value, EvalError>)
        ensures
            outcome(r) == unary_value(val@, op),
    {
        if op == SyntaxKind::BANG {
            match val.cast_to_bool() {
                Ok(Value::Bool(v)) => Ok(Value::Bool(!v)),
                Ok(_) => {
                    proof {
                        assert(false);
                    }
                    Err(EvalError::TypeMismatch)
                },
                Err(e) => Err(e),
            }
        } else if op == SyntaxKind::PLUS || op == SyntaxKind::MINUS {
            let plus = op == SyntaxKind::PLUS;
            match val {
                Value::I32(v) => Ok(Value::I32(if plus { v } else { neg_i32(v) })),
                Value::I8(v) => Ok(Value::I8(if plus { v } else { neg_i8(v) })),
                Value::U8(v) => Ok(Value::U8(if plus { v } else { neg_u8(v) })),
                Value::U32(v) => Ok(Value::U32(if plus { v } else { neg_u32(v) })),
                Value::I64(v) => Ok(Value::I64(if plus { v } else { neg_i64(v) })),
                Value::U64(v) => Ok(Value::U64(if plus { v } else { neg_u64(v) })),
                Value::Bool(b) => {
                    let n: i32 = if b { 1 } else { 0 };
                    Ok(Value::I32(if plus { n } else { neg_i32(n) }))
                },
                _ => Err(EvalError::TypeMismatch),
            }
        } else {
            Err(EvalError::UnsupportedOperation(text(op.name())))
        }
    }
}

impl Clone for Value {
    fn clone(&self) -> (r: Value)
        ensures
            r@ == self@,
    {
        self.duplicate()
    }
}

} // verus!

verus! {

// ---------------------------------------------------------------------------
// Laws
// ---------------------------------------------------------------------------

/// A scalar whose type may be assigned to a place of scalar type `target`
/// converts to that type without error and keeps its number.
pub proof fn lemma_convert_assignable(v: ValueView, target: TyView, m: Module)
    requires
        scalar_ty(v) is Some,
        is_int(unconst(target)) || unconst(target) is Bool,
        crate::types::assignable(target, value_type(v, m)),
    ensures
        convert_value(v, target) == Ok::<ValueView, ErrView>(scalar_value(unconst(target), num(v))),
{
    reveal_with_fuel(crate::types::assignable, 3);
}

/// Folding `!=` gives the opposite of folding `==`, whenever `==` folds.
pub proof fn lemma_neq_is_not_eq(l: ValueView, r: ValueView)
    requires
        binary_value(l, r, SyntaxKind::EQEQ) is Ok,
    ensures
        binary_value(l, r, SyntaxKind::NEQ) matches Ok(ValueView::Bool(b)) && binary_value(
            l,
            r,
            SyntaxKind::EQEQ,
        ) == Ok::<ValueView, ErrView>(ValueView::Bool(!b)),
{
}

/// Negating an integer twice gives it back, also at the ends of its range.
pub proof fn lemma_neg_neg(v: ValueView)
    requires
        scalar_ty(v) matches Some(t) && is_int(t),
    ensures
        unary_value(v, SyntaxKind::MINUS) matches Ok(w) && unary_value(w, SyntaxKind::MINUS) == Ok::<
            ValueView,
            ErrView,
        >(v),
{
}

} // verus!
