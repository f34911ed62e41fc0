//! The types of the language and the typing rules of its operators.

use vstd::prelude::*;
use vstd::std_specs::cmp::PartialEqSpecImpl;

use crate::module::StructID;
use crate::syntax_kind::SyntaxKind;

verus! {

/// A type.
#[derive(Debug)]
pub enum Ty {
    I32,
    I8,
    U8,
    U32,
    I64,
    U64,
    Bool,
    F32,
    Void,
    /// An array of the element type; the length once it is known.
    Array(Box<Ty>, Option<i32>),
    Pointer { pointee: Box<Ty>, is_const: bool },
    Struct { id: StructID, name: String },
    Const(Box<Ty>),
}

/// A type as a mathematical value, with the struct name as a character sequence.
pub enum TyView {
    I32,
    I8,
    U8,
    U32,
    I64,
    U64,
    Bool,
    F32,
    Void,
    Array(Box<TyView>, Option<i32>),
    Pointer { pointee: Box<TyView>, is_const: bool },
    Struct { id: StructID, name: Seq<char> },
    Const(Box<TyView>),
}

/// The mathematical value of a type.
pub open spec fn ty_view(t: Ty) -> TyView
    decreases t,
{
    match t {
        Ty::I32 => TyView::I32,
        Ty::I8 => TyView::I8,
        Ty::U8 => TyView::U8,
        Ty::U32 => TyView::U32,
        Ty::I64 => TyView::I64,
        Ty::U64 => TyView::U64,
        Ty::Bool => TyView::Bool,
        Ty::F32 => TyView::F32,
        Ty::Void => TyView::Void,
        Ty::Array(inner, n) => TyView::Array(Box::new(ty_view(*inner)), n),
        Ty::Pointer { pointee, is_const } => TyView::Pointer {
            pointee: Box::new(ty_view(*pointee)),
            is_const,
        },
        Ty::Struct { id, name } => TyView::Struct { id, name: name@ },
        Ty::Const(inner) => TyView::Const(Box::new(ty_view(*inner))),
    }
}

impl View for Ty {
    type V = TyView;

    open spec fn view(&self) -> TyView {
        ty_view(*self)
    }
}

// ---------------------------------------------------------------------------
// Classification of types (over views)
// ---------------------------------------------------------------------------

/// The type without an outer `const`.
pub open spec fn unconst(t: TyView) -> TyView {
    match t {
        TyView::Const(inner) => *inner,
        _ => t,
    }
}

pub open spec fn is_signed_int(t: TyView) -> bool {
    t is I8 || t is I32 || t is I64
}

pub open spec fn is_unsigned_int(t: TyView) -> bool {
    t is U8 || t is U32 || t is U64
}

pub open spec fn is_int(t: TyView) -> bool {
    is_signed_int(t) || is_unsigned_int(t)
}

/// Types whose values arithmetic works on.
pub open spec fn is_numeric(t: TyView) -> bool {
    is_int(t) || t is F32
}

/// The pointee of a pointer, looking through one `const`.
pub open spec fn pointee_of(t: TyView) -> Option<TyView> {
    match t {
        TyView::Pointer { pointee, .. } => Some(*pointee),
        TyView::Const(inner) => match *inner {
            TyView::Pointer { pointee, .. } => Some(*pointee),
            _ => None,
        },
        _ => None,
    }
}

/// Whether a type is an array, looking through any `const`.
pub open spec fn array_type(t: TyView) -> bool
    decreases t,
{
    match t {
        TyView::Array(..) => true,
        TyView::Const(inner) => array_type(*inner),
        _ => false,
    }
}

/// Whether a type is read-only: `const`, a `*const` pointer, or an array of such.
pub open spec fn const_type(t: TyView) -> bool
    decreases t,
{
    match t {
        TyView::Array(inner, _) => const_type(*inner),
        TyView::Const(_) => true,
        TyView::Pointer { is_const, .. } => is_const,
        _ => false,
    }
}

/// The struct a type names, looking through any `const`.
pub open spec fn struct_of(t: TyView) -> Option<StructID>
    decreases t,
{
    match t {
        TyView::Struct { id, .. } => Some(id),
        TyView::Const(inner) => struct_of(*inner),
        _ => None,
    }
}

/// The struct a pointer type points to, looking through any `const`.
pub open spec fn struct_pointer_of(t: TyView) -> Option<StructID>
    decreases t,
{
    match t {
        TyView::Pointer { pointee, .. } => struct_of(*pointee),
        TyView::Const(inner) => struct_pointer_of(*inner),
        _ => None,
    }
}

/// Implicit widening between two scalar types without `const`: a value of
/// type `from` may stand where `to` is expected.
pub open spec fn widens(to: TyView, from: TyView) -> bool {
    ||| to == from && (is_numeric(to) || to is Bool || to is Void)
    ||| to is I32 && (from is I8 || from is Bool)
    ||| to is I64 && (from is I8 || from is I32 || from is Bool)
    ||| to is I8 && from is Bool
    ||| to is U32 && from is U8
    ||| to is U64 && (from is U8 || from is U32)
}

/// Whether a value of type `other` may be assigned where `me` is expected.
pub open spec fn assignable(me: TyView, other: TyView) -> bool
    decreases me, other,
{
    match (me, other) {
        (TyView::Pointer { .. }, TyView::Pointer { .. }) => true,
        (TyView::Struct { id: a, .. }, TyView::Struct { id: b, .. }) => a == b,
        (TyView::Const(inner), TyView::Const(r_inner)) => assignable(*inner, *r_inner),
        (TyView::Const(inner), _) => assignable(*inner, other),
        (_, TyView::Const(inner)) => assignable(me, *inner),
        _ => widens(me, other),
    }
}

/// The common type two operand types are brought to before they are compared.
pub open spec fn promotion(lhs: TyView, rhs: TyView) -> Option<TyView> {
    let l = unconst(lhs);
    let r = unconst(rhs);
    if !((is_numeric(l) || l is Bool) && (is_numeric(r) || r is Bool)) {
        None
    } else if widens(l, r) {
        Some(l)
    } else if widens(r, l) {
        Some(r)
    } else {
        None
    }
}

pub open spec fn arith_op(op: SyntaxKind) -> bool {
    op == SyntaxKind::PLUS || op == SyntaxKind::MINUS || op == SyntaxKind::STAR || op
        == SyntaxKind::SLASH || op == SyntaxKind::PERCENT
}

pub open spec fn compare_op(op: SyntaxKind) -> bool {
    op == SyntaxKind::LT || op == SyntaxKind::GT || op == SyntaxKind::LTEQ || op
        == SyntaxKind::GTEQ || op == SyntaxKind::EQEQ || op == SyntaxKind::NEQ
}

pub open spec fn logic_op(op: SyntaxKind) -> bool {
    op == SyntaxKind::AMPAMP || op == SyntaxKind::PIPEPIPE
}

/// The type of `lhs op rhs`, or `None` when the operator does not apply.
/// Pointer arithmetic does not look at the pointee; the result is never `const`.
pub open spec fn binary_result(lhs: TyView, rhs: TyView, op: SyntaxKind) -> Option<TyView> {
    let l = unconst(lhs);
    let r = unconst(rhs);
    if arith_op(op) {
        if promotion(l, r) is Some && is_numeric(promotion(l, r)->0) {
            promotion(l, r)
        } else if pointee_of(l) is Some && r is I32 && (op == SyntaxKind::PLUS || op
            == SyntaxKind::MINUS) {
            Some(l)
        } else if l is I32 && pointee_of(r) is Some && op == SyntaxKind::PLUS {
            Some(r)
        } else if pointee_of(l) is Some && pointee_of(r) is Some && op == SyntaxKind::MINUS {
            Some(TyView::I32)
        } else {
            None
        }
    } else if compare_op(op) {
        if promotion(l, r) is Some || (pointee_of(l) is Some && pointee_of(r) is Some) {
            Some(TyView::Bool)
        } else {
            None
        }
    } else if logic_op(op) {
        if (is_int(l) || l is Bool) && (is_int(r) || r is Bool) {
            Some(TyView::Bool)
        } else {
            None
        }
    } else {
        None
    }
}

/// Pointer arithmetic: for every pointer type `p` (its pointee and constness
/// arbitrary), `p + i32` and `p - i32` both have type `p`, `i32 + p` has type
/// `p`, `i32 - p` is rejected, and the difference of two pointers is an `i32`.
pub proof fn lemma_pointer_arithmetic(pointee: TyView, is_const: bool, other: TyView, other_const: bool)
    ensures
        ({
            let p = TyView::Pointer { pointee: Box::new(pointee), is_const };
            let q = TyView::Pointer { pointee: Box::new(other), is_const: other_const };
            &&& binary_result(p, TyView::I32, SyntaxKind::PLUS) == Some(p)
            &&& binary_result(p, TyView::I32, SyntaxKind::MINUS) == Some(p)
            &&& binary_result(p, TyView::I32, SyntaxKind::MINUS) == binary_result(
                p,
                TyView::I32,
                SyntaxKind::PLUS,
            )
            &&& binary_result(TyView::I32, p, SyntaxKind::PLUS) == Some(p)
            &&& binary_result(TyView::I32, p, SyntaxKind::MINUS) is None
            &&& binary_result(p, q, SyntaxKind::MINUS) == Some(TyView::I32)
        }),
{
}

/// Why a unary operator does not apply.
#[derive(Debug, Clone, Copy, PartialEq, Eq, Structural)]
pub enum UnaryOpError {
    /// `*` applied to a `void` pointer.
    VoidPointerDeref,
    /// The operator does not apply to the operand's type.
    InvalidOp,
}

/// The type of `op operand`. `&` gives a `*mut` pointer; `*` does not look at
/// the pointer's constness; the result is never `const`.
pub open spec fn unary_result(operand: TyView, op: SyntaxKind) -> Result<TyView, UnaryOpError> {
    let t = unconst(operand);
    if op == SyntaxKind::AMP {
        Ok(TyView::Pointer { pointee: Box::new(t), is_const: false })
    } else if op == SyntaxKind::PLUS || op == SyntaxKind::MINUS {
        if is_numeric(t) {
            Ok(t)
        } else if t is Bool {
            Ok(TyView::I32)
        } else {
            Err(UnaryOpError::InvalidOp)
        }
    } else if op == SyntaxKind::BANG {
        if is_int(t) || t is Bool {
            Ok(TyView::Bool)
        } else {
            Err(UnaryOpError::InvalidOp)
        }
    } else if op == SyntaxKind::STAR {
        match t {
            TyView::Pointer { pointee, .. } => if *pointee is Void {
                Err(UnaryOpError::VoidPointerDeref)
            } else {
                Ok(*pointee)
            },
            _ => Err(UnaryOpError::InvalidOp),
        }
    } else {
        Err(UnaryOpError::InvalidOp)
    }
}

// ---------------------------------------------------------------------------
// Operations on types
// ---------------------------------------------------------------------------

impl Ty {
    /// A copy of the type.
    pub fn duplicate(&self) -> (r: Ty)
        ensures
            r@ == self@,
        decreases self,
    {
        match self {
            Ty::I32 => Ty::I32,
            Ty::I8 => Ty::I8,
            Ty::U8 => Ty::U8,
            Ty::U32 => Ty::U32,
            Ty::I64 => Ty::I64,
            Ty::U64 => Ty::U64,
            Ty::Bool => Ty::Bool,
            Ty::F32 => Ty::F32,
            Ty::Void => Ty::Void,
            Ty::Array(inner, n) => Ty::Array(Box::new(inner.duplicate()), *n),
            Ty::Pointer { pointee, is_const } => Ty::Pointer {
                pointee: Box::new(pointee.duplicate()),
                is_const: *is_const,
            },
            Ty::Struct { id, name } => Ty::Struct { id: *id, name: name.clone() },
            Ty::Const(inner) => Ty::Const(Box::new(inner.duplicate())),
        }
    }

    /// Whether two types are the same.
    pub fn same_as(&self, other: &Ty) -> (r: bool)
        ensures
            r == (self@ == other@),
        decreases self,
    {
        match self {
            Ty::I32 => match other {
                Ty::I32 => true,
                _ => false,
            },
            Ty::I8 => match other {
                Ty::I8 => true,
                _ => false,
            },
            Ty::U8 => match other {
                Ty::U8 => true,
                _ => false,
            },
            Ty::U32 => match other {
                Ty::U32 => true,
                _ => false,
            },
            Ty::I64 => match other {
                Ty::I64 => true,
                _ => false,
            },
            Ty::U64 => match other {
                Ty::U64 => true,
                _ => false,
            },
            Ty::Bool => match other {
                Ty::Bool => true,
                _ => false,
            },
            Ty::F32 => match other {
                Ty::F32 => true,
                _ => false,
            },
            Ty::Void => match other {
                Ty::Void => true,
                _ => false,
            },
            Ty::Array(a, n) => match other {
                Ty::Array(b, m) => {
                    let same_len = match (n, m) {
                        (Some(x), Some(y)) => *x == *y,
                        (None, None) => true,
                        _ => false,
                    };
                    same_len && a.same_as(b)
                },
                _ => false,
            },
            Ty::Pointer { pointee: a, is_const: c } => match other {
                Ty::Pointer { pointee: b, is_const: d } => *c == *d && a.same_as(b),
                _ => false,
            },
            Ty::Struct { id: a, name: x } => match other {
                Ty::Struct { id: b, name: y } => *a == *b && *x == *y,
                _ => false,
            },
            Ty::Const(a) => match other {
                Ty::Const(b) => a.same_as(b),
                _ => false,
            },
        }
    }

    /// Whether the type is an array, also under `const`.
    pub fn is_array(&self) -> (r: bool)
        ensures
            r == array_type(self@),
        decreases self,
    {
        match self {
            Ty::Array(_, _) => true,
            Ty::Const(inner) => inner.is_array(),
            _ => false,
        }
    }

    /// Whether the type is a pointer, also under one `const`.
    pub fn is_pointer(&self) -> (r: bool)
        ensures
            r == (pointee_of(self@) is Some),
    {
        self.pointer_inner().is_some()
    }

    /// Whether the type is a struct, also under `const`.
    pub fn is_struct(&self) -> (r: bool)
        ensures
            r == (struct_of(self@) is Some),
    {
        self.as_struct_id().is_some()
    }

    /// The pointee of a pointer type, also under one `const`.
    pub fn pointer_inner(&self) -> (r: Option<&Ty>)
        ensures
            r matches Some(t) ==> pointee_of(self@) == Some(t@),
            r is None ==> pointee_of(self@) is None,
    {
        proof {
            reveal_with_fuel(ty_view, 2);
        }
        match self {
            Ty::Pointer { pointee, .. } => Some(&**pointee),
            Ty::Const(inner) => {
                if let Ty::Pointer { pointee, .. } = &**inner {
                    Some(&**pointee)
                } else {
                    None
                }
            },
            _ => None,
        }
    }

    /// Whether values of the type are read-only.
    pub fn is_const(&self) -> (r: bool)
        ensures
            r == const_type(self@),
        decreases self,
    {
        match self {
            Ty::Array(inner, _) => inner.is_const(),
            Ty::Const(_) => true,
            Ty::Pointer { is_const, .. } => *is_const,
            _ => false,
        }
    }

    /// The type without an outer `const`.
    pub fn unwrap_const(&self) -> (r: Ty)
        ensures
            r@ == unconst(self@),
    {
        match self {
            Ty::Const(inner) => inner.duplicate(),
            _ => self.duplicate(),
        }
    }

    /// The struct the type names, also under `const`.
    pub fn as_struct_id(&self) -> (r: Option<StructID>)
        ensures
            r == struct_of(self@),
        decreases self,
    {
        match self {
            Ty::Struct { id, .. } => Some(*id),
            Ty::Const(inner) => inner.as_struct_id(),
            _ => None,
        }
    }

    /// The struct a pointer type points to, also under `const`.
    pub fn as_struct_pointer_id(&self) -> (r: Option<StructID>)
        ensures
            r == struct_pointer_of(self@),
        decreases self,
    {
        match self {
            Ty::Pointer { pointee, .. } => pointee.as_struct_id(),
            Ty::Const(inner) => inner.as_struct_pointer_id(),
            _ => None,
        }
    }

    fn widens_from(&self, other: &Ty) -> (r: bool)
        ensures
            r == widens(self@, other@),
    {
        match (self, other) {
            (Ty::I32, Ty::I32) | (Ty::I8, Ty::I8) | (Ty::U8, Ty::U8) | (Ty::U32, Ty::U32) | (
                Ty::I64,
                Ty::I64,
            ) | (Ty::U64, Ty::U64) | (Ty::Bool, Ty::Bool) | (Ty::F32, Ty::F32) | (
                Ty::Void,
                Ty::Void,
            ) => true,
            (Ty::I32, Ty::I8) | (Ty::I32, Ty::Bool) => true,
            (Ty::I64, Ty::I8) | (Ty::I64, Ty::I32) | (Ty::I64, Ty::Bool) => true,
            (Ty::I8, Ty::Bool) => true,
            (Ty::U32, Ty::U8) => true,
            (Ty::U64, Ty::U8) | (Ty::U64, Ty::U32) => true,
            _ => false,
        }
    }

    /// Whether a value of type `other` may be assigned where `self` is expected.
    pub fn assign_to_me_is_ok(&self, other: &Ty) -> (r: bool)
        ensures
            r == assignable(self@, other@),
        decreases self, other,
    {
        match (self, other) {
            (Ty::Pointer { .. }, Ty::Pointer { .. }) => true,
            (Ty::Struct { id: id1, .. }, Ty::Struct { id: id2, .. }) => *id1 == *id2,
            (Ty::Const(inner), Ty::Const(r_inner)) => inner.assign_to_me_is_ok(r_inner),
            (Ty::Const(inner), _) => inner.assign_to_me_is_ok(other),
            (_, Ty::Const(inner)) => self.assign_to_me_is_ok(inner),
            _ => self.widens_from(other),
        }
    }

    fn is_numeric_ty(&self) -> (r: bool)
        ensures
            r == is_numeric(self@),
    {
        matches!(self, Ty::I32 | Ty::I8 | Ty::U8 | Ty::U32 | Ty::I64 | Ty::U64 | Ty::F32)
    }

    fn is_int_ty(&self) -> (r: bool)
        ensures
            r == is_int(self@),
    {
        matches!(self, Ty::I32 | Ty::I8 | Ty::U8 | Ty::U32 | Ty::I64 | Ty::U64)
    }

    /// The common type two operands are brought to before a comparison.
    pub fn compute_promotion_type(lhs: &Ty, rhs: &Ty) -> (r: Option<Ty>)
        ensures
            r matches Some(t) ==> promotion(lhs@, rhs@) == Some(t@),
            r is None ==> promotion(lhs@, rhs@) is None,
    {
        let l = lhs.unwrap_const();
        let r = rhs.unwrap_const();
        let l_ok = l.is_numeric_ty() || matches!(l, Ty::Bool);
        let r_ok = r.is_numeric_ty() || matches!(r, Ty::Bool);
        if !(l_ok && r_ok) {
            None
        } else if l.widens_from(&r) {
            Some(l)
        } else if r.widens_from(&l) {
            Some(r)
        } else {
            None
        }
    }

    /// The type of `lhs op rhs`, or `None` when the operator does not apply.
    pub fn compute_binary_result_type(lhs: &Ty, rhs: &Ty, op: SyntaxKind) -> (r: Option<Ty>)
        ensures
            r matches Some(t) ==> binary_result(lhs@, rhs@, op) == Some(t@),
            r is None ==> binary_result(lhs@, rhs@, op) is None,
    {
        let l = lhs.unwrap_const();
        let r = rhs.unwrap_const();
        let is_arith = op == SyntaxKind::PLUS || op == SyntaxKind::MINUS || op == SyntaxKind::STAR
            || op == SyntaxKind::SLASH || op == SyntaxKind::PERCENT;
        let is_compare = op == SyntaxKind::LT || op == SyntaxKind::GT || op == SyntaxKind::LTEQ
            || op == SyntaxKind::GTEQ || op == SyntaxKind::EQEQ || op == SyntaxKind::NEQ;
        let is_logic = op == SyntaxKind::AMPAMP || op == SyntaxKind::PIPEPIPE;
        if is_arith {
            let p = Self::compute_promotion_type(&l, &r);
            if let Some(t) = p {
                if t.is_numeric_ty() {
                    return Some(t);
                }
            }
            if l.is_pointer() && matches!(r, Ty::I32) && (op == SyntaxKind::PLUS || op
                == SyntaxKind::MINUS) {
                Some(l)
            } else if matches!(l, Ty::I32) && r.is_pointer() && op == SyntaxKind::PLUS {
                Some(r)
            } else if l.is_pointer() && r.is_pointer() && op == SyntaxKind::MINUS {
                Some(Ty::I32)
            } else {
                None
            }
        } else if is_compare {
            let p = Self::compute_promotion_type(&l, &r);
            if p.is_some() || (l.is_pointer() && r.is_pointer()) {
                Some(Ty::Bool)
            } else {
                None
            }
        } else if is_logic {
            if (l.is_int_ty() || matches!(l, Ty::Bool)) && (r.is_int_ty() || matches!(r, Ty::Bool)) {
                Some(Ty::Bool)
            } else {
                None
            }
        } else {
            None
        }
    }

    /// The type of `op self`, or why the operator does not apply.
    pub fn validate_unary_op(&self, op: SyntaxKind) -> (r: Result<Ty, UnaryOpError>)
        ensures
            r matches Ok(t) ==> unary_result(self@, op) == Ok::<TyView, UnaryOpError>(t@),
            r matches Err(e) ==> unary_result(self@, op) == Err::<TyView, UnaryOpError>(e),
    {
        let t = self.unwrap_const();
        proof {
            reveal_with_fuel(ty_view, 2);
        }
        if op == SyntaxKind::AMP {
            Ok(Ty::Pointer { pointee: Box::new(t), is_const: false })
        } else if op == SyntaxKind::PLUS || op == SyntaxKind::MINUS {
            if t.is_numeric_ty() {
                Ok(t)
            } else if matches!(t, Ty::Bool) {
                Ok(Ty::I32)
            } else {
                Err(UnaryOpError::InvalidOp)
            }
        } else if op == SyntaxKind::BANG {
            if t.is_int_ty() || matches!(t, Ty::Bool) {
                Ok(Ty::Bool)
            } else {
                Err(UnaryOpError::InvalidOp)
            }
        } else if op == SyntaxKind::STAR {
            match t {
                Ty::Pointer { pointee, .. } => {
                    if matches!(*pointee, Ty::Void) {
                        Err(UnaryOpError::VoidPointerDeref)
                    } else {
                        Ok(*pointee)
                    }
                },
                _ => Err(UnaryOpError::InvalidOp),
            }
        } else {
            Err(UnaryOpError::InvalidOp)
        }
    }
}

impl PartialEq for Ty {
    fn eq(&self, other: &Ty) -> (r: bool) {
        self.same_as(other)
    }
}

impl PartialEqSpecImpl for Ty {
    open spec fn obeys_eq_spec() -> bool {
        true
    }

    open spec fn eq_spec(&self, other: &Ty) -> bool {
        self@ == other@
    }
}

impl Eq for Ty {
}

impl Clone for Ty {
    fn clone(&self) -> (r: Ty)
        ensures
            r@ == self@,
    {
        self.duplicate()
    }
}

} // verus!
