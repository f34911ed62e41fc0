//! The types of the first analyzer: integers, floats, arrays of a known
//! length, pointers, named structs and `const`.

use vstd::prelude::*;
use vstd::std_specs::cmp::PartialEqSpecImpl;

verus! {

/// A type.
#[derive(Debug)]
pub enum NType {
    Int,
    Float,
    Void,
    Array(Box<NType>, i32),
    Pointer(Box<NType>),
    Struct(String),
    Const(Box<NType>),
}

/// A type as a mathematical value.
pub enum NTypeView {
    Int,
    Float,
    Void,
    Array(Box<NTypeView>, i32),
    Pointer(Box<NTypeView>),
    Struct(Seq<char>),
    Const(Box<NTypeView>),
}

/// The mathematical value of a type.
pub open spec fn ntype_view(t: NType) -> NTypeView
    decreases t,
{
    match t {
        NType::Int => NTypeView::Int,
        NType::Float => NTypeView::Float,
        NType::Void => NTypeView::Void,
        NType::Array(inner, n) => NTypeView::Array(Box::new(ntype_view(*inner)), n),
        NType::Pointer(inner) => NTypeView::Pointer(Box::new(ntype_view(*inner))),
        NType::Struct(name) => NTypeView::Struct(name@),
        NType::Const(inner) => NTypeView::Const(Box::new(ntype_view(*inner))),
    }
}

impl View for NType {
    type V = NTypeView;

    open spec fn view(&self) -> NTypeView {
        ntype_view(*self)
    }
}

/// The pointee of a pointer type, looking through one `const`.
pub open spec fn npointee(t: NTypeView) -> Option<NTypeView> {
    match t {
        NTypeView::Pointer(inner) => Some(*inner),
        NTypeView::Const(inner) => match *inner {
            NTypeView::Pointer(p) => Some(*p),
            _ => None,
        },
        _ => None,
    }
}

/// The type without an outer `const`.
pub open spec fn nunconst(t: NTypeView) -> NTypeView {
    match t {
        NTypeView::Const(inner) => *inner,
        _ => t,
    }
}

impl NType {
    /// A copy of the type.
    pub fn duplicate(&self) -> (r: NType)
        ensures
            r@ == self@,
        decreases self,
    {
        match self {
            NType::Int => NType::Int,
            NType::Float => NType::Float,
            NType::Void => NType::Void,
            NType::Array(inner, n) => NType::Array(Box::new(inner.duplicate()), *n),
            NType::Pointer(inner) => NType::Pointer(Box::new(inner.duplicate())),
            NType::Struct(name) => NType::Struct(name.clone()),
            NType::Const(inner) => NType::Const(Box::new(inner.duplicate())),
        }
    }

    /// Whether two types are the same.
    pub fn same_as(&self, other: &NType) -> (r: bool)
        ensures
            r == (self@ == other@),
        decreases self,
    {
        match self {
            NType::Int => match other {
                NType::Int => true,
                _ => false,
            },
            NType::Float => match other {
                NType::Float => true,
                _ => false,
            },
            NType::Void => match other {
                NType::Void => true,
                _ => false,
            },
            NType::Array(a, n) => match other {
                NType::Array(b, m) => *n == *m && a.same_as(b),
                _ => false,
            },
            NType::Pointer(a) => match other {
                NType::Pointer(b) => a.same_as(b),
                _ => false,
            },
            NType::Struct(x) => match other {
                NType::Struct(y) => *x == *y,
                _ => false,
            },
            NType::Const(a) => match other {
                NType::Const(b) => a.same_as(b),
                _ => false,
            },
        }
    }

    /// Whether the type is an array (an array is never wrapped in `const`).
    pub fn is_array(&self) -> (r: bool)
        ensures
            r == (self@ is Array),
    {
        matches!(self, NType::Array(_, _))
    }

    /// Whether the type is a pointer, also under one `const`.
    pub fn is_pointer(&self) -> (r: bool)
        ensures
            r == (npointee(self@) is Some),
    {
        self.pointer_inner().is_some()
    }

    /// The pointee of a pointer type, also under one `const`.
    pub fn pointer_inner(&self) -> (r: Option<&NType>)
        ensures
            r matches Some(t) ==> npointee(self@) == Some(t@),
            r is None ==> npointee(self@) is None,
    {
        proof {
            reveal_with_fuel(ntype_view, 2);
        }
        match self {
            NType::Pointer(inner) => Some(&**inner),
            NType::Const(inner) => {
                if let NType::Pointer(p) = &**inner {
                    Some(&**p)
                } else {
                    None
                }
            },
            _ => None,
        }
    }

    /// Whether the type is wrapped in `const`.
    pub fn is_const(&self) -> (r: bool)
        ensures
            r == (self@ is Const),
    {
        matches!(self, NType::Const(_))
    }

    /// The type without an outer `const`.
    pub fn unwrap_const(&self) -> (r: NType)
        ensures
            r@ == nunconst(self@),
    {
        match self {
            NType::Const(inner) => inner.duplicate(),
            _ => self.duplicate(),
        }
    }
}

impl Clone for NType {
    fn clone(&self) -> (r: NType)
        ensures
            r@ == self@,
    {
        self.duplicate()
    }
}

impl PartialEq for NType {
    fn eq(&self, other: &NType) -> (r: bool) {
        self.same_as(other)
    }
}

impl PartialEqSpecImpl for NType {
    open spec fn obeys_eq_spec() -> bool {
        true
    }

    open spec fn eq_spec(&self, other: &NType) -> bool {
        self@ == other@
    }
}

impl Eq for NType {
}

/// How a statement uses a variable.
#[derive(Clone, Copy, Debug, PartialEq, Eq, PartialOrd, Ord, Structural)]
pub enum VariableTag {
    Define,
    Write,
    Read,
}

} // verus!
