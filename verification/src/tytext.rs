//! How types are written for people: in hovers, outlines and messages.

use vstd::prelude::*;

use crate::text::{concat_str, decimal_text, radix_digits};
use crate::types::{ty_view, Ty, TyView};

verus! {

/// The decimal text of an integer, with a `-` when it is negative.
pub open spec fn signed_text(x: int) -> Seq<char> {
    if x < 0 {
        seq!['-'] + radix_digits((-x) as nat, 10)
    } else {
        radix_digits(x as nat, 10)
    }
}

/// How a type is written: `i32`, `[i32; 4]` (`?` for a length not yet
/// known), `*const u8`, `*mut T`, `struct P`, `const T`.
pub open spec fn ty_text(t: TyView) -> Seq<char>
    decreases t,
{
    match t {
        TyView::I32 => "i32"@,
        TyView::I8 => "i8"@,
        TyView::U8 => "u8"@,
        TyView::U32 => "u32"@,
        TyView::I64 => "i64"@,
        TyView::U64 => "u64"@,
        TyView::Bool => "bool"@,
        TyView::F32 => "f32"@,
        TyView::Void => "void"@,
        TyView::Array(inner, size) => match size {
            Some(s) => "["@ + ty_text(*inner) + "; "@ + signed_text(s as int) + "]"@,
            None => "["@ + ty_text(*inner) + "; ?]"@,
        },
        TyView::Pointer { pointee, is_const } => if is_const {
            "*const "@ + ty_text(*pointee)
        } else {
            "*mut "@ + ty_text(*pointee)
        },
        TyView::Struct { name, .. } => "struct "@ + name,
        TyView::Const(inner) => "const "@ + ty_text(*inner),
    }
}

/// The decimal text of `x`.
pub fn i32_text(x: i32) -> (r: String)
    ensures
        r@ == signed_text(x as int),
{
    if x < 0 {
        let magnitude: u64 = (-(x as i64)) as u64;
        let digits = decimal_text(magnitude);
        let r = concat_str("-", digits.as_str());
        proof {
            reveal_strlit("-");
        }
        r
    } else {
        decimal_text(x as u64)
    }
}

/// The decimal text of `x`, whose magnitude fits in 64 bits.
pub fn wide_int_text(x: i128) -> (r: String)
    requires
        -18446744073709551615 <= x <= 18446744073709551615,
    ensures
        r@ == signed_text(x as int),
{
    if x < 0 {
        let magnitude: u64 = (-x) as u64;
        let digits = decimal_text(magnitude);
        let r = concat_str("-", digits.as_str());
        proof {
            reveal_strlit("-");
        }
        r
    } else {
        decimal_text(x as u64)
    }
}

impl Ty {
    /// How the type is written, as `ty_text` says.
    pub fn to_string(&self) -> (r: String)
        ensures
            r@ == ty_text(self@),
        decreases self,
    {
        proof {
            reveal_with_fuel(ty_view, 2);
        }
        match self {
            Ty::I32 => "i32".to_string(),
            Ty::I8 => "i8".to_string(),
            Ty::U8 => "u8".to_string(),
            Ty::U32 => "u32".to_string(),
            Ty::I64 => "i64".to_string(),
            Ty::U64 => "u64".to_string(),
            Ty::Bool => "bool".to_string(),
            Ty::F32 => "f32".to_string(),
            Ty::Void => "void".to_string(),
            Ty::Array(inner, size) => {
                let t = inner.to_string();
                let a = concat_str("[", t.as_str());
                match size {
                    Some(s) => {
                        let b = concat_str(a.as_str(), "; ");
                        let n = i32_text(*s);
                        let c = concat_str(b.as_str(), n.as_str());
                        concat_str(c.as_str(), "]")
                    },
                    None => concat_str(a.as_str(), "; ?]"),
                }
            },
            Ty::Pointer { pointee, is_const } => {
                let t = pointee.to_string();
                if *is_const {
                    concat_str("*const ", t.as_str())
                } else {
                    concat_str("*mut ", t.as_str())
                }
            },
            Ty::Struct { name, .. } => concat_str("struct ", name.as_str()),
            Ty::Const(inner) => {
                let t = inner.to_string();
                concat_str("const ", t.as_str())
            },
        }
    }
}

} // verus!
