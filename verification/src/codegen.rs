//! The settings and the errors of code generation, and the choices it
//! makes for integer operations: the width at which two operands are
//! compared, and the (signed) instruction for each operator.

use vstd::prelude::*;

use crate::syntax_kind::SyntaxKind;
use crate::text::concat_str;
use crate::types::{Ty, TyView};

verus! {

/// How hard the optimiser works.
#[derive(Copy, Clone, PartialEq, Eq, Debug, Structural)]
pub enum OptLevel {
    O0,
    O1,
    O2,
    O3,
}

/// Why code generation failed.
#[derive(Debug)]
pub enum CodegenError {
    Missing(&'static str),
    LlvmBuild(&'static str),
    UndefinedVar(String),
    UndefinedFunc(String),
    TypeMismatch(String),
    Unsupported(String),
    NotImplemented(&'static str),
    LlvmVerification(String),
    LlvmWrite(String),
    TargetMachine(String),
    InvalidRoot,
}

/// The message of an error.
pub open spec fn codegen_message(e: CodegenError) -> Seq<char> {
    match e {
        CodegenError::Missing(s) => "missing "@ + s@,
        CodegenError::LlvmBuild(s) => "LLVM build failed: "@ + s@,
        CodegenError::UndefinedVar(s) => "undefined variable: "@ + s@,
        CodegenError::UndefinedFunc(s) => "undefined function: "@ + s@,
        CodegenError::TypeMismatch(s) => "type mismatch: "@ + s@,
        CodegenError::Unsupported(s) => "unsupported: "@ + s@,
        CodegenError::NotImplemented(s) => "not implemented: "@ + s@,
        CodegenError::LlvmVerification(s) => "LLVM verification failed: "@ + s@,
        CodegenError::LlvmWrite(s) => "failed to write LLVM output: "@ + s@,
        CodegenError::TargetMachine(s) => "target machine error: "@ + s@,
        CodegenError::InvalidRoot => "root node is not CompUnit"@,
    }
}

impl CodegenError {
    /// The message of the error.
    pub fn message(&self) -> (r: String)
        ensures
            r@ == codegen_message(*self),
    {
        match self {
            CodegenError::Missing(s) => concat_str("missing ", s),
            CodegenError::LlvmBuild(s) => concat_str("LLVM build failed: ", s),
            CodegenError::UndefinedVar(s) => concat_str("undefined variable: ", s.as_str()),
            CodegenError::UndefinedFunc(s) => concat_str("undefined function: ", s.as_str()),
            CodegenError::TypeMismatch(s) => concat_str("type mismatch: ", s.as_str()),
            CodegenError::Unsupported(s) => concat_str("unsupported: ", s.as_str()),
            CodegenError::NotImplemented(s) => concat_str("not implemented: ", s),
            CodegenError::LlvmVerification(s) => concat_str("LLVM verification failed: ", s.as_str()),
            CodegenError::LlvmWrite(s) => concat_str("failed to write LLVM output: ", s.as_str()),
            CodegenError::TargetMachine(s) => concat_str("target machine error: ", s.as_str()),
            CodegenError::InvalidRoot => "root node is not CompUnit".to_string(),
        }
    }
}

/// The integer width at which two operands are compared.
#[derive(Copy, Clone, PartialEq, Eq, Debug, Structural)]
pub enum IntWidth {
    Bool,
    I8,
    I32,
}

/// The width at which values of types `l` and `r` (without `const`) are
/// compared: the common type when they agree, `i32` when either is `i32` and
/// the other `i8` or `bool`, `i8` for `i8` with `bool`; none otherwise.
pub open spec fn comparison_width(l: TyView, r: TyView) -> Option<IntWidth> {
    match (l, r) {
        (TyView::I32, TyView::I32) => Some(IntWidth::I32),
        (TyView::I8, TyView::I8) => Some(IntWidth::I8),
        (TyView::Bool, TyView::Bool) => Some(IntWidth::Bool),
        (TyView::I32, TyView::I8) | (TyView::I32, TyView::Bool) | (TyView::I8, TyView::I32) | (
            TyView::Bool,
            TyView::I32,
        ) => Some(IntWidth::I32),
        (TyView::I8, TyView::Bool) | (TyView::Bool, TyView::I8) => Some(IntWidth::I8),
        _ => None,
    }
}

/// Chooses the width at which two integer operands are compared, as
/// `comparison_width` says.
pub fn compare_width(l: &Ty, r: &Ty) -> (w: Option<IntWidth>)
    ensures
        w == comparison_width(l@, r@),
{
    match (l, r) {
        (Ty::I32, Ty::I32) => Some(IntWidth::I32),
        (Ty::I8, Ty::I8) => Some(IntWidth::I8),
        (Ty::Bool, Ty::Bool) => Some(IntWidth::Bool),
        (Ty::I32, Ty::I8) | (Ty::I32, Ty::Bool) | (Ty::I8, Ty::I32) | (Ty::Bool, Ty::I32) => Some(IntWidth::I32),
        (Ty::I8, Ty::Bool) | (Ty::Bool, Ty::I8) => Some(IntWidth::I8),
        _ => None,
    }
}

/// An integer comparison, signed where order matters.
#[derive(Copy, Clone, PartialEq, Eq, Debug, Structural)]
pub enum IntPredicate {
    SignedLess,
    SignedGreater,
    SignedLessEq,
    SignedGreaterEq,
    Equal,
    NotEqual,
}

/// The comparison an operator token stands for.
pub open spec fn predicate_of(op: SyntaxKind) -> Option<IntPredicate> {
    match op {
        SyntaxKind::LT => Some(IntPredicate::SignedLess),
        SyntaxKind::GT => Some(IntPredicate::SignedGreater),
        SyntaxKind::LTEQ => Some(IntPredicate::SignedLessEq),
        SyntaxKind::GTEQ => Some(IntPredicate::SignedGreaterEq),
        SyntaxKind::EQEQ => Some(IntPredicate::Equal),
        SyntaxKind::NEQ => Some(IntPredicate::NotEqual),
        _ => None,
    }
}

/// Whether the comparison `p` holds of two integers read as signed numbers,
/// as LLVM's `icmp` defines its predicates (`slt`, `sgt`, `sle`, `sge`, `eq`, `ne`).
pub open spec fn predicate_holds(p: IntPredicate, a: int, b: int) -> bool {
    match p {
        IntPredicate::SignedLess => a < b,
        IntPredicate::SignedGreater => a > b,
        IntPredicate::SignedLessEq => a <= b,
        IntPredicate::SignedGreaterEq => a >= b,
        IntPredicate::Equal => a == b,
        IntPredicate::NotEqual => a != b,
    }
}

/// Whether the comparison chosen for `op` holds of `a` and `b`.
pub open spec fn chosen_comparison_holds(op: SyntaxKind, a: int, b: int) -> bool {
    match predicate_of(op) {
        Some(p) => predicate_holds(p, a, b),
        None => false,
    }
}

/// The comparison chosen for each comparison operator holds of two integers
/// exactly when the operator's relation does: `>` is strict and `>=` is not,
/// and the comparisons for `>` and `<=`, `<` and `>=`, `==` and `!=` are
/// negations of each other.
pub proof fn lemma_comparison_meaning(a: int, b: int)
    ensures
        chosen_comparison_holds(SyntaxKind::LT, a, b) == (a < b),
        chosen_comparison_holds(SyntaxKind::GT, a, b) == (a > b),
        chosen_comparison_holds(SyntaxKind::LTEQ, a, b) == (a <= b),
        chosen_comparison_holds(SyntaxKind::GTEQ, a, b) == (a >= b),
        chosen_comparison_holds(SyntaxKind::EQEQ, a, b) == (a == b),
        chosen_comparison_holds(SyntaxKind::NEQ, a, b) == (a != b),
        chosen_comparison_holds(SyntaxKind::GT, a, b) == !chosen_comparison_holds(SyntaxKind::LTEQ, a, b),
        chosen_comparison_holds(SyntaxKind::LT, a, b) == !chosen_comparison_holds(SyntaxKind::GTEQ, a, b),
        chosen_comparison_holds(SyntaxKind::EQEQ, a, b) == !chosen_comparison_holds(SyntaxKind::NEQ, a, b),
        chosen_comparison_holds(SyntaxKind::GT, a, b) == chosen_comparison_holds(SyntaxKind::LT, b, a),
        !chosen_comparison_holds(SyntaxKind::GT, a, a),
        !chosen_comparison_holds(SyntaxKind::LT, a, a),
{
}

/// Chooses the comparison for an operator token, as `predicate_of` says.
pub fn comparison_predicate(op: SyntaxKind) -> (p: Option<IntPredicate>)
    ensures
        p == predicate_of(op),
{
    match op {
        SyntaxKind::LT => Some(IntPredicate::SignedLess),
        SyntaxKind::GT => Some(IntPredicate::SignedGreater),
        SyntaxKind::LTEQ => Some(IntPredicate::SignedLessEq),
        SyntaxKind::GTEQ => Some(IntPredicate::SignedGreaterEq),
        SyntaxKind::EQEQ => Some(IntPredicate::Equal),
        SyntaxKind::NEQ => Some(IntPredicate::NotEqual),
        _ => None,
    }
}

/// An integer arithmetic instruction; division and remainder are signed.
#[derive(Copy, Clone, PartialEq, Eq, Debug, Structural)]
pub enum IntArith {
    Add,
    Sub,
    Mul,
    SignedDiv,
    SignedRem,
}

/// The arithmetic instruction an operator token stands for.
pub open spec fn arith_of(op: SyntaxKind) -> Option<IntArith> {
    match op {
        SyntaxKind::PLUS => Some(IntArith::Add),
        SyntaxKind::MINUS => Some(IntArith::Sub),
        SyntaxKind::STAR => Some(IntArith::Mul),
        SyntaxKind::SLASH => Some(IntArith::SignedDiv),
        SyntaxKind::PERCENT => Some(IntArith::SignedRem),
        _ => None,
    }
}

/// Chooses the arithmetic instruction for an operator token, as `arith_of` says.
pub fn arithmetic_instruction(op: SyntaxKind) -> (a: Option<IntArith>)
    ensures
        a == arith_of(op),
{
    match op {
        SyntaxKind::PLUS => Some(IntArith::Add),
        SyntaxKind::MINUS => Some(IntArith::Sub),
        SyntaxKind::STAR => Some(IntArith::Mul),
        SyntaxKind::SLASH => Some(IntArith::SignedDiv),
        SyntaxKind::PERCENT => Some(IntArith::SignedRem),
        _ => None,
    }
}

} // verus!
