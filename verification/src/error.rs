//! The errors that semantic analysis reports.

use vstd::prelude::*;

use crate::array::ArrayInitError;
use crate::module::TextRange;
use crate::types::Ty;

verus! {

/// The details of an argument whose type does not fit its parameter.
#[derive(Debug)]
pub struct ArgumentTypeMismatchData {
    pub function_name: String,
    pub param_name: String,
    pub arg_index: usize,
    pub expected: Ty,
    pub found: Ty,
    pub range: TextRange,
}

/// An error found by semantic analysis, with the source range it is about.
#[derive(Debug)]
#[allow(inconsistent_fields)]
pub enum AnalyzeError {
    TypeMismatch { expected: Ty, found: Ty, range: TextRange },
    ConstantExprExpected { range: TextRange },
    VariableDefined { name: String, range: TextRange },
    FunctionDefined { name: String, range: TextRange },
    FunctionImplemented { name: String, range: TextRange },
    FunctionUnImplemented { name: String, range: TextRange },
    VariableUndefined { name: String, range: TextRange },
    ExpectInitialVal { name: String, range: TextRange },
    ArrayError { message: Box<ArrayInitError>, range: TextRange },
    StructDefined { name: String, range: TextRange },
    StructUndefined { name: String, range: TextRange },
    FieldNotFound { struct_name: String, field_name: String, range: TextRange },
    NotAStruct { ty: Ty, range: TextRange },
    NotAStructPointer { ty: Ty, range: TextRange },
    StructInitFieldCountMismatch { expected: usize, found: usize, range: TextRange },
    ApplyOpOnType { ty: Ty, op: String, range: TextRange },
    InvalidVoidUsage { range: TextRange },
    VoidPointerDeref { range: TextRange },
    FunctionUndefined { name: String, range: TextRange },
    ArgumentCountMismatch { function_name: String, expected: usize, found: usize, range: TextRange },
    ArgumentTypeMismatch(Box<ArgumentTypeMismatchData>),
    AssignToConst { name: String, range: TextRange },
    BreakOutsideLoop { range: TextRange },
    ContinueOutsideLoop { range: TextRange },
    ReturnTypeMismatch { expected: Ty, found: Ty, range: TextRange },
    NotALValue { range: TextRange },
    AddressOfRight { range: TextRange },
    CircularDependency { range: TextRange },
    ImportPathNotFound { path: String, range: TextRange },
    ImportSymbolNotFound { symbol: String, module_name: String, range: TextRange },
    ImportSymbolConflict { symbol: String, range: TextRange },
    RecursiveType { struct_name: String, cycle: Vec<String>, range: TextRange },
    InitializerMismatch { expected: String, found: String, range: TextRange },
    BinaryOpTypeMismatch { op: String, lhs: Ty, rhs: Ty, range: TextRange },
    UnescapeError { message: String, range: TextRange },
    InvalidCharLiteral { literal: String, reason: String, range: TextRange },
    IntegerLiteralOverflow { literal: String, ty: String, range: TextRange },
    ConstArithmeticOverflow { message: String, range: TextRange },
    ImplementExternalFunction { name: String, range: TextRange },
}

/// The errors of one source file.
pub type SemanticError = AnalyzeError;

/// The source range an error is about.
pub open spec fn error_range(e: AnalyzeError) -> TextRange {
    match e {
        AnalyzeError::ArgumentTypeMismatch(data) => data.range,
        AnalyzeError::TypeMismatch { range, .. } => range,
        AnalyzeError::ConstantExprExpected { range } => range,
        AnalyzeError::VariableDefined { range, .. } => range,
        AnalyzeError::FunctionDefined { range, .. } => range,
        AnalyzeError::FunctionImplemented { range, .. } => range,
        AnalyzeError::FunctionUnImplemented { range, .. } => range,
        AnalyzeError::VariableUndefined { range, .. } => range,
        AnalyzeError::ExpectInitialVal { range, .. } => range,
        AnalyzeError::ArrayError { range, .. } => range,
        AnalyzeError::StructDefined { range, .. } => range,
        AnalyzeError::StructUndefined { range, .. } => range,
        AnalyzeError::FieldNotFound { range, .. } => range,
        AnalyzeError::NotAStruct { range, .. } => range,
        AnalyzeError::NotAStructPointer { range, .. } => range,
        AnalyzeError::StructInitFieldCountMismatch { range, .. } => range,
        AnalyzeError::ApplyOpOnType { range, .. } => range,
        AnalyzeError::InvalidVoidUsage { range } => range,
        AnalyzeError::VoidPointerDeref { range } => range,
        AnalyzeError::FunctionUndefined { range, .. } => range,
        AnalyzeError::ArgumentCountMismatch { range, .. } => range,
        AnalyzeError::AssignToConst { range, .. } => range,
        AnalyzeError::BreakOutsideLoop { range } => range,
        AnalyzeError::ContinueOutsideLoop { range } => range,
        AnalyzeError::ReturnTypeMismatch { range, .. } => range,
        AnalyzeError::NotALValue { range } => range,
        AnalyzeError::AddressOfRight { range } => range,
        AnalyzeError::CircularDependency { range } => range,
        AnalyzeError::ImportPathNotFound { range, .. } => range,
        AnalyzeError::ImportSymbolNotFound { range, .. } => range,
        AnalyzeError::ImportSymbolConflict { range, .. } => range,
        AnalyzeError::RecursiveType { range, .. } => range,
        AnalyzeError::InitializerMismatch { range, .. } => range,
        AnalyzeError::BinaryOpTypeMismatch { range, .. } => range,
        AnalyzeError::UnescapeError { range, .. } => range,
        AnalyzeError::InvalidCharLiteral { range, .. } => range,
        AnalyzeError::IntegerLiteralOverflow { range, .. } => range,
        AnalyzeError::ConstArithmeticOverflow { range, .. } => range,
        AnalyzeError::ImplementExternalFunction { range, .. } => range,
    }
}

impl AnalyzeError {
    /// The source range the error is about.
    pub fn range(&self) -> (r: &TextRange)
        ensures
            *r == error_range(*self),
    {
        match self {
            AnalyzeError::ArgumentTypeMismatch(data) => &data.range,
            AnalyzeError::TypeMismatch { range, .. } => range,
            AnalyzeError::ConstantExprExpected { range } => range,
            AnalyzeError::VariableDefined { range, .. } => range,
            AnalyzeError::FunctionDefined { range, .. } => range,
            AnalyzeError::FunctionImplemented { range, .. } => range,
            AnalyzeError::FunctionUnImplemented { range, .. } => range,
            AnalyzeError::VariableUndefined { range, .. } => range,
            AnalyzeError::ExpectInitialVal { range, .. } => range,
            AnalyzeError::ArrayError { range, .. } => range,
            AnalyzeError::StructDefined { range, .. } => range,
            AnalyzeError::StructUndefined { range, .. } => range,
            AnalyzeError::FieldNotFound { range, .. } => range,
            AnalyzeError::NotAStruct { range, .. } => range,
            AnalyzeError::NotAStructPointer { range, .. } => range,
            AnalyzeError::StructInitFieldCountMismatch { range, .. } => range,
            AnalyzeError::ApplyOpOnType { range, .. } => range,
            AnalyzeError::InvalidVoidUsage { range } => range,
            AnalyzeError::VoidPointerDeref { range } => range,
            AnalyzeError::FunctionUndefined { range, .. } => range,
            AnalyzeError::ArgumentCountMismatch { range, .. } => range,
            AnalyzeError::AssignToConst { range, .. } => range,
            AnalyzeError::BreakOutsideLoop { range } => range,
            AnalyzeError::ContinueOutsideLoop { range } => range,
            AnalyzeError::ReturnTypeMismatch { range, .. } => range,
            AnalyzeError::NotALValue { range } => range,
            AnalyzeError::AddressOfRight { range } => range,
            AnalyzeError::CircularDependency { range } => range,
            AnalyzeError::ImportPathNotFound { range, .. } => range,
            AnalyzeError::ImportSymbolNotFound { range, .. } => range,
            AnalyzeError::ImportSymbolConflict { range, .. } => range,
            AnalyzeError::RecursiveType { range, .. } => range,
            AnalyzeError::InitializerMismatch { range, .. } => range,
            AnalyzeError::BinaryOpTypeMismatch { range, .. } => range,
            AnalyzeError::UnescapeError { range, .. } => range,
            AnalyzeError::InvalidCharLiteral { range, .. } => range,
            AnalyzeError::IntegerLiteralOverflow { range, .. } => range,
            AnalyzeError::ConstArithmeticOverflow { range, .. } => range,
            AnalyzeError::ImplementExternalFunction { range, .. } => range,
        }
    }
}

} // verus!
