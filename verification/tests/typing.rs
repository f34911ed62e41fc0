use airyc::module::StructID;
use airyc::ntype::{NType, VariableTag};
use airyc::syntax_kind::SyntaxKind;
use airyc::types::{Ty, UnaryOpError};

fn ptr(t: Ty) -> Ty {
    Ty::Pointer { pointee: Box::new(t), is_const: false }
}

fn cptr(t: Ty) -> Ty {
    Ty::Pointer { pointee: Box::new(t), is_const: true }
}

fn st(index: u32, name: &str) -> Ty {
    Ty::Struct { id: StructID { module: 1, index }, name: name.to_string() }
}

#[test]
fn ty_classification() {
    assert!(Ty::Array(Box::new(Ty::I32), Some(3)).is_array());
    assert!(Ty::Const(Box::new(Ty::Array(Box::new(Ty::I32), None))).is_array());
    assert!(!Ty::I32.is_array());
    assert!(ptr(Ty::I32).is_pointer());
    assert!(Ty::Const(Box::new(ptr(Ty::I32))).is_pointer());
    assert!(!Ty::Const(Box::new(Ty::Const(Box::new(ptr(Ty::I32))))).is_pointer());
    assert_eq!(Ty::Const(Box::new(ptr(Ty::I8))).pointer_inner(), Some(&Ty::I8));
    assert_eq!(Ty::I32.pointer_inner(), None);
    assert!(st(0, "A").is_struct());
    assert!(Ty::Const(Box::new(st(0, "A"))).is_struct());
    assert!(!ptr(st(0, "A")).is_struct());
}

#[test]
fn ty_constness() {
    assert!(Ty::Const(Box::new(Ty::I32)).is_const());
    assert!(cptr(Ty::I32).is_const());
    assert!(!ptr(Ty::I32).is_const());
    assert!(Ty::Array(Box::new(Ty::Const(Box::new(Ty::I32))), Some(2)).is_const());
    assert!(!Ty::Array(Box::new(Ty::I32), Some(2)).is_const());
    assert_eq!(Ty::Const(Box::new(Ty::U8)).unwrap_const(), Ty::U8);
    assert_eq!(Ty::U8.unwrap_const(), Ty::U8);
    assert_eq!(
        Ty::Const(Box::new(Ty::Const(Box::new(Ty::U8)))).unwrap_const(),
        Ty::Const(Box::new(Ty::U8))
    );
}

#[test]
fn ty_struct_ids() {
    let a = StructID { module: 1, index: 0 };
    assert_eq!(st(0, "A").as_struct_id(), Some(a));
    assert_eq!(Ty::Const(Box::new(st(0, "A"))).as_struct_id(), Some(a));
    assert_eq!(ptr(st(0, "A")).as_struct_id(), None);
    assert_eq!(ptr(st(0, "A")).as_struct_pointer_id(), Some(a));
    assert_eq!(Ty::Const(Box::new(cptr(st(0, "A")))).as_struct_pointer_id(), Some(a));
    assert_eq!(ptr(Ty::I32).as_struct_pointer_id(), None);
}

#[test]
fn ty_assignment_rules() {
    assert!(Ty::I32.assign_to_me_is_ok(&Ty::I32));
    assert!(Ty::I64.assign_to_me_is_ok(&Ty::I32));
    assert!(Ty::I32.assign_to_me_is_ok(&Ty::I8));
    assert!(Ty::I32.assign_to_me_is_ok(&Ty::Bool));
    assert!(Ty::U64.assign_to_me_is_ok(&Ty::U8));
    assert!(!Ty::I32.assign_to_me_is_ok(&Ty::I64));
    assert!(!Ty::I32.assign_to_me_is_ok(&Ty::U8));
    assert!(!Ty::U8.assign_to_me_is_ok(&Ty::I8));
    assert!(Ty::Const(Box::new(Ty::I32)).assign_to_me_is_ok(&Ty::I8));
    assert!(Ty::I32.assign_to_me_is_ok(&Ty::Const(Box::new(Ty::I32))));
    assert!(ptr(Ty::I32).assign_to_me_is_ok(&cptr(Ty::Void)));
    assert!(st(0, "A").assign_to_me_is_ok(&st(0, "B")));
    assert!(!st(0, "A").assign_to_me_is_ok(&st(1, "A")));
    assert!(Ty::Void.assign_to_me_is_ok(&Ty::Void));
    assert!(!Ty::Array(Box::new(Ty::I32), Some(1)).assign_to_me_is_ok(&Ty::Array(Box::new(Ty::I32), Some(1))));
}

#[test]
fn ty_binary_result_types() {
    assert_eq!(Ty::compute_binary_result_type(&Ty::I32, &Ty::I32, SyntaxKind::PLUS), Some(Ty::I32));
    assert_eq!(Ty::compute_binary_result_type(&Ty::I8, &Ty::I32, SyntaxKind::STAR), Some(Ty::I32));
    assert_eq!(Ty::compute_binary_result_type(&Ty::Const(Box::new(Ty::U8)), &Ty::U32, SyntaxKind::MINUS), Some(Ty::U32));
    assert_eq!(Ty::compute_binary_result_type(&Ty::I32, &Ty::U8, SyntaxKind::PLUS), None);
    assert_eq!(Ty::compute_binary_result_type(&Ty::Bool, &Ty::Bool, SyntaxKind::PLUS), None);
    assert_eq!(Ty::compute_binary_result_type(&Ty::F32, &Ty::F32, SyntaxKind::SLASH), Some(Ty::F32));
    assert_eq!(Ty::compute_binary_result_type(&ptr(Ty::I32), &Ty::I32, SyntaxKind::PLUS), Some(ptr(Ty::I32)));
    assert_eq!(Ty::compute_binary_result_type(&Ty::I32, &ptr(Ty::I32), SyntaxKind::PLUS), Some(ptr(Ty::I32)));
    assert_eq!(Ty::compute_binary_result_type(&Ty::I32, &ptr(Ty::I32), SyntaxKind::MINUS), None);
    assert_eq!(Ty::compute_binary_result_type(&ptr(Ty::I32), &ptr(Ty::I8), SyntaxKind::MINUS), Some(Ty::I32));
    assert_eq!(Ty::compute_binary_result_type(&Ty::I32, &Ty::I64, SyntaxKind::LT), Some(Ty::Bool));
    assert_eq!(Ty::compute_binary_result_type(&ptr(Ty::I32), &ptr(Ty::I32), SyntaxKind::EQEQ), Some(Ty::Bool));
    assert_eq!(Ty::compute_binary_result_type(&Ty::I32, &Ty::U32, SyntaxKind::EQEQ), None);
    assert_eq!(Ty::compute_binary_result_type(&Ty::Bool, &Ty::I32, SyntaxKind::AMPAMP), Some(Ty::Bool));
    assert_eq!(Ty::compute_binary_result_type(&ptr(Ty::I32), &Ty::I32, SyntaxKind::PIPEPIPE), None);
    assert_eq!(Ty::compute_binary_result_type(&Ty::I32, &Ty::I32, SyntaxKind::AMP), None);
}

#[test]
fn ty_promotion() {
    assert_eq!(Ty::compute_promotion_type(&Ty::I8, &Ty::I64), Some(Ty::I64));
    assert_eq!(Ty::compute_promotion_type(&Ty::Bool, &Ty::I8), Some(Ty::I8));
    assert_eq!(Ty::compute_promotion_type(&Ty::U32, &Ty::U8), Some(Ty::U32));
    assert_eq!(Ty::compute_promotion_type(&Ty::Bool, &Ty::Bool), Some(Ty::Bool));
    assert_eq!(Ty::compute_promotion_type(&Ty::Bool, &Ty::U8), None);
    assert_eq!(Ty::compute_promotion_type(&Ty::I32, &ptr(Ty::I32)), None);
}

#[test]
fn ty_unary_operators() {
    assert_eq!(Ty::I32.validate_unary_op(SyntaxKind::MINUS), Ok(Ty::I32));
    assert_eq!(Ty::Const(Box::new(Ty::U8)).validate_unary_op(SyntaxKind::PLUS), Ok(Ty::U8));
    assert_eq!(Ty::Bool.validate_unary_op(SyntaxKind::MINUS), Ok(Ty::I32));
    assert_eq!(Ty::I64.validate_unary_op(SyntaxKind::BANG), Ok(Ty::Bool));
    assert_eq!(Ty::Const(Box::new(Ty::I32)).validate_unary_op(SyntaxKind::AMP), Ok(ptr(Ty::I32)));
    assert_eq!(cptr(Ty::I8).validate_unary_op(SyntaxKind::STAR), Ok(Ty::I8));
    assert_eq!(ptr(Ty::Void).validate_unary_op(SyntaxKind::STAR), Err(UnaryOpError::VoidPointerDeref));
    assert_eq!(Ty::I32.validate_unary_op(SyntaxKind::STAR), Err(UnaryOpError::InvalidOp));
    assert_eq!(st(0, "A").validate_unary_op(SyntaxKind::MINUS), Err(UnaryOpError::InvalidOp));
    assert_eq!(Ty::F32.validate_unary_op(SyntaxKind::BANG), Err(UnaryOpError::InvalidOp));
}

#[test]
fn ty_equality_and_copies() {
    let t = Ty::Array(Box::new(cptr(st(2, "Node"))), Some(4));
    assert_eq!(t.clone(), t);
    assert_ne!(t, Ty::Array(Box::new(cptr(st(2, "Node"))), Some(5)));
    assert_ne!(st(2, "Node"), st(2, "Other"));
}

#[test]
fn ntype_queries() {
    let p = NType::Pointer(Box::new(NType::Int));
    assert!(p.is_pointer());
    assert!(NType::Const(Box::new(p.clone())).is_pointer());
    assert_eq!(NType::Const(Box::new(p.clone())).pointer_inner(), Some(&NType::Int));
    assert!(!NType::Int.is_pointer());
    assert!(NType::Array(Box::new(NType::Float), 3).is_array());
    assert!(!NType::Const(Box::new(NType::Array(Box::new(NType::Float), 3))).is_array());
    assert!(NType::Const(Box::new(NType::Int)).is_const());
    assert!(!p.is_const());
    assert_eq!(NType::Const(Box::new(NType::Struct("S".to_string()))).unwrap_const(), NType::Struct("S".to_string()));
    assert_eq!(NType::Void.unwrap_const(), NType::Void);
    assert!(VariableTag::Define < VariableTag::Write && VariableTag::Write < VariableTag::Read);
}
