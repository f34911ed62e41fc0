use airyc::error::AnalyzeError;
use airyc::expr::{is_lvalue_expr, ExprNode, ExprShape, OpToken, UnaryExprNode};
use airyc::literal::LiteralToken;
use airyc::module::{Module, TextRange};
use airyc::parser::Parser;
use airyc::syntax_kind::SyntaxKind;
use airyc::types::Ty;
use airyc::value::Value;

const LIT: TextRange = TextRange { start: 1, end: 6 };
const NEG: TextRange = TextRange { start: 0, end: 6 };

fn module() -> Module {
    let (tree, _) = Parser::new("").parse();
    Module::new(tree)
}

fn operand(shape: ExprShape) -> ExprNode {
    ExprNode { range: LIT, trimmed: LIT, shape }
}

fn node(kind: SyntaxKind, text: &str, shape: ExprShape) -> UnaryExprNode {
    UnaryExprNode {
        range: NEG,
        expr: Some(operand(shape)),
        op: Some(OpToken { kind, text: text.to_string() }),
    }
}

fn negate_literal(text: &str) -> Module {
    let mut m = module();
    m.enter_literal(LIT, LIT, &LiteralToken::Int(text.to_string()));
    m.leave_unary_expr(&node(SyntaxKind::MINUS, "-", ExprShape::Other));
    m
}

#[test]
fn negated_smallest_literal_is_accepted() {
    let m = negate_literal("128i8");
    assert!(matches!(m.get_value_by_range(NEG), Some(Value::I8(-128))));
    assert!(matches!(m.get_expr_type(NEG), Some(Ty::I8)));
    assert!(m.semantic_errors.is_empty());
    assert!(m.overflowing_text(LIT).is_none());
    let m = negate_literal("2147483648");
    assert!(matches!(m.get_value_by_range(NEG), Some(Value::I32(-2147483648))));
    assert!(m.semantic_errors.is_empty());
}

#[test]
fn negated_literal_still_too_large_is_reported() {
    let m = negate_literal("200i8");
    assert_eq!(m.semantic_errors.len(), 1);
    match &m.semantic_errors[0] {
        AnalyzeError::IntegerLiteralOverflow { literal, ty, range } => {
            assert_eq!(literal, "200i8");
            assert_eq!(ty, "i8");
            assert_eq!(*range, LIT);
        }
        e => panic!("unexpected {:?}", e),
    }
    assert!(m.overflowing_text(LIT).is_none());
    let m = negate_literal("300u8");
    match &m.semantic_errors[0] {
        AnalyzeError::IntegerLiteralOverflow { ty, .. } => assert_eq!(ty, "u8"),
        e => panic!("unexpected {:?}", e),
    }
}

#[test]
fn negation_folds_constants() {
    let m = negate_literal("5");
    assert!(matches!(m.get_value_by_range(NEG), Some(Value::I32(-5))));
    assert!(matches!(m.get_expr_type(NEG), Some(Ty::I32)));
    let m = negate_literal("5u32");
    assert!(matches!(m.get_value_by_range(NEG), Some(Value::U32(4294967291))));
    let mut m = module();
    m.enter_literal(LIT, LIT, &LiteralToken::True);
    m.leave_unary_expr(&node(SyntaxKind::BANG, "!", ExprShape::Other));
    assert!(matches!(m.get_value_by_range(NEG), Some(Value::Bool(false))));
    assert!(matches!(m.get_expr_type(NEG), Some(Ty::Bool)));
}

#[test]
fn address_of_a_value_is_refused() {
    let mut m = module();
    m.enter_literal(LIT, LIT, &LiteralToken::Int("1".to_string()));
    m.leave_unary_expr(&node(SyntaxKind::AMP, "&", ExprShape::Other));
    assert!(matches!(m.semantic_errors[0], AnalyzeError::AddressOfRight { range } if range == LIT));
    assert!(m.get_expr_type(NEG).is_none());
}

#[test]
fn address_of_a_place_is_a_pointer() {
    let mut m = module();
    m.set_expr_type(LIT, Ty::I32);
    m.leave_unary_expr(&node(SyntaxKind::AMP, "&", ExprShape::IndexVal));
    match m.get_expr_type(NEG) {
        Some(Ty::Pointer { pointee, is_const }) => {
            assert!(matches!(**pointee, Ty::I32));
            assert!(!*is_const);
        }
        t => panic!("unexpected {:?}", t),
    }
    assert!(m.semantic_errors.is_empty());
}

#[test]
fn operator_on_wrong_type_is_reported() {
    let mut m = module();
    m.enter_literal(LIT, LIT, &LiteralToken::Null);
    m.leave_unary_expr(&node(SyntaxKind::MINUS, "-", ExprShape::Other));
    match &m.semantic_errors[0] {
        AnalyzeError::ApplyOpOnType { op, range, .. } => {
            assert_eq!(op, "-");
            assert_eq!(*range, LIT);
        }
        e => panic!("unexpected {:?}", e),
    }
    let mut m = module();
    m.enter_literal(LIT, LIT, &LiteralToken::Null);
    m.leave_unary_expr(&node(SyntaxKind::STAR, "*", ExprShape::Other));
    assert!(matches!(m.semantic_errors[0], AnalyzeError::VoidPointerDeref { range } if range == LIT));
}

#[test]
fn missing_parts_do_nothing() {
    let mut m = module();
    m.enter_literal(LIT, LIT, &LiteralToken::Int("1".to_string()));
    m.leave_unary_expr(&UnaryExprNode { range: NEG, expr: None, op: None });
    assert!(m.get_expr_type(NEG).is_none());
    assert!(m.semantic_errors.is_empty());
}

#[test]
fn places() {
    assert!(is_lvalue_expr(ExprShape::IndexVal));
    assert!(is_lvalue_expr(ExprShape::PostfixExpr));
    assert!(is_lvalue_expr(ExprShape::UnaryExpr(Some(SyntaxKind::STAR))));
    assert!(!is_lvalue_expr(ExprShape::UnaryExpr(Some(SyntaxKind::MINUS))));
    assert!(!is_lvalue_expr(ExprShape::UnaryExpr(None)));
    assert!(!is_lvalue_expr(ExprShape::Other));
}
