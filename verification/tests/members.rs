use airyc::array::{ArrayTree, ArrayTreeValue};
use airyc::error::AnalyzeError;
use airyc::expr::{ExprNode, ExprShape, FieldAccessNode, OpToken, PostfixExprNode};
use airyc::module::{Module, ReferenceTag, StructID, TextRange};
use airyc::parser::Parser;
use airyc::syntax_kind::SyntaxKind;
use airyc::types::Ty;
use airyc::value::Value;

const BASE: TextRange = TextRange { start: 0, end: 1 };
const MEMBER: TextRange = TextRange { start: 2, end: 5 };
const WHOLE: TextRange = TextRange { start: 0, end: 9 };
const IDX: TextRange = TextRange { start: 6, end: 7 };
const ELEM: TextRange = TextRange { start: 20, end: 21 };

fn setup() -> (Module, StructID) {
    let (tree, _) = Parser::new("").parse();
    let mut m = Module::new(tree);
    m.file_id = 0;
    let x = m.new_field("x".to_string(), Ty::I32, TextRange { start: 30, end: 31 });
    let arr = m.new_field("arr".to_string(), Ty::Array(Box::new(Ty::I32), Some(2)), TextRange { start: 32, end: 35 });
    let id = m.new_struct("P".to_string(), vec![x, arr], TextRange { start: 29, end: 40 });
    (m, id)
}

fn access(kind: SyntaxKind, text: &str, member: &str, indices: Vec<TextRange>) -> PostfixExprNode {
    PostfixExprNode {
        range: WHOLE,
        trimmed: WHOLE,
        op: Some(OpToken { kind, text: text.to_string() }),
        field: Some(FieldAccessNode { name: Some((member.to_string(), MEMBER)), trimmed: TextRange { start: 2, end: 9 }, indices }),
        expr: Some(ExprNode { range: BASE, trimmed: BASE, shape: ExprShape::Other }),
    }
}

fn struct_ty(id: StructID) -> Ty {
    Ty::Struct { id, name: "P".to_string() }
}

#[test]
fn dot_reads_a_field() {
    let (mut m, id) = setup();
    m.set_expr_type(BASE, struct_ty(id));
    m.leave_postfix_expr(&access(SyntaxKind::DOT, ".", "x", vec![]));
    assert!(matches!(m.get_expr_type(WHOLE), Some(Ty::I32)));
    assert_eq!(m.reference.len(), 1);
    assert_eq!(m.reference[0].range, MEMBER);
    assert!(matches!(m.reference[0].tag, ReferenceTag::FieldRead(f) if f.index == 0));
    assert!(m.semantic_errors.is_empty());
    assert!(m.get_value_by_range(WHOLE).is_none());
}

#[test]
fn member_of_const_struct_is_const_and_folds() {
    let (mut m, id) = setup();
    m.set_expr_type(BASE, Ty::Const(Box::new(struct_ty(id))));
    let tree = ArrayTree::Children(vec![ArrayTree::Val(ArrayTreeValue::Empty), ArrayTree::Val(ArrayTreeValue::Expr(ELEM))]);
    m.value_table.push((BASE, Value::Struct(id, vec![Value::I32(5), Value::Array(tree)])));
    m.value_table.push((ELEM, Value::I32(77)));
    m.value_table.push((IDX, Value::I8(1)));
    m.leave_postfix_expr(&access(SyntaxKind::DOT, ".", "x", vec![]));
    assert!(matches!(m.get_expr_type(WHOLE), Some(Ty::Const(t)) if matches!(**t, Ty::I32)));
    assert!(matches!(m.get_value_by_range(WHOLE), Some(Value::I32(5))));
    let (mut m2, _) = setup();
    std::mem::swap(&mut m2.value_table, &mut m.value_table);
    m2.set_expr_type(BASE, Ty::Const(Box::new(struct_ty(id))));
    m2.leave_postfix_expr(&access(SyntaxKind::DOT, ".", "arr", vec![IDX]));
    assert!(matches!(m2.get_expr_type(WHOLE), Some(Ty::Const(t)) if matches!(**t, Ty::I32)));
    assert!(matches!(m2.get_value_by_range(WHOLE), Some(Value::I32(77))));
}

#[test]
fn arrow_needs_a_struct_pointer() {
    let (mut m, id) = setup();
    m.set_expr_type(BASE, Ty::Pointer { pointee: Box::new(struct_ty(id)), is_const: false });
    m.leave_postfix_expr(&access(SyntaxKind::ARROW, "->", "arr", vec![]));
    match m.get_expr_type(WHOLE) {
        Some(Ty::Pointer { pointee, is_const }) => {
            assert!(matches!(**pointee, Ty::I32));
            assert!(*is_const);
        }
        t => panic!("unexpected {:?}", t),
    }
    let (mut m, id) = setup();
    m.set_expr_type(BASE, struct_ty(id));
    m.leave_postfix_expr(&access(SyntaxKind::ARROW, "->", "x", vec![]));
    assert!(matches!(&m.semantic_errors[0], AnalyzeError::NotAStructPointer { range, .. } if *range == BASE));
    let (mut m, _) = setup();
    m.set_expr_type(BASE, Ty::I32);
    m.leave_postfix_expr(&access(SyntaxKind::DOT, ".", "x", vec![]));
    assert!(matches!(&m.semantic_errors[0], AnalyzeError::NotAStruct { ty: Ty::I32, range } if *range == BASE));
}

#[test]
fn unknown_member_and_bad_index_are_reported() {
    let (mut m, id) = setup();
    m.set_expr_type(BASE, struct_ty(id));
    m.leave_postfix_expr(&access(SyntaxKind::DOT, ".", "y", vec![]));
    match &m.semantic_errors[0] {
        AnalyzeError::FieldNotFound { struct_name, field_name, range } => {
            assert_eq!(struct_name, "P");
            assert_eq!(field_name, "y");
            assert_eq!(*range, WHOLE);
        }
        e => panic!("unexpected {:?}", e),
    }
    assert!(m.reference.is_empty());
    let (mut m, id) = setup();
    m.set_expr_type(BASE, struct_ty(id));
    m.leave_postfix_expr(&access(SyntaxKind::DOT, ".", "x", vec![IDX]));
    assert!(matches!(&m.semantic_errors[0], AnalyzeError::ApplyOpOnType { op, .. } if op == "[]"));
}
