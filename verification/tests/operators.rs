use airyc::error::AnalyzeError;
use airyc::expr::{ArgsNode, BinaryExprNode, CallExprNode, OpToken, ParenExprNode};
use airyc::module::{Module, ReferenceTag, TextRange};
use airyc::parser::Parser;
use airyc::syntax_kind::SyntaxKind;
use airyc::types::Ty;
use airyc::value::Value;

const L: TextRange = TextRange { start: 0, end: 1 };
const R: TextRange = TextRange { start: 4, end: 5 };
const E: TextRange = TextRange { start: 0, end: 5 };

fn module() -> Module {
    let (tree, _) = Parser::new("").parse();
    let mut m = Module::new(tree);
    m.file_id = 0;
    m
}

fn bin(kind: SyntaxKind, text: &str) -> BinaryExprNode {
    BinaryExprNode { range: E, lhs: Some(L), rhs: Some(R), op: Some(OpToken { kind, text: text.to_string() }) }
}

#[test]
fn binary_types_and_folds() {
    let mut m = module();
    m.set_expr_type(L, Ty::I32);
    m.set_expr_type(R, Ty::I32);
    m.value_table.push((L, Value::I32(6)));
    m.value_table.push((R, Value::I32(7)));
    m.leave_binary_expr(&bin(SyntaxKind::STAR, "*"));
    assert!(matches!(m.get_expr_type(E), Some(Ty::I32)));
    assert!(matches!(m.get_value_by_range(E), Some(Value::I32(42))));
    let mut m = module();
    m.set_expr_type(L, Ty::I32);
    m.set_expr_type(R, Ty::I32);
    m.leave_binary_expr(&bin(SyntaxKind::LT, "<"));
    assert!(matches!(m.get_expr_type(E), Some(Ty::Bool)));
    assert!(m.get_value_by_range(E).is_none());
}

#[test]
fn binary_mismatch_and_overflow_are_reported() {
    let mut m = module();
    m.set_expr_type(L, Ty::I32);
    m.set_expr_type(R, Ty::Void);
    m.leave_binary_expr(&bin(SyntaxKind::PLUS, "+"));
    assert!(matches!(&m.semantic_errors[0], AnalyzeError::BinaryOpTypeMismatch { op, lhs: Ty::I32, rhs: Ty::Void, range } if op == "+" && *range == E));
    assert!(m.get_expr_type(E).is_none());
    let mut m = module();
    m.set_expr_type(L, Ty::I32);
    m.set_expr_type(R, Ty::I32);
    m.value_table.push((L, Value::I32(i32::MAX)));
    m.value_table.push((R, Value::I32(1)));
    m.leave_binary_expr(&bin(SyntaxKind::PLUS, "+"));
    assert!(matches!(&m.semantic_errors[0], AnalyzeError::ConstArithmeticOverflow { range, .. } if *range == E));
    assert!(matches!(m.get_expr_type(E), Some(Ty::I32)));
}

#[test]
fn parentheses_pass_type_and_value_through() {
    let mut m = module();
    m.set_expr_type(R, Ty::U8);
    m.value_table.push((R, Value::U8(3)));
    m.leave_paren_expr(&ParenExprNode { range: E, expr: Some(R) });
    assert!(matches!(m.get_expr_type(E), Some(Ty::U8)));
    assert!(matches!(m.get_value_by_range(E), Some(Value::U8(3))));
}

const NAME: TextRange = TextRange { start: 10, end: 11 };
const ARGS: TextRange = TextRange { start: 11, end: 20 };
const A1: TextRange = TextRange { start: 12, end: 13 };
const A2: TextRange = TextRange { start: 15, end: 16 };
const CALL: TextRange = TextRange { start: 10, end: 20 };

fn with_function(m: &mut Module, variadic: bool) {
    let f = m.new_function(
        "f".to_string(),
        vec![],
        vec![("a".to_string(), Ty::I32), ("b".to_string(), Ty::Bool)],
        Ty::I8,
        true,
        variadic,
        TextRange { start: 50, end: 60 },
    );
    m.function_map.push(("f".to_string(), f));
}

fn call(name: &str, args: Vec<TextRange>) -> CallExprNode {
    CallExprNode { range: CALL, name: Some((name.to_string(), NAME)), args: Some(ArgsNode { range: ARGS, args }) }
}

#[test]
fn call_gets_return_type_and_is_recorded() {
    let mut m = module();
    with_function(&mut m, false);
    m.set_expr_type(A1, Ty::I32);
    m.set_expr_type(A2, Ty::Bool);
    m.leave_call_expr(&call("f", vec![A1, A2]));
    assert!(matches!(m.get_expr_type(CALL), Some(Ty::I8)));
    assert!(m.semantic_errors.is_empty());
    assert!(matches!(m.reference[0].tag, ReferenceTag::FuncCall(f) if f.index == 0));
}

#[test]
fn call_errors() {
    let mut m = module();
    m.leave_call_expr(&call("g", vec![]));
    assert!(matches!(&m.semantic_errors[0], AnalyzeError::FunctionUndefined { name, range } if name == "g" && *range == NAME));
    let mut m = module();
    with_function(&mut m, false);
    m.leave_call_expr(&call("f", vec![A1]));
    assert!(matches!(&m.semantic_errors[0], AnalyzeError::ArgumentCountMismatch { expected: 2, found: 1, range, .. } if *range == ARGS));
    assert!(matches!(m.get_expr_type(CALL), Some(Ty::I8)));
    let mut m = module();
    with_function(&mut m, false);
    m.set_expr_type(A1, Ty::Void);
    m.set_expr_type(A2, Ty::Void);
    m.leave_call_expr(&call("f", vec![A1, A2]));
    assert_eq!(m.semantic_errors.len(), 2);
    match &m.semantic_errors[1] {
        AnalyzeError::ArgumentTypeMismatch(d) => {
            assert_eq!(d.param_name, "b");
            assert_eq!(d.arg_index, 2);
            assert_eq!(d.range, A2);
        }
        e => panic!("unexpected {:?}", e),
    }
}

#[test]
fn variadic_call_takes_more_arguments() {
    let mut m = module();
    with_function(&mut m, true);
    let a3 = TextRange { start: 17, end: 18 };
    m.leave_call_expr(&call("f", vec![A1, A2, a3]));
    assert!(m.semantic_errors.is_empty());
    m.leave_call_expr(&call("f", vec![A1]));
    assert_eq!(m.semantic_errors.len(), 1);
}
