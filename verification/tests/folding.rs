use airyc::array::{ArrayTree, ArrayTreeValue};
use airyc::module::{Module, StructID, TextRange};
use airyc::parser::Parser;
use airyc::syntax_kind::SyntaxKind;
use airyc::types::Ty;
use airyc::value::{EvalError, Value};

fn module() -> Module {
    let (tree, _) = Parser::new("").parse();
    let mut m = Module::new(tree);
    m.file_id = 7;
    m
}

fn calc(l: Value, r: Value, op: SyntaxKind) -> Result<Value, EvalError> {
    Value::calc_binary_expr(&l, &r, op, &module())
}

#[test]
fn fold_same_type_arithmetic() {
    assert!(matches!(calc(Value::I32(2), Value::I32(3), SyntaxKind::PLUS), Ok(Value::I32(5))));
    assert!(matches!(calc(Value::I32(2), Value::I32(3), SyntaxKind::MINUS), Ok(Value::I32(-1))));
    assert!(matches!(calc(Value::U64(6), Value::U64(7), SyntaxKind::STAR), Ok(Value::U64(42))));
    assert!(matches!(calc(Value::I32(7), Value::I32(-2), SyntaxKind::SLASH), Ok(Value::I32(-3))));
    assert!(matches!(calc(Value::I32(7), Value::I32(-2), SyntaxKind::PERCENT), Ok(Value::I32(1))));
    assert!(matches!(calc(Value::I32(-7), Value::I32(2), SyntaxKind::PERCENT), Ok(Value::I32(-1))));
    assert!(matches!(calc(Value::I8(-128), Value::I8(1), SyntaxKind::SLASH), Ok(Value::I8(-128))));
}

#[test]
fn fold_promotes_before_computing() {
    assert!(matches!(calc(Value::I8(5), Value::I32(10), SyntaxKind::PLUS), Ok(Value::I32(15))));
    assert!(matches!(calc(Value::I32(1), Value::Bool(true), SyntaxKind::PLUS), Ok(Value::I32(2))));
    assert!(matches!(calc(Value::U8(200), Value::U32(100), SyntaxKind::PLUS), Ok(Value::U32(300))));
    assert!(matches!(calc(Value::I8(-128), Value::I32(-1), SyntaxKind::SLASH), Ok(Value::I32(128))));
    assert!(matches!(calc(Value::I32(1), Value::U8(1), SyntaxKind::PLUS), Err(EvalError::TypeMismatch)));
}

#[test]
fn fold_reports_overflow() {
    match calc(Value::I32(2147483647), Value::I32(1), SyntaxKind::PLUS) {
        Err(EvalError::Overflow(m)) => assert_eq!(m, "2147483647 + 1 overflows i32"),
        _ => panic!("expected an overflow"),
    }
    match calc(Value::U8(200), Value::U8(100), SyntaxKind::PLUS) {
        Err(EvalError::Overflow(m)) => assert_eq!(m, "200 + 100 overflows u8"),
        _ => panic!("expected an overflow"),
    }
    match calc(Value::U32(1), Value::U32(2), SyntaxKind::MINUS) {
        Err(EvalError::Overflow(m)) => assert_eq!(m, "1 - 2 overflows u32"),
        _ => panic!("expected an overflow"),
    }
    match calc(Value::U64(u64::MAX), Value::U64(u64::MAX), SyntaxKind::STAR) {
        Err(EvalError::Overflow(m)) => assert_eq!(m, "18446744073709551615 * 18446744073709551615 overflows u64"),
        _ => panic!("expected an overflow"),
    }
    match calc(Value::I64(i64::MIN), Value::I64(-1), SyntaxKind::STAR) {
        Err(EvalError::Overflow(m)) => assert_eq!(m, "-9223372036854775808 * -1 overflows i64"),
        _ => panic!("expected an overflow"),
    }
}

#[test]
fn fold_division_by_zero() {
    match calc(Value::I32(5), Value::I32(0), SyntaxKind::SLASH) {
        Err(EvalError::UnsupportedOperation(m)) => assert_eq!(m, "Division by zero"),
        _ => panic!("expected an error"),
    }
    match calc(Value::I32(5), Value::Bool(false), SyntaxKind::PERCENT) {
        Err(EvalError::UnsupportedOperation(m)) => assert_eq!(m, "Modulo by zero"),
        _ => panic!("expected an error"),
    }
}

#[test]
fn fold_comparisons() {
    assert!(matches!(calc(Value::I32(1), Value::I32(2), SyntaxKind::LT), Ok(Value::Bool(true))));
    assert!(matches!(calc(Value::U8(200), Value::U8(100), SyntaxKind::LTEQ), Ok(Value::Bool(false))));
    assert!(matches!(calc(Value::I8(-1), Value::I64(-1), SyntaxKind::EQEQ), Ok(Value::Bool(true))));
    assert!(matches!(calc(Value::Bool(true), Value::I32(1), SyntaxKind::EQEQ), Ok(Value::Bool(true))));
    assert!(matches!(calc(Value::Bool(true), Value::Bool(false), SyntaxKind::NEQ), Ok(Value::Bool(true))));
    assert!(matches!(calc(Value::I32(3), Value::I32(3), SyntaxKind::GTEQ), Ok(Value::Bool(true))));
    assert!(matches!(calc(Value::I32(3), Value::I32(4), SyntaxKind::GT), Ok(Value::Bool(false))));
    match calc(Value::Bool(true), Value::Bool(false), SyntaxKind::LT) {
        Err(EvalError::UnsupportedOperation(m)) => assert_eq!(m, "LT"),
        _ => panic!("expected an error"),
    }
    assert!(matches!(calc(Value::I32(1), Value::U32(1), SyntaxKind::EQEQ), Err(EvalError::TypeMismatch)));
}

#[test]
fn fold_logic_and_null() {
    assert!(matches!(calc(Value::I32(1), Value::I32(0), SyntaxKind::AMPAMP), Ok(Value::Bool(false))));
    assert!(matches!(calc(Value::U8(0), Value::Bool(true), SyntaxKind::PIPEPIPE), Ok(Value::Bool(true))));
    assert!(matches!(calc(Value::Null, Value::I32(1), SyntaxKind::AMPAMP), Err(EvalError::TypeMismatch)));
    assert!(matches!(calc(Value::Null, Value::Null, SyntaxKind::EQEQ), Ok(Value::Bool(true))));
    assert!(matches!(calc(Value::Null, Value::Null, SyntaxKind::NEQ), Ok(Value::Bool(false))));
    match calc(Value::Null, Value::Null, SyntaxKind::PLUS) {
        Err(EvalError::UnsupportedOperation(m)) => assert_eq!(m, "PLUS"),
        _ => panic!("expected an error"),
    }
    assert!(matches!(calc(Value::String("s".to_string()), Value::I32(1), SyntaxKind::PLUS), Err(EvalError::TypeMismatch)));
    assert!(matches!(calc(Value::Null, Value::I32(0), SyntaxKind::EQEQ), Err(EvalError::TypeMismatch)));
    assert!(matches!(calc(Value::I32(1), Value::I32(1), SyntaxKind::AMP), Err(EvalError::TypeMismatch)));
    match calc(Value::Bool(true), Value::Bool(true), SyntaxKind::AMP) {
        Err(EvalError::UnsupportedOperation(m)) => assert_eq!(m, "AMP"),
        _ => panic!("expected an error"),
    }
}

#[test]
fn fold_unary() {
    assert!(matches!(Value::eval_unary(Value::I32(5), SyntaxKind::MINUS), Ok(Value::I32(-5))));
    assert!(matches!(Value::eval_unary(Value::I32(i32::MIN), SyntaxKind::MINUS), Ok(Value::I32(i32::MIN))));
    assert!(matches!(Value::eval_unary(Value::U8(1), SyntaxKind::MINUS), Ok(Value::U8(255))));
    assert!(matches!(Value::eval_unary(Value::U64(0), SyntaxKind::MINUS), Ok(Value::U64(0))));
    assert!(matches!(Value::eval_unary(Value::Bool(true), SyntaxKind::MINUS), Ok(Value::I32(-1))));
    assert!(matches!(Value::eval_unary(Value::Bool(true), SyntaxKind::PLUS), Ok(Value::I32(1))));
    assert!(matches!(Value::eval_unary(Value::I64(0), SyntaxKind::BANG), Ok(Value::Bool(true))));
    assert!(matches!(Value::eval_unary(Value::Bool(true), SyntaxKind::BANG), Ok(Value::Bool(false))));
    assert!(matches!(Value::eval_unary(Value::Null, SyntaxKind::BANG), Err(EvalError::TypeMismatch)));
    assert!(matches!(Value::eval_unary(Value::Null, SyntaxKind::MINUS), Err(EvalError::TypeMismatch)));
    match Value::eval_unary(Value::I32(1), SyntaxKind::STAR) {
        Err(EvalError::UnsupportedOperation(m)) => assert_eq!(m, "STAR"),
        _ => panic!("expected an error"),
    }
}

#[test]
fn value_neg_twice_gives_back() {
    for v in [i8::MIN, -1, 0, 1, i8::MAX] {
        let once = Value::eval_unary(Value::I8(v), SyntaxKind::MINUS).unwrap();
        assert!(matches!(Value::eval_unary(once, SyntaxKind::MINUS), Ok(Value::I8(x)) if x == v));
    }
}

#[test]
fn value_casts() {
    assert!(matches!(Value::I8(-3).cast_to_i32(), Ok(Value::I32(-3))));
    assert!(matches!(Value::Bool(true).cast_to_i8(), Ok(Value::I8(1))));
    assert!(matches!(Value::U8(9).cast_to_u32(), Ok(Value::U32(9))));
    assert!(matches!(Value::U32(9).cast_to_u64(), Ok(Value::U64(9))));
    assert!(matches!(Value::I32(-9).cast_to_i64(), Ok(Value::I64(-9))));
    assert!(matches!(Value::Bool(false).cast_to_u8(), Ok(Value::U8(0))));
    assert!(matches!(Value::U64(0).cast_to_bool(), Ok(Value::Bool(false))));
    assert!(matches!(Value::I8(-1).cast_to_bool(), Ok(Value::Bool(true))));
    assert!(matches!(Value::I32(1).cast_to_i8(), Err(EvalError::TypeMismatch)));
    assert!(matches!(Value::U8(1).cast_to_i32(), Err(EvalError::TypeMismatch)));
    assert!(matches!(Value::Null.cast_to_bool(), Err(EvalError::TypeMismatch)));
}

#[test]
fn value_convert_to_place_type() {
    let m = module();
    assert!(matches!(Value::I8(4).convert_to(&Ty::Const(Box::new(Ty::I64)), &m), Ok(Value::I64(4))));
    assert!(matches!(Value::I32(4).convert_to(&Ty::Bool, &m), Ok(Value::Bool(true))));
    assert!(matches!(Value::I32(4).convert_to(&Ty::I8, &m), Err(EvalError::TypeMismatch)));
    let s = Value::String("hi".to_string());
    match s.convert_to(&Ty::Pointer { pointee: Box::new(Ty::U8), is_const: true }, &m) {
        Ok(Value::String(t)) => assert_eq!(t, "hi"),
        _ => panic!("expected the string back"),
    }
    let sv = Value::Struct(StructID { module: 7, index: 0 }, vec![Value::I32(1), Value::Bool(false)]);
    match sv.convert_to(&Ty::I32, &m) {
        Err(EvalError::TypeMismatch) => {},
        _ => panic!("a struct does not convert to an integer"),
    }
    match sv.convert_to(&Ty::Void, &m) {
        Ok(Value::Struct(id, vals)) => {
            assert_eq!(id, StructID { module: 7, index: 0 });
            assert!(matches!(vals[..], [Value::I32(1), Value::Bool(false)]));
        },
        _ => panic!("expected the struct back"),
    }
}

#[test]
fn value_types() {
    let mut m = module();
    let id = m.new_struct("Point".to_string(), Vec::new(), TextRange { start: 0, end: 5 });
    assert_eq!(Value::U32(1).get_type(&m), Ty::U32);
    assert_eq!(Value::String("x".to_string()).get_type(&m), Ty::Pointer { pointee: Box::new(Ty::U8), is_const: true });
    assert_eq!(Value::Null.get_type(&m), Ty::Pointer { pointee: Box::new(Ty::Void), is_const: true });
    assert_eq!(Value::Array(ArrayTree::Val(ArrayTreeValue::Empty)).get_type(&m), Ty::Array(Box::new(Ty::Void), None));
    assert_eq!(Value::StructZero(id).get_type(&m), Ty::Struct { id, name: "Point".to_string() });
    let missing = StructID { module: 7, index: 9 };
    assert_eq!(Value::StructZero(missing).get_type(&m), Ty::Struct { id: missing, name: "struct#9".to_string() });
}

#[test]
fn value_array_sizes() {
    assert_eq!(Value::I32(3).get_array_size(), Some(3));
    assert_eq!(Value::U8(200).get_array_size(), Some(200));
    assert_eq!(Value::U32(4294967295).get_array_size(), Some(-1));
    assert_eq!(Value::I64(4294967298).get_array_size(), Some(2));
    assert_eq!(Value::Bool(true).get_array_size(), None);
}

#[test]
fn array_leaves() {
    let r = |s: u32| ArrayTreeValue::Expr(TextRange { start: s, end: s + 1 });
    let tree = ArrayTree::Children(vec![
        ArrayTree::Children(vec![ArrayTree::Val(r(1)), ArrayTree::Val(r(2))]),
        ArrayTree::Val(ArrayTreeValue::Empty),
    ]);
    assert_eq!(tree.get_leaf(&[0, 1]).unwrap(), r(2));
    assert_eq!(tree.get_leaf(&[1, 5]).unwrap(), ArrayTreeValue::Empty);
    assert_eq!(tree.get_leaf(&[0, 7]).unwrap(), ArrayTreeValue::Empty);
    assert_eq!(tree.get_leaf(&[-1]).unwrap(), ArrayTreeValue::Empty);
    assert!(tree.get_leaf(&[0]).is_err());
    assert!(tree.get_leaf(&[0, 0, 0]).is_err());
    let copy = tree.duplicate();
    assert_eq!(copy.get_leaf(&[0, 0]).unwrap(), r(1));
}
