use airyc::array::{ArrayTree, ArrayTreeValue};
use airyc::error::AnalyzeError;
use airyc::expr::{IndexNode, IndexValNode};
use airyc::module::{Module, ReferenceTag, TextRange};
use airyc::parser::Parser;
use airyc::types::Ty;
use airyc::value::Value;

const DECL: TextRange = TextRange { start: 0, end: 3 };
const USE: TextRange = TextRange { start: 10, end: 20 };
const NAME: TextRange = TextRange { start: 10, end: 11 };
const I0: TextRange = TextRange { start: 12, end: 13 };
const I1: TextRange = TextRange { start: 15, end: 16 };
const ELEM: TextRange = TextRange { start: 40, end: 41 };

fn module_with(ty: Ty) -> Module {
    let (tree, _) = Parser::new("").parse();
    let mut m = Module::new(tree);
    m.file_id = 0;
    let s = m.new_scope(None, TextRange { start: 0, end: 100 });
    m.current_scope = s;
    m.global_scope = s;
    m.scopes[0].new_variable(&mut m.variables, &mut m.variable_map, "a".to_string(), ty, DECL);
    m
}

fn use_of(name: &str, indices: Vec<TextRange>) -> IndexValNode {
    IndexValNode {
        range: USE,
        trimmed: USE,
        name: Some((name.to_string(), NAME)),
        indices: indices.into_iter().map(|r| IndexNode { range: r, trimmed: r }).collect(),
    }
}

fn const_matrix() -> Ty {
    Ty::Array(Box::new(Ty::Array(Box::new(Ty::Const(Box::new(Ty::I32))), Some(2))), Some(2))
}

#[test]
fn plain_use_has_the_variable_type() {
    let mut m = module_with(Ty::I8);
    m.leave_index_val(&use_of("a", vec![]));
    assert!(matches!(m.get_expr_type(USE), Some(Ty::I8)));
    assert_eq!(m.reference.len(), 1);
    assert!(matches!(m.reference[0].tag, ReferenceTag::VarRead(v) if v.0 == 0));
    assert_eq!(m.reference[0].range, NAME);
    assert!(m.get_value_by_range(USE).is_none());
}

#[test]
fn undefined_variable_is_reported() {
    let mut m = module_with(Ty::I8);
    m.leave_index_val(&use_of("b", vec![]));
    assert!(matches!(&m.semantic_errors[0], AnalyzeError::VariableUndefined { name, range } if name == "b" && *range == NAME));
    assert!(m.reference.is_empty());
}

#[test]
fn constant_scalar_is_folded() {
    let mut m = module_with(Ty::Const(Box::new(Ty::I32)));
    m.value_table.push((DECL, Value::I32(9)));
    m.leave_index_val(&use_of("a", vec![]));
    assert!(matches!(m.get_value_by_range(USE), Some(Value::I32(9))));
}

#[test]
fn constant_element_is_folded() {
    let mut m = module_with(const_matrix());
    let tree = ArrayTree::Children(vec![
        ArrayTree::Children(vec![ArrayTree::Val(ArrayTreeValue::Expr(ELEM))]),
        ArrayTree::Val(ArrayTreeValue::Empty),
    ]);
    m.value_table.push((DECL, Value::Array(tree)));
    m.value_table.push((ELEM, Value::I32(5)));
    m.value_table.push((I0, Value::I32(0)));
    m.value_table.push((I1, Value::I8(0)));
    m.leave_index_val(&use_of("a", vec![I0, I1]));
    assert!(matches!(m.get_expr_type(USE), Some(Ty::Const(t)) if matches!(**t, Ty::I32)));
    assert!(matches!(m.get_value_by_range(USE), Some(Value::I32(5))));
}

#[test]
fn missing_element_is_zero() {
    let mut m = module_with(const_matrix());
    let tree = ArrayTree::Children(vec![ArrayTree::Val(ArrayTreeValue::Empty)]);
    m.value_table.push((DECL, Value::Array(tree)));
    m.value_table.push((I0, Value::I32(1)));
    m.value_table.push((I1, Value::I32(1)));
    m.leave_index_val(&use_of("a", vec![I0, I1]));
    assert!(matches!(m.get_value_by_range(USE), Some(Value::I32(0))));
}

#[test]
fn non_integer_index_is_reported() {
    let mut m = module_with(const_matrix());
    m.value_table.push((DECL, Value::Array(ArrayTree::Children(vec![]))));
    m.value_table.push((I0, Value::Bool(true)));
    m.value_table.push((I1, Value::I32(1)));
    m.leave_index_val(&use_of("a", vec![I0, I1]));
    assert!(matches!(&m.semantic_errors[0], AnalyzeError::TypeMismatch { expected: Ty::I32, found: Ty::Bool, range } if *range == I0));
    assert!(m.get_value_by_range(USE).is_none());
}

#[test]
fn too_many_indices_are_reported() {
    let mut m = module_with(Ty::I32);
    m.leave_index_val(&use_of("a", vec![I0]));
    assert!(matches!(&m.semantic_errors[0], AnalyzeError::ApplyOpOnType { op, range, .. } if op == "[]" && *range == USE));
    assert_eq!(m.reference.len(), 1);
}

#[test]
fn whole_const_array_decays_and_is_not_folded() {
    let mut m = module_with(Ty::Const(Box::new(Ty::Array(Box::new(Ty::I32), Some(2)))));
    m.value_table.push((DECL, Value::Array(ArrayTree::Children(vec![ArrayTree::Val(ArrayTreeValue::Expr(ELEM))]))));
    m.value_table.push((ELEM, Value::I32(5)));
    m.value_table.push((I0, Value::I32(0)));
    m.leave_index_val(&use_of("a", vec![I0]));
    assert!(matches!(m.get_expr_type(USE), Some(Ty::I32)));
    assert!(m.get_value_by_range(USE).is_none());
}

#[test]
fn zero_values() {
    assert!(matches!(Ty::U8.const_zero(), Some(Value::U8(0))));
    assert!(matches!(Ty::Bool.const_zero(), Some(Value::Bool(false))));
    assert!(matches!(Ty::Pointer { pointee: Box::new(Ty::I32), is_const: true }.const_zero(), Some(Value::Null)));
    assert!(matches!(Ty::Array(Box::new(Ty::I64), Some(3)).const_zero(), Some(Value::I64(0))));
    assert!(Ty::F32.const_zero().is_none());
}
