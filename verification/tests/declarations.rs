use airyc::array::{ArrayInitError, ArrayTree, ArrayTreeValue};
use airyc::decl::VarDefNode;
use airyc::error::AnalyzeError;
use airyc::init::InitValNode;
use airyc::module::{Module, TextRange};
use airyc::parser::Parser;
use airyc::typenode::{PrimitType, SizeExpr, TypeNode, TypeNodeKind};
use airyc::types::Ty;
use airyc::value::Value;

fn tr(start: u32, end: u32) -> TextRange {
    TextRange { start, end }
}

const NAME: TextRange = TextRange { start: 4, end: 5 };
const INIT: TextRange = TextRange { start: 8, end: 30 };

/// A module with a global scope that analysis is in; `local` opens a nested one.
fn module(local: bool) -> Module {
    let (tree, _) = Parser::new("").parse();
    let mut m = Module::new(tree);
    m.file_id = 0;
    let g = m.new_scope(None, tr(0, 100));
    m.global_scope = g;
    m.current_scope = g;
    if local {
        m.current_scope = m.new_scope(Some(g), tr(1, 99));
    }
    m
}

fn prim(p: PrimitType, is_const: bool) -> TypeNode {
    TypeNode { range: tr(0, 3), trimmed: tr(0, 3), is_const, kind: TypeNodeKind::Primitive(Some(p)) }
}

fn array_of(inner: TypeNode, size_at: u32) -> TypeNode {
    let r = tr(size_at, size_at + 1);
    TypeNode {
        range: tr(0, 10),
        trimmed: tr(0, 10),
        is_const: false,
        kind: TypeNodeKind::Array { inner: Some(Box::new(inner)), size: Some(SizeExpr { range: r, trimmed: r }) },
    }
}

fn expr_init(at: u32) -> InitValNode {
    InitValNode { range: tr(at, at + 1), trimmed: tr(at, at + 1), expr: Some(tr(at, at + 1)), inits: vec![] }
}

fn list(at: u32, inits: Vec<InitValNode>) -> InitValNode {
    InitValNode { range: tr(at, at + 20), trimmed: tr(at, at + 20), expr: None, inits }
}

/// Gives the expression at `at` the type `i32` and, when `value` is given, that constant value.
fn int_expr(m: &mut Module, at: u32, value: Option<i32>) {
    m.set_expr_type(tr(at, at + 1), Ty::I32);
    if let Some(v) = value {
        m.value_table.push((tr(at, at + 1), Value::I32(v)));
    }
}

fn def(name: &str, ty: TypeNode, init: Option<InitValNode>) -> VarDefNode {
    VarDefNode { name: Some((name.to_string(), NAME)), ty: Some(ty), init }
}

#[test]
fn plain_variable_is_declared() {
    let mut m = module(true);
    m.leave_var_def(&def("x", prim(PrimitType::I32, false), None));
    assert_eq!(m.variables.len(), 1);
    assert_eq!(m.variables[0].name, "x");
    assert!(matches!(m.variables[0].ty, Ty::I32));
    assert!(m.scopes[1].have_variable_def("x"));
    assert!(!m.scopes[0].have_variable_def("x"));
    assert!(m.get_varaible_by_range(NAME).is_some());
    assert!(m.semantic_errors.is_empty());
}

#[test]
fn duplicate_variable_is_reported() {
    let mut m = module(true);
    m.leave_var_def(&def("x", prim(PrimitType::I32, false), None));
    m.leave_var_def(&def("x", prim(PrimitType::I8, false), None));
    assert_eq!(m.variables.len(), 1);
    assert!(matches!(&m.semantic_errors[0], AnalyzeError::VariableDefined { name, range } if name == "x" && *range == NAME));
}

#[test]
fn constant_needs_an_initialiser_and_keeps_its_value() {
    let mut m = module(true);
    m.leave_var_def(&def("c", prim(PrimitType::I32, true), None));
    assert!(matches!(&m.semantic_errors[0], AnalyzeError::ExpectInitialVal { name, .. } if name == "c"));
    assert!(m.variables.is_empty());
    let mut m = module(true);
    int_expr(&mut m, 40, Some(5));
    m.leave_var_def(&def("c", prim(PrimitType::I32, true), Some(expr_init(40))));
    assert!(matches!(m.get_value_by_range(NAME), Some(Value::I32(5))));
    assert_eq!(m.variables.len(), 1);
}

#[test]
fn global_needs_a_constant_initialiser() {
    let mut m = module(false);
    int_expr(&mut m, 40, None);
    m.leave_var_def(&def("g", prim(PrimitType::I32, false), Some(expr_init(40))));
    assert!(matches!(&m.semantic_errors[0], AnalyzeError::ConstantExprExpected { range } if *range == tr(40, 41)));
    assert!(m.variables.is_empty());
    let mut m = module(true);
    int_expr(&mut m, 40, None);
    m.leave_var_def(&def("l", prim(PrimitType::I32, false), Some(expr_init(40))));
    assert!(m.semantic_errors.is_empty());
    assert_eq!(m.variables.len(), 1);
}

#[test]
fn array_initialiser_builds_a_tree() {
    let mut m = module(true);
    m.value_table.push((tr(60, 61), Value::I32(3)));
    int_expr(&mut m, 41, Some(1));
    int_expr(&mut m, 43, Some(2));
    let init = list(40, vec![expr_init(41), expr_init(43)]);
    m.leave_var_def(&def("a", array_of(prim(PrimitType::I32, false), 60), Some(init)));
    assert!(m.semantic_errors.is_empty());
    assert!(matches!(&m.variables[0].ty, Ty::Array(_, Some(3))));
    let tree = &m.expand_array[0].1;
    match tree {
        ArrayTree::Children(kids) => {
            assert_eq!(kids.len(), 2);
            assert!(matches!(kids[0], ArrayTree::Val(ArrayTreeValue::Expr(r)) if r == tr(41, 42)));
        }
        t => panic!("unexpected {:?}", t),
    }
    assert!(matches!(m.get_value_by_range(tr(40, 60)), Some(Value::Array(_))));
}

#[test]
fn braces_may_be_left_out_between_dimensions() {
    let mut m = module(true);
    m.value_table.push((tr(60, 61), Value::I32(2)));
    m.value_table.push((tr(62, 63), Value::I32(2)));
    for at in [41, 43, 45] {
        int_expr(&mut m, at, None);
    }
    let init = list(40, vec![expr_init(41), expr_init(43), expr_init(45)]);
    let ty = array_of(array_of(prim(PrimitType::I32, false), 62), 60);
    m.leave_var_def(&def("a", ty, Some(init)));
    assert!(m.semantic_errors.is_empty());
    match &m.expand_array[0].1 {
        ArrayTree::Children(rows) => {
            assert_eq!(rows.len(), 2);
            assert!(matches!(&rows[0], ArrayTree::Children(r) if r.len() == 2));
            assert!(matches!(&rows[1], ArrayTree::Children(r) if r.len() == 1));
        }
        t => panic!("unexpected {:?}", t),
    }
    assert!(m.get_value_by_range(tr(40, 60)).is_none());
}

#[test]
fn nested_braces_and_empty_rows() {
    let mut m = module(true);
    m.value_table.push((tr(60, 61), Value::I32(3)));
    m.value_table.push((tr(62, 63), Value::I32(2)));
    int_expr(&mut m, 71, Some(7));
    let init = list(40, vec![list(70, vec![expr_init(71)]), list(50, vec![])]);
    let ty = array_of(array_of(prim(PrimitType::I32, false), 62), 60);
    m.leave_var_def(&def("a", ty, Some(init)));
    assert!(m.semantic_errors.is_empty());
    match &m.expand_array[0].1 {
        ArrayTree::Children(rows) => {
            assert_eq!(rows.len(), 2);
            assert!(matches!(&rows[0], ArrayTree::Children(r) if r.len() == 1));
            assert!(matches!(&rows[1], ArrayTree::Val(ArrayTreeValue::Empty)));
        }
        t => panic!("unexpected {:?}", t),
    }
}

#[test]
fn array_element_of_wrong_type_is_reported() {
    let mut m = module(true);
    m.value_table.push((tr(60, 61), Value::I32(2)));
    m.set_expr_type(tr(41, 42), Ty::Void);
    let init = list(40, vec![expr_init(41)]);
    m.leave_var_def(&def("a", array_of(prim(PrimitType::I32, false), 60), Some(init)));
    match &m.semantic_errors[0] {
        AnalyzeError::ArrayError { message, range } => {
            assert!(matches!(**message, ArrayInitError::TypeMismatch { .. }));
            assert_eq!(*range, tr(40, 60));
        }
        e => panic!("unexpected {:?}", e),
    }
    assert!(m.variables.is_empty());
}

fn with_point(m: &mut Module) -> Ty {
    let x = m.new_field("x".to_string(), Ty::I32, tr(90, 91));
    let y = m.new_field("y".to_string(), Ty::I32, tr(92, 93));
    let id = m.new_struct("P".to_string(), vec![x, y], tr(89, 95));
    m.struct_map.push(("P".to_string(), id));
    Ty::Struct { id, name: "P".to_string() }
}

#[test]
fn struct_initialiser_gives_a_value() {
    let mut m = module(true);
    with_point(&mut m);
    int_expr(&mut m, 41, Some(1));
    int_expr(&mut m, 43, Some(2));
    let init = list(40, vec![expr_init(41), expr_init(43)]);
    m.leave_var_def(&def("p", prim(PrimitType::Struct(Some("P".to_string())), false), Some(init)));
    assert!(m.semantic_errors.is_empty());
    match m.get_value_by_range(tr(40, 60)) {
        Some(Value::Struct(_, vals)) => {
            assert_eq!(vals.len(), 2);
            assert!(matches!(vals[1], Value::I32(2)));
        }
        v => panic!("unexpected {:?}", v),
    }
}

#[test]
fn struct_initialiser_with_wrong_count_is_reported() {
    let mut m = module(true);
    with_point(&mut m);
    int_expr(&mut m, 41, Some(1));
    let init = list(40, vec![expr_init(41)]);
    m.leave_var_def(&def("p", prim(PrimitType::Struct(Some("P".to_string())), false), Some(init)));
    assert!(matches!(&m.semantic_errors[0], AnalyzeError::StructInitFieldCountMismatch { expected: 2, found: 1, .. }));
    assert!(m.variables.is_empty());
}

#[test]
fn struct_elements_of_an_array() {
    let mut m = module(true);
    let p = with_point(&mut m);
    let _ = p;
    m.value_table.push((tr(60, 61), Value::I32(2)));
    for (at, v) in [(71, 1), (73, 2)] {
        int_expr(&mut m, at, Some(v));
    }
    let init = list(40, vec![list(70, vec![expr_init(71), expr_init(73)])]);
    let ty = array_of(prim(PrimitType::Struct(Some("P".to_string())), false), 60);
    m.leave_var_def(&def("ps", ty, Some(init)));
    assert!(m.semantic_errors.is_empty());
    match &m.expand_array[0].1 {
        ArrayTree::Children(kids) => {
            assert_eq!(kids.len(), 1);
            assert!(matches!(kids[0], ArrayTree::Val(ArrayTreeValue::Struct { init_list, .. }) if init_list == tr(70, 90)));
        }
        t => panic!("unexpected {:?}", t),
    }
    assert!(matches!(m.get_value_by_range(tr(70, 90)), Some(Value::Struct(_, _))));
}
