use airyc::error::AnalyzeError;
use airyc::module::{Module, TextRange};
use airyc::parser::Parser;
use airyc::project::{FieldNode, StructDefNode};
use airyc::typenode::{PrimitType, SizeExpr, TypeNode, TypeNodeKind};
use airyc::types::Ty;
use airyc::value::Value;

fn tr(start: u32, end: u32) -> TextRange {
    TextRange { start, end }
}

fn module_with_struct() -> Module {
    let (tree, _) = Parser::new("").parse();
    let mut m = Module::new(tree);
    m.file_id = 0;
    let id = m.new_struct("S".to_string(), vec![], tr(0, 50));
    m.struct_map.push(("S".to_string(), id));
    m
}

fn prim(p: PrimitType) -> TypeNode {
    TypeNode { range: tr(0, 3), trimmed: tr(0, 3), is_const: false, kind: TypeNodeKind::Primitive(Some(p)) }
}

fn field(name: &str, at: u32, ty: TypeNode) -> FieldNode {
    FieldNode { name: Some((name.to_string(), tr(at, at + 1))), ty: Some(ty), range: tr(at, at + 5) }
}

fn def(fields: Vec<FieldNode>) -> StructDefNode {
    StructDefNode { name: Some(("S".to_string(), tr(7, 8))), fields }
}

#[test]
fn struct_gets_its_fields() {
    let mut m = module_with_struct();
    m.leave_struct_def(&def(vec![field("a", 10, prim(PrimitType::I32)), field("b", 20, prim(PrimitType::Bool))]));
    assert!(m.semantic_errors.is_empty());
    assert_eq!(m.fields.len(), 2);
    assert_eq!(m.structs[0].fields.len(), 2);
    assert_eq!(m.fields[1].name, "b");
    assert_eq!(m.fields[1].range, tr(20, 21));
}

#[test]
fn repeated_field_is_reported_and_left_out() {
    let mut m = module_with_struct();
    m.leave_struct_def(&def(vec![field("a", 10, prim(PrimitType::I32)), field("a", 20, prim(PrimitType::I8))]));
    assert!(matches!(&m.semantic_errors[0], AnalyzeError::VariableDefined { name, range } if name == "a" && *range == tr(20, 21)));
    assert_eq!(m.structs[0].fields.len(), 1);
}

#[test]
fn unreadable_field_type_stops_the_definition() {
    let mut m = module_with_struct();
    m.leave_struct_def(&def(vec![
        field("a", 10, prim(PrimitType::I32)),
        field("b", 20, prim(PrimitType::Struct(Some("Nope".to_string())))),
        field("c", 30, prim(PrimitType::I32)),
    ]));
    assert!(matches!(&m.semantic_errors[0], AnalyzeError::StructUndefined { name, .. } if name == "Nope"));
    assert_eq!(m.fields.len(), 1);
    assert!(m.structs[0].fields.is_empty());
}

#[test]
fn type_nodes_record_their_types() {
    let (tree, _) = Parser::new("").parse();
    let mut m = Module::new(tree);
    let inner = prim(PrimitType::I8);
    m.leave_type(&inner);
    assert!(matches!(m.get_expr_type(tr(0, 3)), Some(Ty::I8)));
    let size = SizeExpr { range: tr(5, 6), trimmed: tr(5, 6) };
    let arr = TypeNode {
        range: tr(0, 8),
        trimmed: tr(0, 8),
        is_const: false,
        kind: TypeNodeKind::Array { inner: Some(Box::new(prim(PrimitType::I8))), size: Some(size) },
    };
    m.leave_type(&arr);
    assert!(matches!(&m.semantic_errors[0], AnalyzeError::ConstantExprExpected { range } if *range == tr(5, 6)));
    m.value_table.push((tr(5, 6), Value::I32(4)));
    m.leave_type(&arr);
    assert!(matches!(m.get_expr_type(tr(0, 8)), Some(Ty::Array(t, Some(4))) if matches!(**t, Ty::I8)));
    let ptr = TypeNode {
        range: tr(0, 9),
        trimmed: tr(0, 9),
        is_const: false,
        kind: TypeNodeKind::Pointer { inner: Some(Box::new(prim(PrimitType::I8))), is_const: true },
    };
    m.leave_type(&ptr);
    assert!(matches!(m.get_expr_type(tr(0, 9)), Some(Ty::Pointer { is_const: true, .. })));
}

#[test]
fn entering_a_struct_declares_it_once() {
    let (tree, _) = Parser::new("").parse();
    let mut m = Module::new(tree);
    m.file_id = 3;
    m.enter_comp_unit(tr(0, 100));
    assert_eq!(m.global_scope, m.current_scope);
    assert_eq!(m.scopes.len(), 1);
    assert!(m.scopes[0].parent.is_none());

    m.enter_struct_def(&def(vec![]), tr(0, 40));
    assert!(m.semantic_errors.is_empty());
    assert_eq!(m.structs.len(), 1);
    assert_eq!(m.structs[0].name, "S");
    assert!(m.structs[0].fields.is_empty());
    assert_eq!(m.struct_map.len(), 1);
    assert_eq!(m.struct_map[0].0, "S");
    assert_eq!(m.struct_map[0].1.module, 3);
    assert_eq!(m.struct_map[0].1.index, 0);
    assert_eq!(m.scopes.len(), 2);
    assert_eq!(m.scopes[1].parent, Some(m.global_scope));
    assert_eq!(m.current_scope.0, 1);

    m.enter_struct_def(&def(vec![]), tr(50, 90));
    assert_eq!(m.structs.len(), 1);
    assert_eq!(m.scopes.len(), 2);
    assert_eq!(m.semantic_errors.len(), 1);
    assert!(matches!(&m.semantic_errors[0], AnalyzeError::StructDefined { name, range } if name == "S" && *range == tr(7, 8)));
}

#[test]
fn entering_an_unnamed_struct_changes_nothing() {
    let mut m = module_with_struct();
    m.enter_struct_def(&StructDefNode { name: None, fields: vec![] }, tr(0, 40));
    assert_eq!(m.structs.len(), 1);
    assert!(m.semantic_errors.is_empty());
    assert!(m.scopes.is_empty());
}

#[test]
fn struct_changed_in_place() {
    let mut m = module_with_struct();
    let id = m.struct_map[0].1;
    match m.get_struct_mut_by_id(id) {
        Some(s) => s.range = tr(1, 2),
        None => panic!("struct expected"),
    }
    assert_eq!(m.structs[0].range, tr(1, 2));
    let missing = airyc::module::StructID { module: 0, index: 5 };
    assert!(m.get_struct_mut_by_id(missing).is_none());
}

#[test]
fn function_changed_in_place() {
    let mut m = module_with_struct();
    let f = m.new_function("f".to_string(), vec![], vec![], Ty::Void, false, false, tr(5, 50));
    match m.get_function_mut_by_id(f) {
        Some(func) => func.have_impl = true,
        None => panic!("function expected"),
    }
    assert!(m.functions[0].have_impl);
    let missing = airyc::module::FunctionID { module: 0, index: 5 };
    assert!(m.get_function_mut_by_id(missing).is_none());
}
