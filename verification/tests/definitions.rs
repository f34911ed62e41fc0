use airyc::error::AnalyzeError;
use airyc::module::{Module, TextRange};
use airyc::parser::Parser;
use airyc::project::{FieldNode, FuncDefNode, ParamNode, Project, StructDefNode, TopItem};
use airyc::typenode::{is_invalid_void_usage, parse_type_node, PrimitType, SizeExpr, TypeNode, TypeNodeKind};
use airyc::types::Ty;
use airyc::value::Value;

fn tr(start: u32, end: u32) -> TextRange {
    TextRange { start, end }
}

fn module() -> Module {
    let (tree, _) = Parser::new("").parse();
    let mut m = Module::new(tree);
    m.file_id = 3;
    m
}

fn prim(p: PrimitType) -> TypeNode {
    TypeNode { range: tr(0, 3), trimmed: tr(0, 3), is_const: false, kind: TypeNodeKind::Primitive(Some(p)) }
}

fn const_prim(p: PrimitType) -> TypeNode {
    TypeNode { range: tr(0, 9), trimmed: tr(0, 9), is_const: true, kind: TypeNodeKind::Primitive(Some(p)) }
}

fn array(inner: TypeNode, size: Option<SizeExpr>) -> TypeNode {
    TypeNode {
        range: tr(0, 12),
        trimmed: tr(0, 12),
        is_const: false,
        kind: TypeNodeKind::Array { inner: Some(Box::new(inner)), size },
    }
}

fn pointer(inner: TypeNode, is_const: bool) -> TypeNode {
    TypeNode {
        range: tr(0, 5),
        trimmed: tr(0, 5),
        is_const: false,
        kind: TypeNodeKind::Pointer { inner: Some(Box::new(inner)), is_const },
    }
}

const SIZE: SizeExpr = SizeExpr { range: TextRange { start: 7, end: 10 }, trimmed: TextRange { start: 8, end: 10 } };

#[test]
fn primitive_types() {
    let m = module();
    assert!(matches!(parse_type_node(&m, &prim(PrimitType::I32), None), Ok(Some(Ty::I32))));
    assert!(matches!(parse_type_node(&m, &prim(PrimitType::I8), None), Ok(Some(Ty::I8))));
    assert!(matches!(parse_type_node(&m, &prim(PrimitType::Bool), None), Ok(Some(Ty::Bool))));
    assert!(matches!(parse_type_node(&m, &prim(PrimitType::Void), None), Ok(Some(Ty::Void))));
    match parse_type_node(&m, &const_prim(PrimitType::I32), None) {
        Ok(Some(Ty::Const(inner))) => assert!(matches!(*inner, Ty::I32)),
        r => panic!("unexpected {:?}", r),
    }
    assert!(matches!(parse_type_node(&m, &prim(PrimitType::Unknown), None), Ok(None)));
    assert!(matches!(parse_type_node(&m, &prim(PrimitType::Struct(None)), None), Ok(None)));
}

#[test]
fn struct_types_need_a_definition() {
    let mut m = module();
    let id = m.new_struct("P".to_string(), vec![], tr(0, 1));
    m.struct_map.push(("P".to_string(), id));
    match parse_type_node(&m, &prim(PrimitType::Struct(Some("P".to_string()))), None) {
        Ok(Some(Ty::Struct { id: got, name })) => {
            assert_eq!(got, id);
            assert_eq!(name, "P");
        }
        r => panic!("unexpected {:?}", r),
    }
    match parse_type_node(&m, &prim(PrimitType::Struct(Some("Q".to_string()))), None) {
        Err(AnalyzeError::StructUndefined { name, range }) => {
            assert_eq!(name, "Q");
            assert_eq!(range, tr(0, 3));
        }
        r => panic!("unexpected {:?}", r),
    }
}

#[test]
fn array_lengths_come_from_constants() {
    let m = module();
    let node = array(prim(PrimitType::I32), Some(SIZE));
    match parse_type_node(&m, &node, None) {
        Ok(Some(Ty::Array(inner, None))) => assert!(matches!(*inner, Ty::I32)),
        r => panic!("unexpected {:?}", r),
    }
    let table = vec![(SIZE.range, Value::I32(4))];
    assert!(matches!(parse_type_node(&m, &node, Some(&table)), Ok(Some(Ty::Array(_, Some(4))))));
    let table = vec![(SIZE.range, Value::I8(-2))];
    assert!(matches!(parse_type_node(&m, &node, Some(&table)), Ok(Some(Ty::Array(_, Some(-2))))));
    let table = vec![(SIZE.range, Value::Bool(true))];
    match parse_type_node(&m, &node, Some(&table)) {
        Err(AnalyzeError::TypeMismatch { expected, found, range }) => {
            assert!(matches!(expected, Ty::Const(ref t) if matches!(**t, Ty::I32)));
            assert!(matches!(found, Ty::Bool));
            assert_eq!(range, SIZE.trimmed);
        }
        r => panic!("unexpected {:?}", r),
    }
    let table: Vec<(TextRange, Value)> = vec![];
    match parse_type_node(&m, &node, Some(&table)) {
        Err(AnalyzeError::ConstantExprExpected { range }) => assert_eq!(range, SIZE.trimmed),
        r => panic!("unexpected {:?}", r),
    }
}

#[test]
fn array_of_void_is_refused() {
    let m = module();
    let node = array(prim(PrimitType::Void), None);
    match parse_type_node(&m, &node, None) {
        Err(AnalyzeError::InvalidVoidUsage { range }) => assert_eq!(range, tr(0, 3)),
        r => panic!("unexpected {:?}", r),
    }
    assert!(is_invalid_void_usage(&Ty::Void));
    assert!(is_invalid_void_usage(&Ty::Const(Box::new(Ty::Void))));
    assert!(!is_invalid_void_usage(&Ty::I32));
}

#[test]
fn pointer_types() {
    let m = module();
    match parse_type_node(&m, &pointer(prim(PrimitType::I8), true), None) {
        Ok(Some(Ty::Pointer { pointee, is_const })) => {
            assert!(matches!(*pointee, Ty::I8));
            assert!(is_const);
        }
        r => panic!("unexpected {:?}", r),
    }
    let incomplete = TypeNode {
        range: tr(0, 1),
        trimmed: tr(0, 1),
        is_const: false,
        kind: TypeNodeKind::Pointer { inner: None, is_const: false },
    };
    assert!(matches!(parse_type_node(&m, &incomplete, None), Ok(None)));
}

#[test]
fn indexing_strips_levels_and_decays() {
    let arr2 = Ty::Array(Box::new(Ty::Array(Box::new(Ty::I32), Some(2))), Some(3));
    assert!(matches!(Module::compute_indexed_type(&arr2, 2, tr(0, 1)), Ok(Ty::I32)));
    match Module::compute_indexed_type(&arr2, 1, tr(0, 1)) {
        Ok(Ty::Pointer { pointee, is_const }) => {
            assert!(matches!(*pointee, Ty::I32));
            assert!(is_const);
        }
        r => panic!("unexpected {:?}", r),
    }
    let ptr = Ty::Pointer { pointee: Box::new(Ty::I8), is_const: false };
    assert!(matches!(Module::compute_indexed_type(&ptr, 1, tr(0, 1)), Ok(Ty::I8)));
    match Module::compute_indexed_type(&Ty::I32, 1, tr(4, 6)) {
        Err(AnalyzeError::ApplyOpOnType { ty, op, range }) => {
            assert!(matches!(ty, Ty::I32));
            assert_eq!(op, "[]");
            assert_eq!(range, tr(4, 6));
        }
        r => panic!("unexpected {:?}", r),
    }
    let c = Ty::Const(Box::new(Ty::Array(Box::new(Ty::Bool), Some(2))));
    assert!(matches!(Module::compute_indexed_type(&c, 1, tr(0, 1)), Ok(Ty::Bool)));
    assert!(matches!(Module::compute_indexed_type(&Ty::I32, 0, tr(0, 1)), Ok(Ty::I32)));
}

fn func(name: &str, at: u32, params: Option<Vec<ParamNode>>, ret: Option<TypeNode>) -> TopItem {
    TopItem::FuncDef(FuncDefNode { name: Some((name.to_string(), tr(at, at + 1))), params, ret_type: ret })
}

fn strukt(name: &str, at: u32, fields: Vec<FieldNode>) -> TopItem {
    TopItem::StructDef(StructDefNode { name: Some((name.to_string(), tr(at, at + 1))), fields })
}

fn field(name: &str, ty: TypeNode, at: u32) -> FieldNode {
    FieldNode { name: Some((name.to_string(), tr(at, at + 1))), ty: Some(ty), range: tr(at, at + 2) }
}

fn param(name: &str, ty: TypeNode) -> ParamNode {
    ParamNode { is_variadic: false, name: Some(name.to_string()), ty: Some(ty) }
}

#[test]
fn allocation_gives_ids_and_reports_duplicates() {
    let mut m = module();
    let items = vec![
        func("main", 1, None, None),
        strukt("P", 5, vec![]),
        func("main", 9, None, None),
        strukt("P", 12, vec![]),
        TopItem::Other,
        func("f", 20, None, None),
    ];
    Project::allocate_module_symbols(&mut m, &items);
    assert_eq!(m.functions.len(), 2);
    assert_eq!(m.structs.len(), 1);
    assert_eq!(m.functions[0].name, "main");
    assert_eq!(m.functions[1].name, "f");
    assert!(matches!(m.functions[1].ret_type, Ty::Void));
    let main = m.get_function_id_by_name("main").unwrap();
    assert_eq!((main.module, main.index), (3, 0));
    assert_eq!(m.get_function_id_by_name("f").unwrap().index, 1);
    assert_eq!(m.get_struct_id_by_name("P").unwrap().index, 0);
    assert_eq!(m.semantic_errors.len(), 2);
    assert!(matches!(&m.semantic_errors[0], AnalyzeError::FunctionDefined { name, range } if name == "main" && *range == tr(9, 10)));
    assert!(matches!(&m.semantic_errors[1], AnalyzeError::StructDefined { name, range } if name == "P" && *range == tr(12, 13)));
}

#[test]
fn filling_sets_fields_and_signatures() {
    let mut m = module();
    let items = vec![
        strukt("P", 0, vec![field("x", prim(PrimitType::I32), 2), field("bad", prim(PrimitType::Struct(Some("Nope".to_string()))), 4), field("next", pointer(prim(PrimitType::Struct(Some("P".to_string()))), false), 6)]),
        func(
            "printf",
            10,
            Some(vec![
                param("fmt", pointer(prim(PrimitType::I8), true)),
                ParamNode { is_variadic: true, name: None, ty: None },
                param("never", prim(PrimitType::Bool)),
            ]),
            Some(prim(PrimitType::I32)),
        ),
        func("g", 20, Some(vec![param("a", prim(PrimitType::Bool))]), None),
        func("h", 30, None, Some(prim(PrimitType::Struct(Some("Missing".to_string()))))),
    ];
    Project::allocate_module_symbols(&mut m, &items);
    Project::fill_definitions(&mut m, &items);
    assert_eq!(m.fields.len(), 2);
    assert_eq!(m.fields[0].name, "x");
    assert_eq!(m.fields[1].name, "next");
    assert_eq!(m.structs[0].fields.len(), 2);
    assert_eq!(m.structs[0].fields[1].index, 1);
    let printf = &m.functions[0];
    assert!(printf.is_variadic);
    assert_eq!(printf.meta_types.len(), 1);
    assert_eq!(printf.meta_types[0].0, "fmt");
    assert!(matches!(printf.ret_type, Ty::I32));
    let g = &m.functions[1];
    assert!(!g.is_variadic);
    assert!(matches!(g.meta_types[0], (ref n, Ty::Bool) if n == "a"));
    assert!(matches!(g.ret_type, Ty::Void));
    assert!(matches!(m.functions[2].ret_type, Ty::Void));
    assert_eq!(m.semantic_errors.len(), 2);
    assert!(matches!(&m.semantic_errors[0], AnalyzeError::StructUndefined { name, .. } if name == "Nope"));
    assert!(matches!(&m.semantic_errors[1], AnalyzeError::StructUndefined { name, .. } if name == "Missing"));
}

#[test]
fn incomplete_return_type_leaves_signature() {
    let mut m = module();
    let incomplete = TypeNode { range: tr(0, 1), trimmed: tr(0, 1), is_const: false, kind: TypeNodeKind::Primitive(None) };
    let items = vec![func("k", 0, Some(vec![param("a", prim(PrimitType::I8))]), Some(incomplete))];
    Project::allocate_module_symbols(&mut m, &items);
    Project::fill_definitions(&mut m, &items);
    assert!(m.functions[0].meta_types.is_empty());
    assert!(matches!(m.functions[0].ret_type, Ty::Void));
}
