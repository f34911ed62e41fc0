use airyc::error::AnalyzeError;
use airyc::header::{HeaderAnalyzer, ImportInfo, ModuleImports};
use airyc::module::{
    FieldID, FunctionID, Module, ReferenceTag, Scope, ScopeID, StructID, TextRange, ThinModule,
    VariableID,
};
use airyc::parser::Parser;
use airyc::types::Ty;

fn tr(start: u32, end: u32) -> TextRange {
    TextRange { start, end }
}

fn module(file: u32) -> Module {
    let (tree, _) = Parser::new("int a;").parse();
    let mut m = Module::new(tree);
    m.file_id = file;
    m
}

#[test]
fn module_starts_empty() {
    let m = module(3);
    assert!(m.structs.is_empty() && m.functions.is_empty() && m.scopes.is_empty());
    assert_eq!(format!("{}", m.get_green_tree()), "int a;");
    assert!(m.metadata.is_none());
}

#[test]
fn scopes_resolve_outward() {
    let mut m = module(1);
    let global = m.new_scope(None, tr(0, 100));
    let inner = m.new_scope(Some(global), tr(10, 50));
    let innermost = m.new_scope(Some(inner), tr(20, 30));
    assert_eq!((global, inner, innermost), (ScopeID(0), ScopeID(1), ScopeID(2)));

    let x_outer = m.scopes[0].new_variable(&mut m.variables, &mut m.variable_map, "x".to_string(), Ty::I32, tr(1, 2));
    let y = m.scopes[1].new_variable(&mut m.variables, &mut m.variable_map, "y".to_string(), Ty::Const(Box::new(Ty::I8)), tr(11, 12));
    let x_inner = m.scopes[2].new_variable(&mut m.variables, &mut m.variable_map, "x".to_string(), Ty::Bool, tr(21, 22));
    assert_eq!((x_outer, y, x_inner), (VariableID(0), VariableID(1), VariableID(2)));

    assert_eq!(m.scopes[2].look_up_variable(&m, "x"), Some(x_inner));
    assert_eq!(m.scopes[2].look_up_variable(&m, "y"), Some(y));
    assert_eq!(m.scopes[1].look_up_variable(&m, "x"), Some(x_outer));
    assert_eq!(m.scopes[0].look_up_variable(&m, "y"), None);
    assert!(m.scopes[1].have_variable_def("y"));
    assert!(!m.scopes[1].have_variable_def("x"));

    m.current_scope = innermost;
    assert_eq!(m.find_variable_def("y"), Some(y));
    m.current_scope = ScopeID(99);
    assert_eq!(m.find_variable_def("y"), None);

    assert!(m.get_varaible_by_range(tr(11, 12)).unwrap().is_const());
    assert!(!m.get_variable_by_id(x_outer).unwrap().is_const());
    assert!(m.get_varaible_by_id(VariableID(5)).is_none());
    assert_eq!(m.index.scope_tree.len(), 2);
}

#[test]
fn redeclaring_a_name_rebinds_it() {
    let mut m = module(1);
    m.new_scope(None, tr(0, 10));
    let a = m.scopes[0].new_variable(&mut m.variables, &mut m.variable_map, "v".to_string(), Ty::I32, tr(0, 1));
    let b = m.scopes[0].new_variable(&mut m.variables, &mut m.variable_map, "v".to_string(), Ty::I64, tr(0, 1));
    assert_ne!(a, b);
    assert_eq!(m.scopes[0].look_up_variable(&m, "v"), Some(b));
    assert_eq!(m.scopes[0].variables.len(), 1);
    assert_eq!(m.variable_map.len(), 1);
}

#[test]
fn struct_fields_by_name() {
    let mut m = module(4);
    let fx = m.new_field("x".to_string(), Ty::I32, tr(0, 1));
    let fy = m.new_field("y".to_string(), Ty::I64, tr(2, 3));
    assert_eq!(fx, FieldID { module: 4, index: 0 });
    let sid = m.new_struct("P".to_string(), vec![fx, fy], tr(0, 10));
    assert_eq!(sid, StructID { module: 4, index: 0 });
    let s = m.get_struct_by_id(sid).unwrap();
    assert_eq!(s.field_index(&m, "y"), Some(1));
    assert_eq!(s.field_index(&m, "z"), None);
    assert_eq!(s.field(&m, "x"), Some(fx));
    assert_eq!(s.field_at(1), Some(fy));
    assert_eq!(s.field_at(2), None);
    assert_eq!(m.get_field_by_id(fy).unwrap().ty, Ty::I64);
    assert!(m.get_struct_by_id(StructID { module: 4, index: 3 }).is_none());
}

#[test]
fn other_files_through_shared_tables() {
    let mut other = module(9);
    let f = other.new_field("n".to_string(), Ty::U8, tr(0, 1));
    let s = other.new_struct("Remote".to_string(), vec![f], tr(0, 5));
    let g = other.new_function("go".to_string(), vec![], vec![("x".to_string(), Ty::I32)], Ty::Void, true, false, tr(6, 9));
    let mut m = module(1);
    assert!(m.get_struct_by_id(s).is_none());
    m.metadata = Some(vec![ThinModule::new(&other)]);
    assert_eq!(m.get_struct_by_id(s).unwrap().name, "Remote");
    assert_eq!(m.get_field_by_id(f).unwrap().name, "n");
    let func = m.get_function_by_id(g).unwrap();
    assert_eq!(func.name, "go");
    assert_eq!(func.meta_types, vec![("x".to_string(), Ty::I32)]);
    assert!(m.get_function_by_id(FunctionID { module: 8, index: 0 }).is_none());
}

#[test]
fn references_are_indexed() {
    let mut m = module(1);
    let f = FunctionID { module: 1, index: 0 };
    m.new_reference(tr(5, 6), ReferenceTag::VarRead(VariableID(0)));
    m.new_reference(tr(8, 9), ReferenceTag::FuncCall(f));
    m.new_reference(tr(10, 11), ReferenceTag::VarRead(VariableID(0)));
    assert_eq!(m.reference.len(), 3);
    assert_eq!(m.get_reference_by_range(tr(8, 9)).unwrap().tag, ReferenceTag::FuncCall(f));
    assert!(m.get_reference_by_range(tr(0, 1)).is_none());
    assert_eq!(m.index.variable_reference.len(), 1);
    assert_eq!(m.index.variable_reference[0].1.len(), 2);
    assert_eq!(m.index.function_reference[0].1.len(), 1);
}

#[test]
fn expression_tables() {
    let mut m = module(1);
    m.set_expr_type(tr(1, 2), Ty::I32);
    m.set_expr_type(tr(1, 2), Ty::Bool);
    assert_eq!(m.get_expr_type(tr(1, 2)), Some(&Ty::Bool));
    assert_eq!(m.get_expr_type(tr(3, 4)), None);
    assert!(!m.is_compile_time_constant(tr(1, 2)));
    m.new_error(AnalyzeError::BreakOutsideLoop { range: tr(4, 9) });
    assert_eq!(*m.semantic_errors[0].range(), tr(4, 9));
}

#[test]
fn import_a_named_symbol() {
    let mut lib = module(2);
    lib.function_map.push(("helper".to_string(), FunctionID { module: 2, index: 0 }));
    lib.struct_map.push(("Point".to_string(), StructID { module: 2, index: 0 }));
    let f = HeaderAnalyzer::collect_specific_symbol(&lib, "helper", tr(0, 4)).unwrap();
    assert_eq!(f.functions, vec![("helper".to_string(), FunctionID { module: 2, index: 0 })]);
    assert!(f.structs.is_empty());
    let s = HeaderAnalyzer::collect_specific_symbol(&lib, "Point", tr(0, 4)).unwrap();
    assert_eq!(s.structs.len(), 1);
    match HeaderAnalyzer::collect_specific_symbol(&lib, "missing", tr(0, 4)) {
        Err(AnalyzeError::ImportSymbolNotFound { symbol, module_name, range }) => {
            assert_eq!(symbol, "missing");
            assert_eq!(module_name, "2");
            assert_eq!(range, tr(0, 4));
        },
        _ => panic!("expected an error"),
    }
    let all = HeaderAnalyzer::collect_all_symbols(&lib).unwrap();
    assert_eq!(all.functions.len() + all.structs.len(), 2);
}

#[test]
fn import_from_a_file() {
    let lib = module(2);
    let modules = vec![module(1), lib];
    assert!(HeaderAnalyzer::collect_import_info(2, None, tr(0, 1), &modules).is_ok());
    match HeaderAnalyzer::collect_import_info(5, Some("x"), tr(0, 1), &modules) {
        Err(AnalyzeError::ImportPathNotFound { path, .. }) => assert_eq!(path, "5"),
        _ => panic!("expected an error"),
    }
}

#[test]
fn applying_imports_reports_conflicts() {
    let mut m = module(1);
    m.function_map.push(("main".to_string(), FunctionID { module: 1, index: 0 }));
    let ok = ImportInfo {
        functions: vec![("helper".to_string(), FunctionID { module: 2, index: 0 })],
        structs: vec![("Point".to_string(), StructID { module: 2, index: 0 })],
    };
    let clash = ImportInfo {
        functions: vec![("other".to_string(), FunctionID { module: 3, index: 1 }), ("main".to_string(), FunctionID { module: 3, index: 0 })],
        structs: vec![],
    };
    let imports = ModuleImports {
        file_id: 1,
        imports: vec![(ok, tr(0, 5)), (clash, tr(6, 9))],
        errors: vec![AnalyzeError::CircularDependency { range: tr(0, 0) }],
    };
    HeaderAnalyzer::apply_module_imports(&mut m, imports);
    assert_eq!(m.get_function_id_by_name("helper"), Some(FunctionID { module: 2, index: 0 }));
    assert_eq!(m.get_function_id_by_name("main"), Some(FunctionID { module: 1, index: 0 }));
    assert_eq!(m.get_function_id_by_name("other"), Some(FunctionID { module: 3, index: 1 }));
    assert_eq!(m.get_struct_id_by_name("Point"), Some(StructID { module: 2, index: 0 }));
    assert_eq!(m.semantic_errors.len(), 2);
    assert!(matches!(m.semantic_errors[0], AnalyzeError::CircularDependency { .. }));
    match &m.semantic_errors[1] {
        AnalyzeError::ImportSymbolConflict { symbol, range } => {
            assert_eq!(symbol, "main");
            assert_eq!(*range, tr(6, 9));
        },
        _ => panic!("expected a conflict"),
    }
}

#[test]
fn scope_without_table_entry() {
    let s = Scope { parent: None, variables: vec![("q".to_string(), VariableID(4))], range: tr(0, 1) };
    let m = module(1);
    assert_eq!(s.look_up_variable(&m, "q"), Some(VariableID(4)));
    assert_eq!(s.look_up_variable(&m, "r"), None);
}

#[test]
fn scopes_resolve_through_a_parent_defined_later() {
    let mut m = module(1);
    let first = m.new_scope(None, tr(0, 10));
    let outer = m.new_scope(None, tr(0, 100));
    m.scopes[0].parent = Some(outer);
    let x = m.scopes[1].new_variable(&mut m.variables, &mut m.variable_map, "x".to_string(), Ty::I32, tr(1, 2));
    assert_eq!(first, ScopeID(0));
    assert_eq!(m.scopes[0].look_up_variable(&m, "x"), Some(x));
    assert_eq!(m.scopes[0].look_up_variable(&m, "z"), None);
}
