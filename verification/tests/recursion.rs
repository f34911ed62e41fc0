use airyc::checker::RecursiveTypeChecker;
use airyc::error::AnalyzeError;
use airyc::module::{Module, StructID, TextRange};
use airyc::parser::Parser;
use airyc::types::Ty;

fn sid(index: u32) -> StructID {
    StructID { module: 1, index }
}

fn tr(start: u32, end: u32) -> TextRange {
    TextRange { start, end }
}

#[test]
fn tarjan_finds_cycles_and_self_loops() {
    let mut c = RecursiveTypeChecker::default();
    c.edge = vec![
        (sid(0), vec![sid(1)]),
        (sid(1), vec![sid(0)]),
        (sid(2), vec![sid(2)]),
        (sid(3), vec![sid(0)]),
    ];
    let sccs = c.tarjan();
    assert_eq!(sccs, vec![vec![sid(1), sid(0)], vec![sid(2)]]);
}

#[test]
fn tarjan_acyclic_graph_has_no_components() {
    let mut c = RecursiveTypeChecker::default();
    c.edge = vec![(sid(0), vec![sid(1), sid(2)]), (sid(1), vec![sid(2)])];
    assert!(c.tarjan().is_empty());
}

#[test]
fn tarjan_longer_cycle_and_reuse() {
    let mut c = RecursiveTypeChecker::default();
    c.edge = vec![(sid(0), vec![sid(1)]), (sid(1), vec![sid(2)]), (sid(2), vec![sid(0), sid(3)])];
    let sccs = c.tarjan();
    assert_eq!(sccs.len(), 1);
    let mut comp = sccs[0].clone();
    comp.sort_by_key(|s| s.index);
    assert_eq!(comp, vec![sid(0), sid(1), sid(2)]);
    assert_eq!(c.tarjan(), sccs);
}

fn project() -> Module {
    let (tree, _) = Parser::new("").parse();
    let mut m = Module::new(tree);
    m.file_id = 1;
    let fa = m.new_field("b".to_string(), Ty::Array(Box::new(Ty::Struct { id: sid(1), name: "B".to_string() }), Some(2)), tr(0, 1));
    let fb = m.new_field("a".to_string(), Ty::Const(Box::new(Ty::Struct { id: sid(0), name: "A".to_string() })), tr(2, 3));
    let fc = m.new_field("next".to_string(), Ty::Pointer { pointee: Box::new(Ty::Struct { id: sid(2), name: "C".to_string() }), is_const: false }, tr(4, 5));
    m.new_struct("A".to_string(), vec![fa], tr(10, 11));
    m.new_struct("B".to_string(), vec![fb], tr(20, 21));
    m.new_struct("C".to_string(), vec![fc], tr(30, 31));
    m
}

#[test]
fn build_graph_follows_values_not_pointers() {
    let modules = vec![project()];
    let mut c = RecursiveTypeChecker::default();
    c.build_graph(&modules);
    assert_eq!(c.edge, vec![(sid(0), vec![sid(1)]), (sid(1), vec![sid(0)])]);
}

#[test]
fn check_project_reports_each_struct_of_a_cycle() {
    let modules = vec![project()];
    let mut c = RecursiveTypeChecker::default();
    let errors = c.check_project(&modules);
    assert_eq!(errors.len(), 1);
    assert_eq!(errors[0].0, 1);
    let names: Vec<String> = errors[0]
        .1
        .iter()
        .map(|e| match e {
            AnalyzeError::RecursiveType { struct_name, cycle, range } => {
                assert_eq!(cycle, &vec!["B".to_string(), "A".to_string(), "B".to_string()]);
                assert!(*range == tr(10, 11) || *range == tr(20, 21));
                struct_name.clone()
            },
            _ => panic!("unexpected error"),
        })
        .collect();
    assert_eq!(names, vec!["B".to_string(), "A".to_string()]);
}

#[test]
fn check_project_without_cycles_is_quiet() {
    let (tree, _) = Parser::new("").parse();
    let mut m = Module::new(tree);
    m.file_id = 1;
    let f = m.new_field("x".to_string(), Ty::I32, tr(0, 1));
    m.new_struct("Plain".to_string(), vec![f], tr(0, 2));
    let mut c = RecursiveTypeChecker::default();
    assert!(c.check_project(&vec![m]).is_empty());
}

fn other_file() -> Module {
    let (tree, _) = Parser::new("").parse();
    let mut m = Module::new(tree);
    m.file_id = 2;
    m.new_struct("D".to_string(), vec![], tr(0, 9));
    m.new_reference(tr(40, 41), airyc::module::ReferenceTag::FieldRead(airyc::module::FieldID { module: 1, index: 0 }));
    m
}

#[test]
fn project_reports_cycles_and_shares_declarations() {
    let p = airyc::project::Project::new().with_checker();
    assert_eq!(p.checker_count(), 1);
    let mut p = p;
    p.attach_modules(vec![project(), other_file()]);
    assert_eq!(p.modules.len(), 2);
    let names: Vec<String> = p.modules[0]
        .semantic_errors
        .iter()
        .map(|e| match e {
            AnalyzeError::RecursiveType { struct_name, .. } => struct_name.clone(),
            _ => panic!("unexpected error"),
        })
        .collect();
    assert_eq!(names.len(), 2);
    assert!(names.contains(&"A".to_string()));
    assert!(names.contains(&"B".to_string()));
    assert!(p.modules[1].semantic_errors.is_empty());
    assert_eq!(p.metadata.len(), 2);
    assert_eq!(p.metadata[0].file_id, 1);
    assert_eq!(p.metadata[0].structs.len(), 3);
    assert_eq!(p.metadata[1].structs[0].name, "D");
    for m in &p.modules {
        let shared = m.metadata.as_ref().expect("tables shared");
        assert_eq!(shared.len(), 2);
        assert_eq!(shared[1].file_id, 2);
    }
    assert_eq!(p.citations.len(), 1);
    assert_eq!(p.citations[0].0, 1);
    assert_eq!(p.citations[0].1.field_reference[0].1[0].file_id, 2);
}

#[test]
fn project_without_checks_keeps_errors() {
    let mut p = airyc::project::Project::new();
    assert_eq!(p.checker_count(), 0);
    p.attach_modules(vec![project()]);
    assert!(p.modules[0].semantic_errors.is_empty());
    assert_eq!(p.metadata.len(), 1);
}

#[test]
fn struct_holding_itself_directly_is_reported() {
    let (tree, _) = Parser::new("").parse();
    let mut m = Module::new(tree);
    m.file_id = 1;
    let f = m.new_field("me".to_string(), Ty::Array(Box::new(Ty::Struct { id: sid(0), name: "S".to_string() }), Some(3)), tr(0, 1));
    m.new_struct("S".to_string(), vec![f], tr(5, 6));
    let mut c = RecursiveTypeChecker::default();
    let errors = c.check_project(&vec![m]);
    assert_eq!(errors.len(), 1);
    assert_eq!(errors[0].0, 1);
    assert_eq!(errors[0].1.len(), 1);
    match &errors[0].1[0] {
        AnalyzeError::RecursiveType { struct_name, range, .. } => {
            assert_eq!(struct_name, "S");
            assert_eq!(*range, tr(5, 6));
        }
        _ => panic!("unexpected error"),
    }
}
