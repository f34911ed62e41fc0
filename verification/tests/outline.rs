use airyc::module::{Module, TextRange, Variable, VariableID, ScopeID, Scope, FieldID};
use airyc::outline::{compute_document_symbols, OutlineKind};
use airyc::parser::Parser;
use airyc::types::Ty;
use airyc::tytext::i32_text;

fn tr(start: u32, end: u32) -> TextRange {
    TextRange { start, end }
}

fn module() -> Module {
    let (tree, _) = Parser::new("").parse();
    let mut m = Module::new(tree);
    m.file_id = 0;
    m
}

#[test]
fn types_are_written_as_in_source() {
    assert_eq!(Ty::I32.to_string(), "i32");
    assert_eq!(Ty::Bool.to_string(), "bool");
    assert_eq!(Ty::Void.to_string(), "void");
    assert_eq!(Ty::Array(Box::new(Ty::I8), Some(4)).to_string(), "[i8; 4]");
    assert_eq!(Ty::Array(Box::new(Ty::I8), Some(-3)).to_string(), "[i8; -3]");
    assert_eq!(Ty::Array(Box::new(Ty::I32), None).to_string(), "[i32; ?]");
    assert_eq!(Ty::Pointer { pointee: Box::new(Ty::U8), is_const: true }.to_string(), "*const u8");
    assert_eq!(Ty::Pointer { pointee: Box::new(Ty::Void), is_const: false }.to_string(), "*mut void");
    assert_eq!(Ty::Const(Box::new(Ty::I64)).to_string(), "const i64");
    let s = Ty::Struct { id: airyc::module::StructID { module: 0, index: 0 }, name: "P".to_string() };
    assert_eq!(s.to_string(), "struct P");
    assert_eq!(i32_text(i32::MIN), "-2147483648");
    assert_eq!(i32_text(0), "0");
}

#[test]
fn outline_lists_globals_functions_and_structs() {
    let mut m = module();
    m.variables.push(Variable { name: "N".to_string(), ty: Ty::Const(Box::new(Ty::I32)), range: tr(0, 5) });
    m.variables.push(Variable { name: "v".to_string(), ty: Ty::I8, range: tr(6, 9) });
    m.scopes.push(Scope {
        parent: None,
        variables: vec![("N".to_string(), VariableID(0)), ("v".to_string(), VariableID(1)), ("ghost".to_string(), VariableID(7))],
        range: tr(0, 100),
    });
    m.global_scope = ScopeID(0);
    m.new_function(
        "add".to_string(),
        vec![],
        vec![("a".to_string(), Ty::I32), ("b".to_string(), Ty::I32)],
        Ty::I32,
        true,
        false,
        tr(10, 30),
    );
    m.new_function("main".to_string(), vec![], vec![], Ty::Void, true, false, tr(31, 40));
    let f = m.new_field("x".to_string(), Ty::I32, tr(45, 50));
    m.new_struct("P".to_string(), vec![f, FieldID { module: 0, index: 9 }], tr(41, 60));
    m.new_struct("E".to_string(), vec![], tr(61, 70));
    let out = compute_document_symbols(&m);
    assert_eq!(out.len(), 6);
    assert_eq!(out[0].name, "N");
    assert_eq!(out[0].kind, OutlineKind::Constant);
    assert_eq!(out[0].detail.as_deref(), Some("const i32"));
    assert_eq!(out[1].kind, OutlineKind::Variable);
    assert_eq!(out[1].range, tr(6, 9));
    assert_eq!(out[2].detail.as_deref(), Some("fn add(a: i32, b: i32) -> i32"));
    assert_eq!(out[2].kind, OutlineKind::Function);
    assert_eq!(out[3].detail.as_deref(), Some("fn main() -> void"));
    assert_eq!(out[4].name, "P");
    assert_eq!(out[4].kind, OutlineKind::Struct);
    assert!(out[4].detail.is_none());
    let children = out[4].children.as_ref().unwrap();
    assert_eq!(children.len(), 1);
    assert_eq!(children[0].name, "x");
    assert_eq!(children[0].kind, OutlineKind::Field);
    assert_eq!(children[0].detail.as_deref(), Some("i32"));
    assert!(out[5].children.is_none());
}

#[test]
fn empty_module_has_empty_outline() {
    assert!(compute_document_symbols(&module()).is_empty());
}

use airyc::outline::{contains_chars, search_workspace_symbols};

fn chars(s: &str) -> Vec<char> {
    s.chars().collect()
}

#[test]
fn substring_search() {
    assert!(contains_chars(&chars("hello"), &chars("ell")));
    assert!(contains_chars(&chars("hello"), &chars("")));
    assert!(contains_chars(&chars("hello"), &chars("hello")));
    assert!(!contains_chars(&chars("hello"), &chars("hellos")));
    assert!(!contains_chars(&chars("hello"), &chars("lo!")));
    assert!(contains_chars(&chars("abab"), &chars("bab")));
}

#[test]
fn workspace_search_matches_names_ignoring_case() {
    let mut a = module();
    a.file_id = 1;
    a.new_function("ReadInput".to_string(), vec![], vec![], Ty::Void, true, false, tr(0, 5));
    a.new_function("write".to_string(), vec![], vec![], Ty::Void, true, false, tr(6, 9));
    a.new_struct("Reader".to_string(), vec![], tr(10, 20));
    let mut b = module();
    b.file_id = 2;
    b.variables.push(Variable { name: "readme".to_string(), ty: Ty::I32, range: tr(0, 6) });
    b.scopes.push(Scope { parent: None, variables: vec![("readme".to_string(), VariableID(0))], range: tr(0, 50) });
    b.global_scope = ScopeID(0);
    let modules = vec![a, b];
    let found = search_workspace_symbols("READ", &modules, &vec![1, 2]);
    let names: Vec<&str> = found.iter().map(|w| w.name.as_str()).collect();
    assert_eq!(names, vec!["ReadInput", "Reader", "readme"]);
    assert_eq!(found[2].file_id, 2);
    assert_eq!(found[2].kind, OutlineKind::Variable);
    assert_eq!(found[1].kind, OutlineKind::Struct);
    let only_b = search_workspace_symbols("READ", &modules, &vec![2]);
    let names: Vec<&str> = only_b.iter().map(|w| w.name.as_str()).collect();
    assert_eq!(names, vec!["readme"]);
    assert!(search_workspace_symbols("READ", &modules, &vec![]).is_empty());
}

#[test]
fn empty_query_finds_everything() {
    let mut a = module();
    a.new_function("f".to_string(), vec![], vec![], Ty::Void, true, false, tr(0, 5));
    a.new_struct("S".to_string(), vec![], tr(10, 20));
    let file = a.file_id;
    assert_eq!(search_workspace_symbols("", &vec![a], &vec![file]).len(), 2);
}

#[test]
fn keywords_offered_for_completion() {
    let items = airyc::outline::complete_keywords();
    assert_eq!(items.len(), 15);
    assert_eq!(items[0].label, "i32");
    assert_eq!(items[0].detail, "32bit integer type");
    assert_eq!(items[3].label, "if");
    assert_eq!(items[14].label, "attach");
    assert_eq!(items[14].detail, "函数附加");
    let labels: Vec<&str> = items.iter().map(|k| k.label.as_str()).collect();
    assert!(labels.contains(&"struct"));
    assert!(labels.contains(&"while"));
}
