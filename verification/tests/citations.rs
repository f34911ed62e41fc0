use airyc::module::{FieldID, FunctionID, Module, ReferenceTag, TextRange, VariableID};
use airyc::parser::Parser;
use airyc::project::{index_references, CiterInfo, FileIndex};

fn tr(start: u32, end: u32) -> TextRange {
    TextRange { start, end }
}

fn module(file_id: u32, refs: &[(ReferenceTag, TextRange)]) -> Module {
    let (tree, _) = Parser::new("").parse();
    let mut m = Module::new(tree);
    m.file_id = file_id;
    for (tag, range) in refs {
        m.new_reference(*range, *tag);
    }
    m
}

fn index_of(entries: &[(u32, FileIndex)], file: u32) -> &FileIndex {
    &entries.iter().find(|e| e.0 == file).expect("file indexed").1
}

fn cite(file_id: u32, start: u32, end: u32) -> CiterInfo {
    CiterInfo { file_id, range: tr(start, end) }
}

#[test]
fn citations_gathered_across_files() {
    let callee = FunctionID { module: 1, index: 0 };
    let field = FieldID { module: 0, index: 2 };
    let a = module(0, &[
        (ReferenceTag::VarRead(VariableID(0)), tr(1, 2)),
        (ReferenceTag::FuncCall(callee), tr(3, 4)),
    ]);
    let b = module(1, &[
        (ReferenceTag::FuncCall(callee), tr(5, 6)),
        (ReferenceTag::FieldRead(field), tr(7, 8)),
        (ReferenceTag::VarRead(VariableID(0)), tr(9, 10)),
    ]);
    let entries = index_references(&vec![a, b]);
    assert_eq!(entries.len(), 2);
    assert_eq!(entries[0].0, 0);
    assert_eq!(entries[1].0, 1);

    let f0 = index_of(&entries, 0);
    assert_eq!(f0.variable_reference.len(), 1);
    assert_eq!(f0.variable_reference[0].0, VariableID(0));
    assert_eq!(f0.variable_reference[0].1, vec![cite(0, 1, 2)]);
    assert_eq!(f0.field_reference.len(), 1);
    assert_eq!(f0.field_reference[0].0, field);
    assert_eq!(f0.field_reference[0].1, vec![cite(1, 7, 8)]);
    assert!(f0.function_reference.is_empty());

    let f1 = index_of(&entries, 1);
    assert_eq!(f1.function_reference.len(), 1);
    assert_eq!(f1.function_reference[0].0, callee);
    assert_eq!(f1.function_reference[0].1, vec![cite(0, 3, 4), cite(1, 5, 6)]);
    assert_eq!(f1.variable_reference[0].1, vec![cite(1, 9, 10)]);
    assert!(f1.field_reference.is_empty());
}

#[test]
fn no_references_no_index() {
    let a = module(0, &[]);
    let entries = index_references(&vec![a]);
    assert!(entries.is_empty());
}
