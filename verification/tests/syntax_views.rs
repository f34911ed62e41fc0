use airyc::ast::{name_text, FuncFParam, InitVal, Name, Pointer, SyntaxElement, SyntaxNode, SyntaxToken, VarDecl};
use airyc::codegen::{arithmetic_instruction, compare_width, comparison_predicate, CodegenError, IntArith, IntPredicate, IntWidth, OptLevel};
use airyc::types::Ty;
use airyc::syntax_kind::SyntaxKind;

fn tok(kind: SyntaxKind, text: &str) -> SyntaxElement {
    SyntaxElement::Token(SyntaxToken { kind, text: text.to_string() })
}

fn node(kind: SyntaxKind, children: Vec<SyntaxElement>) -> SyntaxNode {
    SyntaxNode { kind, children }
}

#[test]
fn pointer_stars() {
    let p = Pointer { syntax: node(SyntaxKind::POINTER, vec![tok(SyntaxKind::STAR, "*"), tok(SyntaxKind::WHITESPACE, " "), tok(SyntaxKind::CONST_KW, "const"), tok(SyntaxKind::STAR, "*")]) };
    assert_eq!(p.stars(), vec![false, true]);
    let q = Pointer { syntax: node(SyntaxKind::POINTER, vec![tok(SyntaxKind::STAR, "*"), tok(SyntaxKind::STAR, "*"), tok(SyntaxKind::COMMENT_BLOCK, "/**/"), tok(SyntaxKind::CONST_KW, "const")]) };
    assert_eq!(q.stars(), vec![true, false]);
    let empty = Pointer { syntax: node(SyntaxKind::POINTER, vec![]) };
    assert!(empty.stars().is_empty());
}

#[test]
fn declarations_and_parameters() {
    let d = VarDecl { syntax: node(SyntaxKind::VAR_DECL, vec![tok(SyntaxKind::CONST_KW, "const"), tok(SyntaxKind::WHITESPACE, " "), tok(SyntaxKind::INT_KW, "int")]) };
    assert!(d.is_const());
    let d2 = VarDecl { syntax: node(SyntaxKind::VAR_DECL, vec![tok(SyntaxKind::INT_KW, "int")]) };
    assert!(!d2.is_const());
    let p = FuncFParam { syntax: node(SyntaxKind::FUNC_F_PARAM, vec![tok(SyntaxKind::INT_KW, "int"), tok(SyntaxKind::IDENT, "a"), tok(SyntaxKind::L_BRACK, "["), tok(SyntaxKind::R_BRACK, "]")]) };
    assert!(p.is_array());
    let p2 = FuncFParam { syntax: node(SyntaxKind::FUNC_F_PARAM, vec![tok(SyntaxKind::INT_KW, "int"), tok(SyntaxKind::IDENT, "a")]) };
    assert!(!p2.is_array());
}

#[test]
fn init_lists() {
    let inner = node(SyntaxKind::INIT_VAL, vec![tok(SyntaxKind::INT_LITERAL, "1")]);
    let list = InitVal { syntax: node(SyntaxKind::INIT_VAL, vec![tok(SyntaxKind::L_BRACE, "{"), SyntaxElement::Node(inner), tok(SyntaxKind::R_BRACE, "}")]) };
    assert!(list.is_list());
    let single = InitVal { syntax: node(SyntaxKind::INIT_VAL, vec![tok(SyntaxKind::INT_LITERAL, "1")]) };
    assert!(!single.is_list());
}

#[test]
fn names() {
    let n = Name { syntax: node(SyntaxKind::NAME, vec![tok(SyntaxKind::WHITESPACE, " "), tok(SyntaxKind::IDENT, "main")]) };
    assert_eq!(name_text(&n), Some("main".to_string()));
    let none = Name { syntax: node(SyntaxKind::NAME, vec![tok(SyntaxKind::WHITESPACE, " ")]) };
    assert_eq!(name_text(&none), None);
}

#[test]
fn codegen_errors_and_levels() {
    assert_eq!(CodegenError::Missing("entry block").message(), "missing entry block");
    assert_eq!(CodegenError::UndefinedVar("x".to_string()).message(), "undefined variable: x");
    assert_eq!(CodegenError::InvalidRoot.message(), "root node is not CompUnit");
    assert_eq!(CodegenError::LlvmWrite("disk full".to_string()).message(), "failed to write LLVM output: disk full");
    assert_ne!(OptLevel::O0, OptLevel::O3);
}

#[test]
fn recovery_sets() {
    assert!(SyntaxKind::SEMI.is_expr_recovery());
    assert!(!SyntaxKind::PLUS.is_expr_recovery());
    assert!(SyntaxKind::IF_KW.is_stmt_recovery());
    assert!(SyntaxKind::CONST_KW.is_decl_recovery());
    assert!(!SyntaxKind::IDENT.is_decl_recovery());
    assert!(SyntaxKind::COMMENT_LINE.is_trivia());
    assert_eq!(SyntaxKind::from_code(SyntaxKind::PLUS.code()), Some(SyntaxKind::PLUS));
}

#[test]
fn kind_names_match_debug() {
    for k in [SyntaxKind::PLUS, SyntaxKind::LT, SyntaxKind::WHITESPACE, SyntaxKind::COMP_UNIT, SyntaxKind::CONST_KW, SyntaxKind::EOF] {
        assert_eq!(k.name(), format!("{:?}", k));
    }
}

#[test]
fn integer_codegen_choices() {
    assert_eq!(compare_width(&Ty::I32, &Ty::Bool), Some(IntWidth::I32));
    assert_eq!(compare_width(&Ty::Bool, &Ty::I8), Some(IntWidth::I8));
    assert_eq!(compare_width(&Ty::I8, &Ty::I8), Some(IntWidth::I8));
    assert_eq!(compare_width(&Ty::U8, &Ty::I32), None);
    assert_eq!(comparison_predicate(SyntaxKind::LTEQ), Some(IntPredicate::SignedLessEq));
    assert_eq!(comparison_predicate(SyntaxKind::PLUS), None);
    assert_eq!(arithmetic_instruction(SyntaxKind::PERCENT), Some(IntArith::SignedRem));
    assert_eq!(arithmetic_instruction(SyntaxKind::LT), None);
}
