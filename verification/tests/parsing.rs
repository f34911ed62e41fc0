use airyc::parser::{Parser, ParserError};
use airyc::syntax_kind::SyntaxKind;

fn try_it(source: &str) -> rowan::GreenNode {
    let parser = Parser::new(source);
    let (tree, errors) = parser.parse();

    if !errors.is_empty() {
        panic!("Parser errors: {:?}", errors);
    }

    assert_eq!(format!("{}", tree), source);
    tree
}

#[test]
fn test_declarations() {
    let source = r#"
    const int A = 1;
    const float B = 2.0, C = 3.0;
    int a;
    float b = 1.0;
    struct MyStruct s;
    int *p;
    int arr[10];
    int arr2[2][3];
    "#;
    try_it(source);
}

#[test]
fn test_initializers() {
    let source = r#"
    int a = 1;
    int b = {1, 2};
    int c = {{1}, {2}};
    const int cb = {1, 2};
    const int cb[2][3] = {{1,2,3}, {4,5,6}};
    const int d = 1 + 2 * 3;
    "#;
    try_it(source);
}

#[test]
fn test_functions() {
    let source = r#"
    void func1() {}
    int func2(int a) {}
    int func3(int a, float b) {}
    int *func4(int *p, int arr[]) {}
    "#;
    try_it(source);
}

#[test]
fn test_expressions() {
    // Wrapped in a var decl because we can't parse bare expressions at root
    let source = r#"
    int x = a + b * c;
    int y = (a + b) * c;
    int z = a || b && c;
    int w = a == b;
    int rel = a < b;
    int unary = -a + !b;
    int ptr = *p + &x;
    int arr = a[1][2];
    int call = foo(a, b);
    "#;
    try_it(source);
}

#[test]
fn test_complex_mix() {
    let source = r#"
    const int MAX = 100;
    struct Point p;

    int main(int argc, int *argv[]) {
        int a = 1;
        int *ptr = &a;
        const int b = MAX;
    }
    "#;
    try_it(source);
}

#[test]
fn test_if_statement() {
    let source = r#"
    void test() {
        if (a) {
            return;
        }
        if (a) return; else return 1;
    }
    "#;
    try_it(source);
}

#[test]
fn test_while_statement() {
    let source = r#"
    void test() {
        while (1) {
            break;
            continue;
        }
    }
    "#;
    try_it(source);
}

#[test]
fn test_return_statement() {
    let source = r#"
    void test() {
        return;
        return 1;
    }
    "#;
    try_it(source);
}

#[test]
fn test_block_statement() {
    let source = r#"
    void test() {
        {
            int nested;
        }
    }
    "#;
    try_it(source);
}

#[test]
fn test_assign_statement() {
    let source = r#"
    void test() {
        a = 1;
        *p = 2;
        arr[0] = 3;
    }
    "#;
    try_it(source);
}

#[test]
fn test_expr_statement() {
    let source = r#"
    void test() {
        func();
        a + b;
        ;
    }
    "#;
    try_it(source);
}

#[test]
fn test_comments() {
    let source = r#"
    /* normal comment */
    /* comment with * inside */
    /* comment with / inside */
    /* comment with ** inside */
    /* **/
    /****/
    /**/
    int a = 1;
    "#;
    try_it(source);
}

#[test]
fn test_array_init() {
    let source = r#"
    const int a[3] = {1, 2, 3};
    const int a[2][3] = {{1, 2, 3}, {4, 5}};
    "#;
    try_it(source);
}

#[test]
fn test_postfix_expressions() {
    let source = r#"
    int x = s.field;
    int y = p->member;
    int z = s.a.b;
    int w = p->a->b;
    int mixed = arr[0].field;
    int complex = func().member;
    "#;
    try_it(source);
}

#[test]
fn parser_keeps_every_character_of_broken_input() {
    let source = "int x = ; } struct { @@ while ( ;";
    let (tree, errors) = Parser::new(source).parse();
    assert!(!errors.is_empty());
    assert_eq!(format!("{}", tree), source);
}

#[test]
fn parser_reports_a_missing_semicolon() {
    let (_tree, errors) = Parser::new("int a = 1").parse();
    assert!(!errors.is_empty());
}

#[test]
fn parser_empty_source() {
    let (tree, errors) = Parser::new("").parse();
    assert!(errors.is_empty());
    assert_eq!(format!("{}", tree), "");
}

/// The nesting of node kinds, with the non-trivia tokens of each node.
fn shape(node: &rowan::GreenNodeData) -> String {
    let kind = SyntaxKind::from_code(node.kind().0).unwrap();
    let mut parts: Vec<String> = Vec::new();
    for child in node.children() {
        match child {
            rowan::NodeOrToken::Node(n) => parts.push(shape(n)),
            rowan::NodeOrToken::Token(t) => {
                let k = SyntaxKind::from_code(t.kind().0).unwrap();
                if !k.is_trivia() {
                    parts.push(format!("{:?}", k));
                }
            }
        }
    }
    format!("{:?}[{}]", kind, parts.join(" "))
}

#[test]
fn variable_definition_builds_nested_nodes() {
    let (tree, errors) = Parser::new("int a = 1;").parse();
    assert!(errors.is_empty());
    assert_eq!(
        shape(&tree),
        "COMP_UNIT[VAR_DECL[TYPE[INT_KW] VAR_DEF[CONST_INDEX_VAL[NAME[IDENT]] EQ INIT_VAL[LITERAL[INT_LITERAL]]] SEMI]]"
    );
}

#[test]
fn binary_operators_nest_by_precedence() {
    let (tree, errors) = Parser::new("int x = a + b * c;").parse();
    assert!(errors.is_empty());
    assert_eq!(
        shape(&tree),
        "COMP_UNIT[VAR_DECL[TYPE[INT_KW] VAR_DEF[CONST_INDEX_VAL[NAME[IDENT]] EQ INIT_VAL[BINARY_EXPR[INDEX_VAL[NAME[IDENT]] BINARY_OP[PLUS] BINARY_EXPR[INDEX_VAL[NAME[IDENT]] BINARY_OP[STAR] INDEX_VAL[NAME[IDENT]]]]]] SEMI]]"
    );
}

#[test]
fn function_definition_holds_its_block() {
    let (tree, errors) = Parser::new("void f() { return; }").parse();
    assert!(errors.is_empty());
    assert_eq!(
        shape(&tree),
        "COMP_UNIT[FUNC_DEF[FUNC_TYPE[VOID_KW] NAME[IDENT] L_PAREN R_PAREN BLOCK[L_BRACE RETURN_STMT[RETURN_KW SEMI] R_BRACE]]]"
    );
}

#[test]
fn missing_operand_is_wrapped_and_reported() {
    let (tree, errors) = Parser::new("int a = ;").parse();
    assert_eq!(
        errors,
        vec![
            ParserError::ExpectedFound { expected: SyntaxKind::IDENT, found: SyntaxKind::SEMI },
            ParserError::ExpectedFound { expected: SyntaxKind::SEMI, found: SyntaxKind::EOF },
        ]
    );
    assert_eq!(
        shape(&tree),
        "COMP_UNIT[VAR_DECL[TYPE[INT_KW] VAR_DEF[CONST_INDEX_VAL[NAME[IDENT]] EQ INIT_VAL[INDEX_VAL[NAME[ERROR[SEMI]]]]]]]"
    );
    assert_eq!(format!("{}", tree), "int a = ;");
}

#[test]
fn missing_semicolon_skips_to_the_recovery_point() {
    let (tree, errors) = Parser::new("void f() { return 1 x; }").parse();
    assert_eq!(errors, vec![ParserError::Expected(SyntaxKind::SEMI)]);
    assert_eq!(
        shape(&tree),
        "COMP_UNIT[FUNC_DEF[FUNC_TYPE[VOID_KW] NAME[IDENT] L_PAREN R_PAREN BLOCK[L_BRACE RETURN_STMT[RETURN_KW LITERAL[INT_LITERAL] ERROR[IDENT]] SEMI R_BRACE]]]"
    );
}
