use airyc::lexer::{Error, Lexer, LexerError, LexerErrorKind};
use airyc::syntax_kind::SyntaxKind;

fn check(source: &str, expected_tokens: &[(SyntaxKind, &str)]) {
    let mut lexer = Lexer::new(source);
    for (expected_kind, expected_text) in expected_tokens {
        let kind = lexer.current();
        let text = lexer.current_text();

        assert_eq!(kind, *expected_kind);
        assert_eq!(text, *expected_text);

        lexer.bump();
    }
    assert_eq!(lexer.current(), SyntaxKind::EOF);
}

#[test]
fn test_lexer_basic() {
    check(
        "const int x = 42;",
        &[
            (SyntaxKind::CONST_KW, "const"),
            (SyntaxKind::WHITESPACE, " "),
            (SyntaxKind::INT_KW, "int"),
            (SyntaxKind::WHITESPACE, " "),
            (SyntaxKind::IDENT, "x"),
            (SyntaxKind::WHITESPACE, " "),
            (SyntaxKind::EQ, "="),
            (SyntaxKind::WHITESPACE, " "),
            (SyntaxKind::INT_LITERAL, "42"),
            (SyntaxKind::SEMI, ";"),
        ],
    );
}

#[test]
fn test_star_token() {
    check(
        "int* ptr;",
        &[
            (SyntaxKind::INT_KW, "int"),
            (SyntaxKind::STAR, "*"),
            (SyntaxKind::WHITESPACE, " "),
            (SyntaxKind::IDENT, "ptr"),
            (SyntaxKind::SEMI, ";"),
        ],
    );
}

#[test]
fn test_comments_and_whitespace() {
    check(
        "// comment\n/* block */ ",
        &[
            (SyntaxKind::COMMENT_LINE, "// comment"),
            (SyntaxKind::NEWLINE, "\n"),
            (SyntaxKind::COMMENT_BLOCK, "/* block */"),
            (SyntaxKind::WHITESPACE, " "),
        ],
    );
}

#[test]
fn lexer_tokens_give_back_the_text() {
    let source = "int main() { return a->b + 1.5e3 / x[2]; } /* c */ // d\n";
    let mut lexer = Lexer::new(source);
    let mut text = String::new();
    while lexer.current() != SyntaxKind::EOF {
        text.push_str(lexer.current_text());
        lexer.bump();
    }
    assert_eq!(text, source);
}

#[test]
fn lexer_longest_match_wins() {
    check("a->b", &[(SyntaxKind::IDENT, "a"), (SyntaxKind::ARROW, "->"), (SyntaxKind::IDENT, "b")]);
    check("<= == !=", &[(SyntaxKind::LTEQ, "<="), (SyntaxKind::WHITESPACE, " "), (SyntaxKind::EQEQ, "=="), (SyntaxKind::WHITESPACE, " "), (SyntaxKind::NEQ, "!=")]);
    check("constant", &[(SyntaxKind::IDENT, "constant")]);
    check("1.5e-3", &[(SyntaxKind::FLOAT_LITERAL, "1.5e-3")]);
}

#[test]
fn lexer_unknown_character_is_one_error_token() {
    check("a@b", &[(SyntaxKind::IDENT, "a"), (SyntaxKind::ERROR, "@"), (SyntaxKind::IDENT, "b")]);
}

#[test]
fn lexer_unterminated_block_comment() {
    let mut lexer = Lexer::new("/* open");
    assert_ne!(lexer.current(), SyntaxKind::COMMENT_BLOCK);
    let mut text = String::new();
    while lexer.current() != SyntaxKind::EOF {
        text.push_str(lexer.current_text());
        lexer.bump();
    }
    assert_eq!(text, "/* open");
}

#[test]
fn lexer_skips_trivia_when_asked() {
    let lexer = Lexer::new("  x /* c */ = 1");
    assert_eq!(lexer.current(), SyntaxKind::WHITESPACE);
    assert_eq!(lexer.current_without_trivia(), SyntaxKind::IDENT);
    assert_eq!(lexer.current_without_trivia_1(), SyntaxKind::EQ);
    assert!(lexer.at(SyntaxKind::WHITESPACE));
    assert!(!lexer.at(SyntaxKind::IDENT));
}

#[test]
fn lexer_empty_source_is_at_eof() {
    let lexer = Lexer::new("");
    assert_eq!(lexer.current(), SyntaxKind::EOF);
    assert_eq!(lexer.current_without_trivia(), SyntaxKind::EOF);
}

#[test]
fn lexer_error_message_and_conversion() {
    let e = LexerError { kind: LexerErrorKind::InvalidInteger, text: "99x".to_string(), span_start: 3, span_end: 6 };
    assert_eq!(e.message(), "Lexer error: InvalidInteger at 3..6: 99x");
    let err: Error = e.into();
    assert!(matches!(err, Error::LexerError(LexerError { kind: LexerErrorKind::InvalidInteger, .. })));
    assert_eq!(LexerErrorKind::default(), LexerErrorKind::Unknown);
}
