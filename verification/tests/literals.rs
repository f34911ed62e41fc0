use airyc::error::AnalyzeError;
use airyc::literal::{char_literal_byte, LiteralToken};
use airyc::module::{Module, TextRange};
use airyc::parser::Parser;
use airyc::types::Ty;
use airyc::value::Value;

fn module() -> Module {
    let (tree, _) = Parser::new("").parse();
    Module::new(tree)
}

const R: TextRange = TextRange { start: 3, end: 9 };
const T: TextRange = TextRange { start: 4, end: 8 };

fn enter(token: LiteralToken) -> Module {
    let mut m = module();
    m.enter_literal(R, T, &token);
    m
}

fn int_lit(text: &str) -> Module {
    enter(LiteralToken::Int(text.to_string()))
}

fn overflow_text(m: &Module) -> Option<String> {
    m.overflowing_literals.iter().find(|(r, _)| *r == R).map(|(_, s)| s.clone())
}

#[test]
fn decimal_literal_is_i32() {
    let m = int_lit("42");
    assert!(matches!(m.get_value_by_range(R), Some(Value::I32(42))));
    assert!(matches!(m.get_expr_type(R), Some(Ty::I32)));
    assert!(m.semantic_errors.is_empty());
    assert_eq!(overflow_text(&m), None);
}

#[test]
fn suffix_and_base_prefix() {
    let m = int_lit("0x1Fu8");
    assert!(matches!(m.get_value_by_range(R), Some(Value::U8(31))));
    assert!(matches!(m.get_expr_type(R), Some(Ty::U8)));
    let m = int_lit("0b101i64");
    assert!(matches!(m.get_value_by_range(R), Some(Value::I64(5))));
    let m = int_lit("0o17u32");
    assert!(matches!(m.get_value_by_range(R), Some(Value::U32(15))));
    let m = int_lit("7u64");
    assert!(matches!(m.get_value_by_range(R), Some(Value::U64(7))));
    let m = int_lit("12i32");
    assert!(matches!(m.get_value_by_range(R), Some(Value::I32(12))));
}

#[test]
fn too_large_for_its_type_wraps_and_is_remembered() {
    let m = int_lit("128i8");
    assert!(matches!(m.get_value_by_range(R), Some(Value::I8(-128))));
    assert!(matches!(m.get_expr_type(R), Some(Ty::I8)));
    assert_eq!(overflow_text(&m), Some("128i8".to_string()));
    assert!(m.semantic_errors.is_empty());
    let m = int_lit("300u8");
    assert!(matches!(m.get_value_by_range(R), Some(Value::U8(44))));
    let m = int_lit("2147483648");
    assert!(matches!(m.get_value_by_range(R), Some(Value::I32(-2147483648))));
    assert_eq!(overflow_text(&m), Some("2147483648".to_string()));
}

#[test]
fn unreadable_integer_is_an_error() {
    let m = int_lit("340282366920938463463374607431768211456");
    assert!(m.get_value_by_range(R).is_none());
    assert!(m.get_expr_type(R).is_none());
    assert_eq!(m.semantic_errors.len(), 1);
    match &m.semantic_errors[0] {
        AnalyzeError::IntegerLiteralOverflow { literal, ty, range } => {
            assert_eq!(literal, "340282366920938463463374607431768211456");
            assert_eq!(ty, "i32");
            assert_eq!(*range, R);
        }
        e => panic!("unexpected {:?}", e),
    }
    let m = int_lit("0xu8");
    match &m.semantic_errors[0] {
        AnalyzeError::IntegerLiteralOverflow { ty, .. } => assert_eq!(ty, "u8"),
        e => panic!("unexpected {:?}", e),
    }
}

#[test]
fn largest_u128_is_read() {
    let m = int_lit("340282366920938463463374607431768211455u64");
    assert!(matches!(m.get_value_by_range(R), Some(Value::U64(18446744073709551615))));
    assert!(overflow_text(&m).is_some());
}

#[test]
fn string_literal_is_unescaped() {
    let m = enter(LiteralToken::Str("\"a\\nb\"".to_string()));
    match m.get_value_by_range(R) {
        Some(Value::String(s)) => assert_eq!(s, "a\nb"),
        v => panic!("unexpected {:?}", v),
    }
    match m.get_expr_type(R) {
        Some(Ty::Pointer { pointee, is_const }) => {
            assert!(matches!(**pointee, Ty::U8));
            assert!(*is_const);
        }
        t => panic!("unexpected {:?}", t),
    }
}

#[test]
fn bad_string_escape_is_an_error() {
    let m = enter(LiteralToken::Str("\"\\q\"".to_string()));
    assert!(m.get_value_by_range(R).is_none());
    assert!(m.get_expr_type(R).is_some());
    match &m.semantic_errors[0] {
        AnalyzeError::UnescapeError { message, range } => {
            assert_eq!(message, "invalid escape \\q at 2 in \"\\q\"");
            assert_eq!(*range, T);
        }
        e => panic!("unexpected {:?}", e),
    }
}

#[test]
fn char_literals() {
    let m = enter(LiteralToken::Char("'a'".to_string()));
    assert!(matches!(m.get_value_by_range(R), Some(Value::U8(97))));
    assert!(matches!(m.get_expr_type(R), Some(Ty::U8)));
    let m = enter(LiteralToken::Char("'\\n'".to_string()));
    assert!(matches!(m.get_value_by_range(R), Some(Value::U8(10))));
}

fn char_reason(text: &str) -> String {
    let m = enter(LiteralToken::Char(text.to_string()));
    assert!(m.get_value_by_range(R).is_none());
    assert!(matches!(m.get_expr_type(R), Some(Ty::U8)));
    match &m.semantic_errors[0] {
        AnalyzeError::InvalidCharLiteral { literal, reason, range } => {
            assert_eq!(literal, text);
            assert_eq!(*range, T);
            reason.clone()
        }
        e => panic!("unexpected {:?}", e),
    }
}

#[test]
fn char_literal_errors() {
    assert_eq!(
        char_reason("'ab'"),
        "Character literal must contain exactly one character, found 2"
    );
    assert_eq!(
        char_reason("''"),
        "Character literal must contain exactly one character, found 0"
    );
    assert_eq!(
        char_reason("'é'"),
        "Character literal must be ASCII (0-127), found 'é' (U+00E9). Consider using a string literal or byte array for multi-byte characters."
    );
    assert_eq!(
        char_reason("'\\q'"),
        "Invalid escape sequence: invalid escape \\q at 2 in \"\\q\""
    );
}

#[test]
fn keyword_literals() {
    let m = enter(LiteralToken::True);
    assert!(matches!(m.get_value_by_range(R), Some(Value::Bool(true))));
    assert!(matches!(m.get_expr_type(R), Some(Ty::Bool)));
    let m = enter(LiteralToken::False);
    assert!(matches!(m.get_value_by_range(R), Some(Value::Bool(false))));
    let m = enter(LiteralToken::Null);
    assert!(matches!(m.get_value_by_range(R), Some(Value::Null)));
    match m.get_expr_type(R) {
        Some(Ty::Pointer { pointee, is_const }) => {
            assert!(matches!(**pointee, Ty::Void));
            assert!(!*is_const);
        }
        t => panic!("unexpected {:?}", t),
    }
    let m = enter(LiteralToken::Missing);
    assert!(m.get_value_by_range(R).is_none());
    assert!(m.get_expr_type(R).is_none());
}

#[test]
fn char_literal_byte_from_unescaped_text() {
    assert_eq!(char_literal_byte(Ok("a".to_string())), Ok(97));
    assert_eq!(
        char_literal_byte(Ok("ab".to_string())),
        Err("Character literal must contain exactly one character, found 2".to_string())
    );
    assert_eq!(
        char_literal_byte(Ok("é".to_string())),
        Err("Character literal must be ASCII (0-127), found 'é' (U+00E9). Consider using a string literal or byte array for multi-byte characters.".to_string())
    );
    assert_eq!(char_literal_byte(Err("bad".to_string())), Err("Invalid escape sequence: bad".to_string()));
}
