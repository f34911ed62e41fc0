//! The lexer: splits source text into tokens by longest match.
//!
//! The token grammar is the one of the language:
//! keywords and punctuation are literal strings, and
//!
//! * `WHITESPACE`    = `[ \t]+`
//! * `NEWLINE`       = `\r\n | \n | \r`
//! * `COMMENT_LINE`  = `//[^\n]*`
//! * `COMMENT_BLOCK` = `/*` up to and including the first `*/`
//! * `IDENT`         = `[a-zA-Z_][a-zA-Z0-9_]*`
//! * `INT_LITERAL`   = `0[xX][0-9a-fA-F]+ | 0[0-7]* | [1-9][0-9]*`
//! * `FLOAT_LITERAL` = `(\d+(\.\d*)? | \.\d+)([eE][+-]?\d+)?` where `\d` is a Unicode decimal digit
//!
//! At each position the longest match wins; among matches of equal length a
//! keyword beats an identifier and an integer beats a float. A character that
//! starts no token becomes a one-character `ERROR` token.

use vstd::prelude::*;

use crate::decimal::{char_is_decimal, is_decimal};
use crate::syntax_kind::{token_kind, trivia_kind, SyntaxKind, Token};
use crate::text::{chars_of, concat_str, decimal_text, radix_digits, string_of_range};

verus! {

// ---------------------------------------------------------------------------
// Character classes
// ---------------------------------------------------------------------------

/// The character classes that the token grammar repeats.
#[derive(Clone, Copy, PartialEq, Eq, Structural)]
pub enum CharClass {
    /// `[ \t]`
    Space,
    /// `[^\n]`
    NotNewline,
    /// `[a-zA-Z0-9_]`
    IdentRest,
    /// `[0-9]`
    Digit,
    /// `[0-9a-fA-F]`
    HexDigit,
    /// `[0-7]`
    OctDigit,
    /// `\d`
    Decimal,
}

pub open spec fn is_ascii_digit(c: char) -> bool {
    '0' <= c && c <= '9'
}

pub open spec fn is_ident_start(c: char) -> bool {
    ('a' <= c && c <= 'z') || ('A' <= c && c <= 'Z') || c == '_'
}

/// Whether a character belongs to a class.
pub open spec fn in_class(c: char, cls: CharClass) -> bool {
    match cls {
        CharClass::Space => c == ' ' || c == '\t',
        CharClass::NotNewline => c != '\n',
        CharClass::IdentRest => is_ident_start(c) || is_ascii_digit(c),
        CharClass::Digit => is_ascii_digit(c),
        CharClass::HexDigit => is_ascii_digit(c) || ('a' <= c && c <= 'f') || ('A' <= c && c <= 'F'),
        CharClass::OctDigit => '0' <= c && c <= '7',
        CharClass::Decimal => is_decimal(c),
    }
}

fn char_in_class(c: char, cls: CharClass) -> (r: bool)
    ensures
        r == in_class(c, cls),
{
    match cls {
        CharClass::Space => c == ' ' || c == '\t',
        CharClass::NotNewline => c != '\n',
        CharClass::IdentRest => ('a' <= c && c <= 'z') || ('A' <= c && c <= 'Z') || c == '_' || (
        '0' <= c && c <= '9'),
        CharClass::Digit => '0' <= c && c <= '9',
        CharClass::HexDigit => ('0' <= c && c <= '9') || ('a' <= c && c <= 'f') || ('A' <= c && c
            <= 'F'),
        CharClass::OctDigit => '0' <= c && c <= '7',
        CharClass::Decimal => char_is_decimal(c),
    }
}

/// The number of leading characters of `s` that belong to `cls`.
pub open spec fn run_len(s: Seq<char>, cls: CharClass) -> nat
    decreases s.len(),
{
    if s.len() > 0 && in_class(s[0], cls) {
        1 + run_len(s.drop_first(), cls)
    } else {
        0
    }
}

proof fn lemma_run_len_bound(s: Seq<char>, cls: CharClass)
    ensures
        run_len(s, cls) <= s.len(),
        forall|k: int| 0 <= k < run_len(s, cls) ==> in_class(#[trigger] s[k], cls),
        run_len(s, cls) < s.len() ==> !in_class(s[run_len(s, cls) as int], cls),
    decreases s.len(),
{
    if s.len() > 0 && in_class(s[0], cls) {
        lemma_run_len_bound(s.drop_first(), cls);
        assert forall|k: int| 0 <= k < run_len(s, cls) implies in_class(#[trigger] s[k], cls) by {
            if k > 0 {
                assert(s[k] == s.drop_first()[k - 1]);
            }
        }
    }
}

proof fn lemma_run_len_step(s: Seq<char>, j: int, cls: CharClass)
    requires
        0 <= j < s.len(),
        in_class(s[j], cls),
    ensures
        run_len(s.skip(j), cls) == 1 + run_len(s.skip(j + 1), cls),
{
    assert(s.skip(j).drop_first() =~= s.skip(j + 1));
}

/// Counts the characters from `i` on that belong to `cls`.
fn run_length(chars: &Vec<char>, i: usize, cls: CharClass) -> (r: usize)
    requires
        i <= chars.len(),
    ensures
        r == run_len(chars@.skip(i as int), cls),
        i + r <= chars.len(),
{
    let mut j = i;
    while j < chars.len() && char_in_class(chars[j], cls)
        invariant
            i <= j <= chars.len(),
            run_len(chars@.skip(i as int), cls) == (j - i) + run_len(chars@.skip(j as int), cls),
        decreases chars.len() - j,
    {
        proof {
            lemma_run_len_step(chars@, j as int, cls);
        }
        j = j + 1;
    }
    proof {
        if j < chars.len() {
            assert(chars@.skip(j as int)[0] == chars@[j as int]);
        }
    }
    j - i
}

// ---------------------------------------------------------------------------
// The token grammar
// ---------------------------------------------------------------------------

/// The text of a token that is a fixed string, if it is one.
pub open spec fn literal_text(t: Token) -> Option<Seq<char>> {
    match t {
        Token::CONST_KW => Some(seq!['c', 'o', 'n', 's', 't']),
        Token::INT_KW => Some(seq!['i', 'n', 't']),
        Token::FLOAT_KW => Some(seq!['f', 'l', 'o', 'a', 't']),
        Token::VOID_KW => Some(seq!['v', 'o', 'i', 'd']),
        Token::IF_KW => Some(seq!['i', 'f']),
        Token::ELSE_KW => Some(seq!['e', 'l', 's', 'e']),
        Token::WHILE_KW => Some(seq!['w', 'h', 'i', 'l', 'e']),
        Token::BREAK_KW => Some(seq!['b', 'r', 'e', 'a', 'k']),
        Token::CONTINUE_KW => Some(seq!['c', 'o', 'n', 't', 'i', 'n', 'u', 'e']),
        Token::RETURN_KW => Some(seq!['r', 'e', 't', 'u', 'r', 'n']),
        Token::STRUCT_KW => Some(seq!['s', 't', 'r', 'u', 'c', 't']),
        Token::IMPL_KW => Some(seq!['i', 'm', 'p', 'l']),
        Token::EQ => Some(seq!['=']),
        Token::SEMI => Some(seq![';']),
        Token::COMMA => Some(seq![',']),
        Token::L_BRACE => Some(seq!['{']),
        Token::R_BRACE => Some(seq!['}']),
        Token::L_PAREN => Some(seq!['(']),
        Token::R_PAREN => Some(seq![')']),
        Token::L_BRACK => Some(seq!['[']),
        Token::R_BRACK => Some(seq![']']),
        Token::STAR => Some(seq!['*']),
        Token::DOT => Some(seq!['.']),
        Token::ARROW => Some(seq!['-', '>']),
        Token::PLUS => Some(seq!['+']),
        Token::MINUS => Some(seq!['-']),
        Token::SLASH => Some(seq!['/']),
        Token::PERCENT => Some(seq!['%']),
        Token::EQEQ => Some(seq!['=', '=']),
        Token::NEQ => Some(seq!['!', '=']),
        Token::LT => Some(seq!['<']),
        Token::GT => Some(seq!['>']),
        Token::LTEQ => Some(seq!['<', '=']),
        Token::GTEQ => Some(seq!['>', '=']),
        Token::AMPAMP => Some(seq!['&', '&']),
        Token::PIPEPIPE => Some(seq!['|', '|']),
        Token::BANG => Some(seq!['!']),
        Token::AMP => Some(seq!['&']),
        _ => None,
    }
}

/// Whether `s` starts with `lit`.
pub open spec fn starts_with(s: Seq<char>, lit: Seq<char>) -> bool {
    lit.len() <= s.len() && s.take(lit.len() as int) == lit
}

/// The first index `k >= j` at which `*/` starts in `s`, if any.
pub open spec fn block_close(s: Seq<char>, j: int) -> Option<int>
    decreases s.len() - j,
{
    if j < 0 || j + 1 >= s.len() {
        None
    } else if s[j] == '*' && s[j + 1] == '/' {
        Some(j)
    } else {
        block_close(s, j + 1)
    }
}

/// Length of the numeric part of a float, before any exponent.
pub open spec fn float_base_len(s: Seq<char>) -> nat {
    let d = run_len(s, CharClass::Decimal);
    if d > 0 {
        if d < s.len() && s[d as int] == '.' {
            d + 1 + run_len(s.skip(d + 1 as int), CharClass::Decimal)
        } else {
            d
        }
    } else if s.len() >= 2 && s[0] == '.' && run_len(s.skip(1), CharClass::Decimal) > 0 {
        1 + run_len(s.skip(1), CharClass::Decimal)
    } else {
        0
    }
}

/// Length of the optional exponent that follows a float's numeric part at `b`.
pub open spec fn float_exp_len(s: Seq<char>, b: nat) -> nat {
    if b < s.len() && (s[b as int] == 'e' || s[b as int] == 'E') {
        let k: nat = if b + 1 < s.len() && (s[b + 1 as int] == '+' || s[b + 1 as int] == '-') {
            b + 2
        } else {
            b + 1
        };
        let e = run_len(s.skip(k as int), CharClass::Decimal);
        if e > 0 {
            (k + e - b) as nat
        } else {
            0
        }
    } else {
        0
    }
}

/// The length of the longest prefix of `s` that token `t` matches, or 0 when it matches none.
pub open spec fn token_len(s: Seq<char>, t: Token) -> nat {
    match literal_text(t) {
        Some(lit) => if starts_with(s, lit) {
            lit.len()
        } else {
            0
        },
        None => match t {
            Token::WHITESPACE => run_len(s, CharClass::Space),
            Token::NEWLINE => if s.len() >= 2 && s[0] == '\r' && s[1] == '\n' {
                2
            } else if s.len() >= 1 && (s[0] == '\n' || s[0] == '\r') {
                1
            } else {
                0
            },
            Token::COMMENT_LINE => if s.len() >= 2 && s[0] == '/' && s[1] == '/' {
                2 + run_len(s.skip(2), CharClass::NotNewline)
            } else {
                0
            },
            Token::COMMENT_BLOCK => if s.len() >= 2 && s[0] == '/' && s[1] == '*' {
                match block_close(s, 2) {
                    Some(j) => (j + 2) as nat,
                    None => 0,
                }
            } else {
                0
            },
            Token::IDENT => if s.len() >= 1 && is_ident_start(s[0]) {
                1 + run_len(s.skip(1), CharClass::IdentRest)
            } else {
                0
            },
            Token::INT_LITERAL => if s.len() >= 1 && s[0] == '0' {
                if s.len() >= 3 && (s[1] == 'x' || s[1] == 'X') && in_class(s[2], CharClass::HexDigit) {
                    2 + run_len(s.skip(2), CharClass::HexDigit)
                } else {
                    1 + run_len(s.skip(1), CharClass::OctDigit)
                }
            } else if s.len() >= 1 && '1' <= s[0] && s[0] <= '9' {
                1 + run_len(s.skip(1), CharClass::Digit)
            } else {
                0
            },
            Token::FLOAT_LITERAL => {
                let b = float_base_len(s);
                if b == 0 {
                    0
                } else {
                    b + float_exp_len(s, b)
                }
            },
            _ => 0,
        },
    }
}

/// All tokens, in the order in which they win ties: keywords before
/// identifiers, integers before floats.
pub open spec fn token_order() -> Seq<Token> {
    seq![
        Token::CONST_KW, Token::INT_KW, Token::FLOAT_KW, Token::VOID_KW, Token::IF_KW,
        Token::ELSE_KW, Token::WHILE_KW, Token::BREAK_KW, Token::CONTINUE_KW, Token::RETURN_KW,
        Token::STRUCT_KW, Token::IMPL_KW, Token::EQ, Token::SEMI, Token::COMMA, Token::L_BRACE,
        Token::R_BRACE, Token::L_PAREN, Token::R_PAREN, Token::L_BRACK, Token::R_BRACK,
        Token::STAR, Token::DOT, Token::ARROW, Token::PLUS, Token::MINUS, Token::SLASH,
        Token::PERCENT, Token::EQEQ, Token::NEQ, Token::LT, Token::GT, Token::LTEQ, Token::GTEQ,
        Token::AMPAMP, Token::PIPEPIPE, Token::BANG, Token::AMP, Token::WHITESPACE,
        Token::NEWLINE, Token::COMMENT_LINE, Token::COMMENT_BLOCK, Token::INT_LITERAL,
        Token::FLOAT_LITERAL, Token::IDENT,
    ]
}

/// The longest match among the first `n` tokens of `token_order()`; the earlier token wins a tie.
pub open spec fn best_among(s: Seq<char>, n: nat) -> (Option<Token>, nat)
    decreases n,
{
    if n == 0 {
        (None, 0)
    } else {
        let prev = best_among(s, (n - 1) as nat);
        let t = token_order()[n - 1];
        let l = token_len(s, t);
        if l > prev.1 {
            (Some(t), l)
        } else {
            prev
        }
    }
}

/// The kind and length of the token at the start of a non-empty `s`.
pub open spec fn scan(s: Seq<char>) -> (SyntaxKind, nat) {
    let best = best_among(s, token_order().len());
    match best.0 {
        Some(t) => (token_kind(t), best.1),
        None => (SyntaxKind::ERROR, 1),
    }
}

/// The tokens of `s`, each with its text.
pub open spec fn tokenize(s: Seq<char>) -> Seq<(SyntaxKind, Seq<char>)>
    decreases s.len(),
{
    if s.len() == 0 {
        Seq::empty()
    } else {
        let (k, n) = scan(s);
        if 1 <= n <= s.len() {
            seq![(k, s.take(n as int))] + tokenize(s.skip(n as int))
        } else {
            Seq::empty()
        }
    }
}

/// The texts of a sequence of tokens, one after another.
pub open spec fn tokens_text(toks: Seq<(SyntaxKind, Seq<char>)>) -> Seq<char>
    decreases toks.len(),
{
    if toks.len() == 0 {
        Seq::empty()
    } else {
        toks[0].1 + tokens_text(toks.drop_first())
    }
}

// ---------------------------------------------------------------------------
// Properties of the grammar
// ---------------------------------------------------------------------------

proof fn lemma_token_len_bound(s: Seq<char>, t: Token)
    ensures
        token_len(s, t) <= s.len(),
{
    lemma_run_len_bound(s, CharClass::Space);
    if s.len() >= 2 {
        lemma_run_len_bound(s.skip(2), CharClass::NotNewline);
        lemma_run_len_bound(s.skip(2), CharClass::HexDigit);
        lemma_block_close_bound(s, 2);
    }
    if s.len() >= 1 {
        lemma_run_len_bound(s.skip(1), CharClass::IdentRest);
        lemma_run_len_bound(s.skip(1), CharClass::OctDigit);
        lemma_run_len_bound(s.skip(1), CharClass::Digit);
    }
    if t == Token::FLOAT_LITERAL {
        lemma_float_len_bound(s);
    }
}

proof fn lemma_block_close_bound(s: Seq<char>, j: int)
    ensures
        block_close(s, j) matches Some(k) ==> j <= k && k + 1 < s.len() && s[k] == '*' && s[k
            + 1] == '/',
    decreases s.len() - j,
{
    if !(j < 0 || j + 1 >= s.len()) && !(s[j] == '*' && s[j + 1] == '/') {
        lemma_block_close_bound(s, j + 1);
    }
}

proof fn lemma_float_len_bound(s: Seq<char>)
    ensures
        float_base_len(s) <= s.len(),
        float_base_len(s) > 0 ==> float_base_len(s) + float_exp_len(s, float_base_len(s))
            <= s.len(),
{
    lemma_run_len_bound(s, CharClass::Decimal);
    let d = run_len(s, CharClass::Decimal);
    if d < s.len() {
        lemma_run_len_bound(s.skip(d + 1 as int), CharClass::Decimal);
    }
    if s.len() >= 1 {
        lemma_run_len_bound(s.skip(1), CharClass::Decimal);
    }
    let b = float_base_len(s);
    if b + 1 <= s.len() {
        lemma_run_len_bound(s.skip(b + 1 as int), CharClass::Decimal);
    }
    if b + 2 <= s.len() {
        lemma_run_len_bound(s.skip(b + 2 as int), CharClass::Decimal);
    }
}

proof fn lemma_best_among(s: Seq<char>, n: nat)
    requires
        n <= token_order().len(),
    ensures
        best_among(s, n).1 <= s.len(),
        best_among(s, n).0 is None <==> best_among(s, n).1 == 0,
        best_among(s, n).0 matches Some(t) ==> token_len(s, t) == best_among(s, n).1,
        forall|i: int| 0 <= i < n ==> token_len(s, #[trigger] token_order()[i]) <= best_among(s, n).1,
    decreases n,
{
    if n > 0 {
        lemma_best_among(s, (n - 1) as nat);
        lemma_token_len_bound(s, token_order()[n - 1]);
    }
}

/// The token chosen at a position is a longest match: no token matches a
/// longer prefix, and when some token matches, the chosen one matches exactly
/// its length.
pub proof fn lemma_scan_longest(s: Seq<char>)
    requires
        s.len() > 0,
    ensures
        1 <= scan(s).1 <= s.len(),
        forall|t: Token| token_len(s, t) <= scan(s).1,
        scan(s).0 != SyntaxKind::ERROR ==> exists|t: Token|
            token_kind(t) == scan(s).0 && token_len(s, t) == scan(s).1,
        scan(s).0 == SyntaxKind::ERROR ==> forall|t: Token| token_len(s, t) == 0,
{
    lemma_best_among(s, token_order().len());
    assert forall|t: Token| token_len(s, t) <= scan(s).1 by {
        assert(token_order().contains(t)) by {
            lemma_token_in_order(t);
        }
        let i = choose|i: int| 0 <= i < token_order().len() && token_order()[i] == t;
        assert(token_len(s, token_order()[i]) <= best_among(s, token_order().len()).1);
    }
}

proof fn lemma_token_in_order(t: Token)
    ensures
        token_order().contains(t),
{
    let o = token_order();
    match t {
        Token::CONST_KW => assert(o[0] == t),
        Token::INT_KW => assert(o[1] == t),
        Token::FLOAT_KW => assert(o[2] == t),
        Token::VOID_KW => assert(o[3] == t),
        Token::IF_KW => assert(o[4] == t),
        Token::ELSE_KW => assert(o[5] == t),
        Token::WHILE_KW => assert(o[6] == t),
        Token::BREAK_KW => assert(o[7] == t),
        Token::CONTINUE_KW => assert(o[8] == t),
        Token::RETURN_KW => assert(o[9] == t),
        Token::STRUCT_KW => assert(o[10] == t),
        Token::IMPL_KW => assert(o[11] == t),
        Token::EQ => assert(o[12] == t),
        Token::SEMI => assert(o[13] == t),
        Token::COMMA => assert(o[14] == t),
        Token::L_BRACE => assert(o[15] == t),
        Token::R_BRACE => assert(o[16] == t),
        Token::L_PAREN => assert(o[17] == t),
        Token::R_PAREN => assert(o[18] == t),
        Token::L_BRACK => assert(o[19] == t),
        Token::R_BRACK => assert(o[20] == t),
        Token::STAR => assert(o[21] == t),
        Token::DOT => assert(o[22] == t),
        Token::ARROW => assert(o[23] == t),
        Token::PLUS => assert(o[24] == t),
        Token::MINUS => assert(o[25] == t),
        Token::SLASH => assert(o[26] == t),
        Token::PERCENT => assert(o[27] == t),
        Token::EQEQ => assert(o[28] == t),
        Token::NEQ => assert(o[29] == t),
        Token::LT => assert(o[30] == t),
        Token::GT => assert(o[31] == t),
        Token::LTEQ => assert(o[32] == t),
        Token::GTEQ => assert(o[33] == t),
        Token::AMPAMP => assert(o[34] == t),
        Token::PIPEPIPE => assert(o[35] == t),
        Token::BANG => assert(o[36] == t),
        Token::AMP => assert(o[37] == t),
        Token::WHITESPACE => assert(o[38] == t),
        Token::NEWLINE => assert(o[39] == t),
        Token::COMMENT_LINE => assert(o[40] == t),
        Token::COMMENT_BLOCK => assert(o[41] == t),
        Token::INT_LITERAL => assert(o[42] == t),
        Token::FLOAT_LITERAL => assert(o[43] == t),
        Token::IDENT => assert(o[44] == t),
    }
}

/// Lexing loses nothing: the texts of the tokens, one after another, are the source.
pub proof fn lemma_tokenize_lossless(s: Seq<char>)
    ensures
        tokens_text(tokenize(s)) == s,
    decreases s.len(),
{
    if s.len() > 0 {
        lemma_scan_longest(s);
        let (k, n) = scan(s);
        lemma_tokenize_lossless(s.skip(n as int));
        let head = seq![(k, s.take(n as int))];
        let toks = head + tokenize(s.skip(n as int));
        assert(toks.drop_first() =~= tokenize(s.skip(n as int)));
        assert(s.take(n as int) + s.skip(n as int) =~= s);
    }
}

/// Text that no rule matches is not dropped: it becomes one `ERROR` token of
/// one character, and the tokens after it are those of the rest.
pub proof fn lemma_unmatched_is_error(s: Seq<char>)
    requires
        s.len() > 0,
        forall|t: Token| token_len(s, t) == 0,
    ensures
        tokenize(s) == seq![(SyntaxKind::ERROR, s.take(1))] + tokenize(s.skip(1)),
{
    lemma_scan_longest(s);
    if scan(s).0 != SyntaxKind::ERROR {
        let t = choose|t: Token| token_kind(t) == scan(s).0 && token_len(s, t) == scan(s).1;
        assert(token_len(s, t) == 0);
    }
    lemma_best_among(s, token_order().len());
}

/// A run of characters all in a class is counted whole.
proof fn lemma_run_len_all(u: Seq<char>, cls: CharClass)
    requires
        forall|i: int| 0 <= i < u.len() ==> in_class(#[trigger] u[i], cls),
    ensures
        run_len(u, cls) == u.len(),
    decreases u.len(),
{
    if u.len() > 0 {
        assert forall|i: int| 0 <= i < u.drop_first().len() implies in_class(
            #[trigger] u.drop_first()[i],
            cls,
        ) by {
            assert(u.drop_first()[i] == u[i + 1]);
        }
        lemma_run_len_all(u.drop_first(), cls);
    }
}

/// Only the integer rule matches the whole of a hexadecimal literal.
proof fn lemma_hex_only_int(s: Seq<char>, t: Token)
    requires
        s.len() >= 3,
        s[0] == '0',
        s[1] == 'x' || s[1] == 'X',
        token_len(s, t) == s.len(),
    ensures
        t == Token::INT_LITERAL,
{
    assert(s.drop_first()[0] == s[1]);
    assert(!is_decimal(s[1]));
    assert(is_decimal(s[0]));
    match t {
        Token::INT_LITERAL => {},
        Token::FLOAT_LITERAL => {
            assert(run_len(s.drop_first(), CharClass::Decimal) == 0);
            assert(run_len(s, CharClass::Decimal) == 1);
            assert(float_base_len(s) == 1);
            assert(float_exp_len(s, 1) == 0);
        },
        Token::IDENT => {},
        Token::WHITESPACE => {},
        Token::NEWLINE => {},
        Token::COMMENT_LINE => {},
        Token::COMMENT_BLOCK => {},
        _ => {
            let lit = literal_text(t)->0;
            assert(literal_text(t) is Some);
            assert(lit[0] != '0');
            if starts_with(s, lit) {
                assert(s.take(lit.len() as int)[0] == s[0]);
            }
        },
    }
}

/// A hexadecimal literal (`0x` or `0X` and one or more of `0-9`, `a-f`,
/// `A-F`, and nothing else) lexes as one `INT_LITERAL` token covering all
/// of it.
pub proof fn lemma_hex_literal(s: Seq<char>)
    requires
        s.len() >= 3,
        s[0] == '0',
        s[1] == 'x' || s[1] == 'X',
        forall|i: int|
            2 <= i < s.len() ==> ('0' <= #[trigger] s[i] && s[i] <= '9') || ('a' <= s[i] && s[i]
                <= 'f') || ('A' <= s[i] && s[i] <= 'F'),
    ensures
        tokenize(s) == seq![(SyntaxKind::INT_LITERAL, s)],
{
    let u = s.skip(2);
    assert forall|i: int| 0 <= i < u.len() implies in_class(#[trigger] u[i], CharClass::HexDigit) by {
        assert(u[i] == s[i + 2]);
    }
    lemma_run_len_all(u, CharClass::HexDigit);
    assert(in_class(s[2], CharClass::HexDigit));
    assert(token_len(s, Token::INT_LITERAL) == s.len());
    lemma_scan_longest(s);
    let (k, n) = scan(s);
    assert(n == s.len());
    assert(k != SyntaxKind::ERROR);
    let t = choose|t: Token| token_kind(t) == k && token_len(s, t) == n;
    lemma_hex_only_int(s, t);
    assert(k == SyntaxKind::INT_LITERAL);
    assert(s.take(n as int) =~= s);
    assert(s.skip(n as int) =~= Seq::<char>::empty());
    assert(tokenize(s.skip(n as int)) =~= Seq::<(SyntaxKind, Seq<char>)>::empty());
}

/// Every token of the source has a non-empty text.
pub proof fn lemma_tokenize_nonempty(s: Seq<char>)
    ensures
        forall|i: int| 0 <= i < tokenize(s).len() ==> (#[trigger] tokenize(s)[i]).1.len() >= 1,
        forall|i: int| 0 <= i < tokenize(s).len() ==> (#[trigger] tokenize(s)[i]).0 != SyntaxKind::EOF,
        tokenize(s).len() <= s.len(),
    decreases s.len(),
{
    if s.len() > 0 {
        lemma_scan_longest(s);
        let (k, n) = scan(s);
        lemma_tokenize_nonempty(s.skip(n as int));
        let rest = tokenize(s.skip(n as int));
        assert forall|i: int| 0 <= i < tokenize(s).len() implies (#[trigger] tokenize(
            s,
        )[i]).1.len() >= 1 && tokenize(s)[i].0 != SyntaxKind::EOF by {
            if i > 0 {
                assert(tokenize(s)[i] == rest[i - 1]);
            }
        }
    }
}


// ---------------------------------------------------------------------------
// The scanner
// ---------------------------------------------------------------------------

fn literal_chars(t: Token) -> (r: Option<Vec<char>>)
    ensures
        r matches Some(v) ==> literal_text(t) == Some(v@),
        r is None ==> literal_text(t) is None,
{
    match t {
        Token::CONST_KW => Some(vec!['c', 'o', 'n', 's', 't']),
        Token::INT_KW => Some(vec!['i', 'n', 't']),
        Token::FLOAT_KW => Some(vec!['f', 'l', 'o', 'a', 't']),
        Token::VOID_KW => Some(vec!['v', 'o', 'i', 'd']),
        Token::IF_KW => Some(vec!['i', 'f']),
        Token::ELSE_KW => Some(vec!['e', 'l', 's', 'e']),
        Token::WHILE_KW => Some(vec!['w', 'h', 'i', 'l', 'e']),
        Token::BREAK_KW => Some(vec!['b', 'r', 'e', 'a', 'k']),
        Token::CONTINUE_KW => Some(vec!['c', 'o', 'n', 't', 'i', 'n', 'u', 'e']),
        Token::RETURN_KW => Some(vec!['r', 'e', 't', 'u', 'r', 'n']),
        Token::STRUCT_KW => Some(vec!['s', 't', 'r', 'u', 'c', 't']),
        Token::IMPL_KW => Some(vec!['i', 'm', 'p', 'l']),
        Token::EQ => Some(vec!['=']),
        Token::SEMI => Some(vec![';']),
        Token::COMMA => Some(vec![',']),
        Token::L_BRACE => Some(vec!['{']),
        Token::R_BRACE => Some(vec!['}']),
        Token::L_PAREN => Some(vec!['(']),
        Token::R_PAREN => Some(vec![')']),
        Token::L_BRACK => Some(vec!['[']),
        Token::R_BRACK => Some(vec![']']),
        Token::STAR => Some(vec!['*']),
        Token::DOT => Some(vec!['.']),
        Token::ARROW => Some(vec!['-', '>']),
        Token::PLUS => Some(vec!['+']),
        Token::MINUS => Some(vec!['-']),
        Token::SLASH => Some(vec!['/']),
        Token::PERCENT => Some(vec!['%']),
        Token::EQEQ => Some(vec!['=', '=']),
        Token::NEQ => Some(vec!['!', '=']),
        Token::LT => Some(vec!['<']),
        Token::GT => Some(vec!['>']),
        Token::LTEQ => Some(vec!['<', '=']),
        Token::GTEQ => Some(vec!['>', '=']),
        Token::AMPAMP => Some(vec!['&', '&']),
        Token::PIPEPIPE => Some(vec!['|', '|']),
        Token::BANG => Some(vec!['!']),
        Token::AMP => Some(vec!['&']),
        _ => None,
    }
}

fn token_order_vec() -> (v: Vec<Token>)
    ensures
        v@ == token_order(),
{
    let v: Vec<Token> = vec![
        Token::CONST_KW,
        Token::INT_KW,
        Token::FLOAT_KW,
        Token::VOID_KW,
        Token::IF_KW,
        Token::ELSE_KW,
        Token::WHILE_KW,
        Token::BREAK_KW,
        Token::CONTINUE_KW,
        Token::RETURN_KW,
        Token::STRUCT_KW,
        Token::IMPL_KW,
        Token::EQ,
        Token::SEMI,
        Token::COMMA,
        Token::L_BRACE,
        Token::R_BRACE,
        Token::L_PAREN,
        Token::R_PAREN,
        Token::L_BRACK,
        Token::R_BRACK,
        Token::STAR,
        Token::DOT,
        Token::ARROW,
        Token::PLUS,
        Token::MINUS,
        Token::SLASH,
        Token::PERCENT,
        Token::EQEQ,
        Token::NEQ,
        Token::LT,
        Token::GT,
        Token::LTEQ,
        Token::GTEQ,
        Token::AMPAMP,
        Token::PIPEPIPE,
        Token::BANG,
        Token::AMP,
        Token::WHITESPACE,
        Token::NEWLINE,
        Token::COMMENT_LINE,
        Token::COMMENT_BLOCK,
        Token::INT_LITERAL,
        Token::FLOAT_LITERAL,
        Token::IDENT,
    ];
    assert(v@ =~= token_order());
    v
}

/// Whether the characters from `i` on start with `lit`.
fn starts_with_at(chars: &Vec<char>, i: usize, lit: &Vec<char>) -> (r: bool)
    requires
        i <= chars.len(),
    ensures
        r == starts_with(chars@.skip(i as int), lit@),
{
    if lit.len() > chars.len() - i {
        return false;
    }
    let mut k: usize = 0;
    while k < lit.len()
        invariant
            k <= lit.len(),
            i + lit.len() <= chars.len(),
            forall|m: int| 0 <= m < k ==> chars@[i + m] == lit@[m],
        decreases lit.len() - k,
    {
        if chars[i + k] != lit[k] {
            proof {
                assert(chars@.skip(i as int).take(lit.len() as int)[k as int] != lit@[k as int]);
            }
            return false;
        }
        k = k + 1;
    }
    assert(chars@.skip(i as int).take(lit.len() as int) =~= lit@);
    true
}

/// The first `k >= j` with `*/` at `k`, counted from `i`.
fn find_block_close(chars: &Vec<char>, i: usize, j: usize) -> (r: Option<usize>)
    requires
        i <= j,
        i <= chars.len(),
    ensures
        r matches Some(k) ==> block_close(chars@.skip(i as int), (j - i) as int) == Some(k as int)
            && i + k + 1 < chars.len(),
        r is None ==> block_close(chars@.skip(i as int), (j - i) as int) is None,
{
    let ghost s = chars@.skip(i as int);
    let mut k = j;
    while k < chars.len() && k + 1 < chars.len() && !(chars[k] == '*' && chars[k + 1] == '/')
        invariant
            i <= j <= k,
            k <= chars.len() || k == j,
            i <= chars.len(),
            s == chars@.skip(i as int),
            block_close(s, (j - i) as int) == block_close(s, (k - i) as int),
        decreases chars.len() - k,
    {
        assert(s[(k - i) as int] == chars@[k as int]);
        assert(s[(k - i) + 1] == chars@[k + 1]);
        k = k + 1;
    }
    if k < chars.len() && k + 1 < chars.len() {
        assert(s[(k - i) as int] == chars@[k as int]);
        assert(s[(k - i) + 1] == chars@[k + 1]);
        Some(k - i)
    } else {
        None
    }
}

/// The length of the match of `t` at position `i`.
fn token_length(chars: &Vec<char>, i: usize, t: Token) -> (r: usize)
    requires
        i <= chars.len(),
    ensures
        r == token_len(chars@.skip(i as int), t),
{
    let ghost s = chars@.skip(i as int);
    let n = chars.len() - i;
    proof {
        if n >= 1 { assert(s[0] == chars@[i as int]); }
        if n >= 2 { assert(s[1] == chars@[i + 1]); }
        if n >= 3 { assert(s[2] == chars@[i + 2]); }
    }
    match literal_chars(t) {
        Some(lit) => {
            if starts_with_at(chars, i, &lit) {
                lit.len()
            } else {
                0
            }
        },
        None => match t {
            Token::WHITESPACE => run_length(chars, i, CharClass::Space),
            Token::NEWLINE => {
                if n >= 2 && chars[i] == '\r' && chars[i + 1] == '\n' {
                    2
                } else if n >= 1 && (chars[i] == '\n' || chars[i] == '\r') {
                    1
                } else {
                    0
                }
            },
            Token::COMMENT_LINE => {
                if n >= 2 && chars[i] == '/' && chars[i + 1] == '/' {
                    assert(s.skip(2) =~= chars@.skip(i + 2));
                    2 + run_length(chars, i + 2, CharClass::NotNewline)
                } else {
                    0
                }
            },
            Token::COMMENT_BLOCK => {
                if n >= 2 && chars[i] == '/' && chars[i + 1] == '*' {
                    match find_block_close(chars, i, i + 2) {
                        Some(j) => j + 2,
                        None => 0,
                    }
                } else {
                    0
                }
            },
            Token::IDENT => {
                if n >= 1 && (('a' <= chars[i] && chars[i] <= 'z') || ('A' <= chars[i] && chars[i]
                    <= 'Z') || chars[i] == '_') {
                    assert(s.skip(1) =~= chars@.skip(i + 1));
                    1 + run_length(chars, i + 1, CharClass::IdentRest)
                } else {
                    0
                }
            },
            Token::INT_LITERAL => {
                if n >= 1 && chars[i] == '0' {
                    if n >= 3 && (chars[i + 1] == 'x' || chars[i + 1] == 'X') && char_in_class(
                        chars[i + 2],
                        CharClass::HexDigit,
                    ) {
                        assert(s.skip(2) =~= chars@.skip(i + 2));
                        2 + run_length(chars, i + 2, CharClass::HexDigit)
                    } else {
                        assert(s.skip(1) =~= chars@.skip(i + 1));
                        1 + run_length(chars, i + 1, CharClass::OctDigit)
                    }
                } else if n >= 1 && '1' <= chars[i] && chars[i] <= '9' {
                    assert(s.skip(1) =~= chars@.skip(i + 1));
                    1 + run_length(chars, i + 1, CharClass::Digit)
                } else {
                    0
                }
            },
            Token::FLOAT_LITERAL => float_length(chars, i),
            _ => 0,
        },
    }
}

fn float_length(chars: &Vec<char>, i: usize) -> (r: usize)
    requires
        i <= chars.len(),
    ensures
        r == token_len(chars@.skip(i as int), Token::FLOAT_LITERAL),
{
    let ghost s = chars@.skip(i as int);
    let n = chars.len() - i;
    let d = run_length(chars, i, CharClass::Decimal);
    let b: usize = if d > 0 {
        if d < n && chars[i + d] == '.' {
            assert(s[d as int] == chars@[i + d]);
            assert(s.skip(d + 1 as int) =~= chars@.skip(i + d + 1));
            d + 1 + run_length(chars, i + d + 1, CharClass::Decimal)
        } else {
            proof { if d < n { assert(s[d as int] == chars@[i + d]); } }
            d
        }
    } else if n >= 2 && chars[i] == '.' {
        assert(s[0] == chars@[i as int]);
        assert(s.skip(1) =~= chars@.skip(i + 1));
        let e = run_length(chars, i + 1, CharClass::Decimal);
        if e > 0 {
            1 + e
        } else {
            0
        }
    } else {
        proof { if n >= 1 { assert(s[0] == chars@[i as int]); } }
        0
    };
    assert(b == float_base_len(s));
    if b == 0 {
        return 0;
    }
    proof {
        lemma_float_len_bound(s);
    }
    if b < n && (chars[i + b] == 'e' || chars[i + b] == 'E') {
        assert(s[b as int] == chars@[i + b]);
        let k: usize = if b + 1 < n && (chars[i + b + 1] == '+' || chars[i + b + 1] == '-') {
            assert(s[b + 1 as int] == chars@[i + b + 1]);
            b + 2
        } else {
            proof { if b + 1 < n { assert(s[b + 1 as int] == chars@[i + b + 1]); } }
            b + 1
        };
        assert(s.skip(k as int) =~= chars@.skip(i + k));
        let e = run_length(chars, i + k, CharClass::Decimal);
        if e > 0 {
            k + e
        } else {
            b
        }
    } else {
        proof { if b < n { assert(s[b as int] == chars@[i + b]); } }
        b
    }
}

/// The kind and length of the token that starts at `i`.
pub fn scan_at(chars: &Vec<char>, i: usize) -> (r: (SyntaxKind, usize))
    requires
        i < chars.len(),
    ensures
        r.0 == scan(chars@.skip(i as int)).0,
        r.1 == scan(chars@.skip(i as int)).1,
        1 <= r.1 <= chars.len() - i,
{
    let ghost s = chars@.skip(i as int);
    let order = token_order_vec();
    let mut best: Option<Token> = None;
    let mut best_len: usize = 0;
    let mut k: usize = 0;
    while k < order.len()
        invariant
            k <= order.len(),
            order@ == token_order(),
            i < chars.len(),
            s == chars@.skip(i as int),
            (best, best_len as nat) == best_among(s, k as nat),
        decreases order.len() - k,
    {
        let t = order[k];
        let l = token_length(chars, i, t);
        if l > best_len {
            best = Some(t);
            best_len = l;
        }
        k = k + 1;
    }
    proof {
        lemma_scan_longest(s);
    }
    match best {
        Some(t) => (SyntaxKind::from(t), best_len),
        None => (SyntaxKind::ERROR, 1),
    }
}

// ---------------------------------------------------------------------------
// Errors of the lexer
// ---------------------------------------------------------------------------

/// What went wrong in a token.
#[derive(Debug, Clone, PartialEq, Eq, Structural)]
pub enum LexerErrorKind {
    InvalidInteger,
    InvalidFloat,
    Unknown,
}

impl Default for LexerErrorKind {
    fn default() -> (r: Self)
        ensures
            r == LexerErrorKind::Unknown,
    {
        LexerErrorKind::Unknown
    }
}

/// A token that could not be read, with its text and its byte span.
#[derive(Debug, Clone)]
pub struct LexerError {
    pub kind: LexerErrorKind,
    pub text: String,
    pub span_start: usize,
    pub span_end: usize,
}

/// The name of an error kind, as its derived `Debug` impl writes it.
pub open spec fn error_kind_text(kind: LexerErrorKind) -> Seq<char> {
    match kind {
        LexerErrorKind::InvalidInteger => "InvalidInteger"@,
        LexerErrorKind::InvalidFloat => "InvalidFloat"@,
        LexerErrorKind::Unknown => "Unknown"@,
    }
}

/// The message of a lexer error: `Lexer error: {kind} at {start}..{end}: {text}`.
pub open spec fn lexer_error_message(kind: LexerErrorKind, start: usize, end: usize, text: Seq<char>) -> Seq<char> {
    "Lexer error: "@ + error_kind_text(kind) + " at "@ + radix_digits(start as nat, 10) + ".."@ + radix_digits(
        end as nat,
        10,
    ) + ": "@ + text
}

impl LexerError {
    /// The message of the error, as `lexer_error_message` says.
    pub fn message(&self) -> (r: String)
        ensures
            r@ == lexer_error_message(self.kind, self.span_start, self.span_end, self.text@),
    {
        let kind = match self.kind {
            LexerErrorKind::InvalidInteger => "InvalidInteger",
            LexerErrorKind::InvalidFloat => "InvalidFloat",
            LexerErrorKind::Unknown => "Unknown",
        };
        let start = decimal_text(self.span_start as u64);
        let end = decimal_text(self.span_end as u64);
        let s = concat_str("Lexer error: ", kind);
        let s = concat_str(s.as_str(), " at ");
        let s = concat_str(s.as_str(), start.as_str());
        let s = concat_str(s.as_str(), "..");
        let s = concat_str(s.as_str(), end.as_str());
        let s = concat_str(s.as_str(), ": ");
        let s = concat_str(s.as_str(), self.text.as_str());
        proof {
            reveal_strlit("InvalidInteger");
            reveal_strlit("InvalidFloat");
            reveal_strlit("Unknown");
            reveal_strlit("Lexer error: ");
            reveal_strlit(" at ");
            reveal_strlit("..");
            reveal_strlit(": ");
            assert(s@ =~= lexer_error_message(self.kind, self.span_start, self.span_end, self.text@));
        }
        s
    }
}

// ---------------------------------------------------------------------------
// The lexer over a token stream
// ---------------------------------------------------------------------------

/// The index of the first token at or after `i` that is not trivia (or the length).
pub open spec fn next_non_trivia(toks: Seq<(SyntaxKind, Seq<char>)>, i: int) -> int
    decreases toks.len() - i,
{
    if i < 0 || i >= toks.len() {
        i
    } else if trivia_kind(toks[i].0) {
        next_non_trivia(toks, i + 1)
    } else {
        i
    }
}

/// The kind of the token at `i`, or `EOF` past the end.
pub open spec fn kind_at(toks: Seq<(SyntaxKind, Seq<char>)>, i: int) -> SyntaxKind {
    if 0 <= i < toks.len() {
        toks[i].0
    } else {
        SyntaxKind::EOF
    }
}

pub proof fn lemma_next_non_trivia(toks: Seq<(SyntaxKind, Seq<char>)>, i: int)
    requires
        0 <= i,
    ensures
        i <= next_non_trivia(toks, i),
        i <= toks.len() ==> next_non_trivia(toks, i) <= toks.len(),
        next_non_trivia(toks, i) < toks.len() ==> !trivia_kind(toks[next_non_trivia(toks, i)].0),
        forall|k: int| i <= k < next_non_trivia(toks, i) ==> trivia_kind(#[trigger] toks[k].0),
        next_non_trivia(toks, i) > i ==> next_non_trivia(toks, i + 1) == next_non_trivia(toks, i),
    decreases toks.len() - i,
{
    if i < toks.len() && trivia_kind(toks[i].0) {
        lemma_next_non_trivia(toks, i + 1);
    }
}

/// The view of a token list: each kind with its text.
pub open spec fn view_tokens(tokens: Seq<(SyntaxKind, String)>) -> Seq<(SyntaxKind, Seq<char>)> {
    tokens.map_values(|t: (SyntaxKind, String)| (t.0, t.1@))
}

/// The lexer: the tokens of a source text and a cursor into them.
pub struct Lexer {
    tokens: Vec<(SyntaxKind, String)>,
    pos: usize,
    pos_skip_trivia: usize,
    pos_skip_trivia_1: usize,
}

impl Lexer {
    /// The tokens, each as its kind and text.
    pub closed spec fn tokens_view(&self) -> Seq<(SyntaxKind, Seq<char>)> {
        view_tokens(self.tokens@)
    }

    /// The index of the current token.
    pub closed spec fn pos_view(&self) -> nat {
        self.pos as nat
    }

    /// The cursor is within the tokens and the look-ahead positions are those
    /// of the next and the one after the next non-trivia token.
    pub closed spec fn wf(&self) -> bool {
        let toks = self.tokens_view();
        &&& self.tokens.len() < usize::MAX
        &&& self.pos <= self.tokens.len()
        &&& self.pos_skip_trivia == next_non_trivia(toks, self.pos as int)
        &&& self.pos_skip_trivia_1 == next_non_trivia(toks, self.pos_skip_trivia + 1)
    }

    /// The kind of the current non-trivia token, or `EOF`.
    pub open spec fn peek_kind(&self) -> SyntaxKind {
        kind_at(self.tokens_view(), next_non_trivia(self.tokens_view(), self.pos_view() as int))
    }

    /// The kind of the non-trivia token after the current one, or `EOF`.
    pub open spec fn peek_kind_1(&self) -> SyntaxKind {
        let toks = self.tokens_view();
        kind_at(toks, next_non_trivia(toks, next_non_trivia(toks, self.pos_view() as int) + 1))
    }

    /// Splits `text` into its tokens and places the cursor on the first.
    pub fn new(text: &str) -> (r: Lexer)
        requires
            text@.len() < usize::MAX,
        ensures
            r.wf(),
            r.tokens_view() == tokenize(text@),
            r.pos_view() == 0,
    {
        let chars = chars_of(text);
        let ghost src = chars@;
        let mut tokens: Vec<(SyntaxKind, String)> = Vec::new();
        let mut i: usize = 0;
        proof {
            assert(src.skip(0) =~= src);
        }
        while i < chars.len()
            invariant
                i <= chars.len(),
                src == chars@,
                view_tokens(tokens@) + tokenize(src.skip(i as int)) == tokenize(src),
            decreases chars.len() - i,
        {
            let (kind, len) = scan_at(&chars, i);
            let t = string_of_range(&chars, i, i + len);
            let ghost rest = src.skip(i as int);
            proof {
                assert(rest.take(len as int) =~= src.subrange(i as int, i + len));
                assert(rest.skip(len as int) =~= src.skip(i + len));
            }
            let ghost before = view_tokens(tokens@);
            tokens.push((kind, t));
            proof {
                assert(view_tokens(tokens@) =~= before.push((kind, t@)));
                assert(tokenize(rest) == seq![(kind, rest.take(len as int))] + tokenize(
                    rest.skip(len as int),
                ));
                assert(view_tokens(tokens@) + tokenize(src.skip(i + len)) =~= before + tokenize(
                    rest,
                ));
            }
            i = i + len;
        }
        proof {
            assert(src.skip(i as int) =~= Seq::<char>::empty());
            assert(view_tokens(tokens@) =~= tokenize(src));
            lemma_tokenize_nonempty(src);
        }
        let pos_skip_trivia = Self::get_next_non_trivia_pos(&tokens, 0);
        proof {
            lemma_next_non_trivia(view_tokens(tokens@), 0);
        }
        let pos_skip_trivia_1 = Self::get_next_non_trivia_pos(&tokens, pos_skip_trivia + 1);
        Lexer { tokens, pos: 0, pos_skip_trivia, pos_skip_trivia_1 }
    }

    /// The index of the first non-trivia token from `start_pos` on.
    fn get_next_non_trivia_pos(tokens: &Vec<(SyntaxKind, String)>, start_pos: usize) -> (r: usize)
        ensures
            r == next_non_trivia(view_tokens(tokens@), start_pos as int),
    {
        let ghost toks = view_tokens(tokens@);
        let mut pos = start_pos;
        while pos < tokens.len() && tokens[pos].0.is_trivia()
            invariant
                toks == view_tokens(tokens@),
                next_non_trivia(toks, start_pos as int) == next_non_trivia(toks, pos as int),
                start_pos <= pos,
            decreases tokens.len() - pos,
        {
            assert(toks[pos as int].0 == tokens@[pos as int].0);
            pos += 1;
        }
        proof {
            if pos < tokens.len() {
                assert(toks[pos as int].0 == tokens@[pos as int].0);
            }
        }
        pos
    }

    /// The kind of the current token, or `EOF` past the end.
    pub fn current(&self) -> (r: SyntaxKind)
        requires
            self.wf(),
        ensures
            r == kind_at(self.tokens_view(), self.pos_view() as int),
    {
        if self.pos < self.tokens.len() {
            self.tokens[self.pos].0
        } else {
            SyntaxKind::EOF
        }
    }

    /// The text of the current token, or the empty string past the end.
    pub fn current_text(&self) -> (r: &str)
        requires
            self.wf(),
        ensures
            r@ == (if self.pos_view() < self.tokens_view().len() {
                self.tokens_view()[self.pos_view() as int].1
            } else {
                Seq::empty()
            }),
    {
        if self.pos < self.tokens.len() {
            self.tokens[self.pos].1.as_str()
        } else {
            proof {
                reveal_strlit("");
            }
            ""
        }
    }

    /// The kind of the current non-trivia token, or `EOF`.
    pub fn current_without_trivia(&self) -> (r: SyntaxKind)
        requires
            self.wf(),
        ensures
            r == self.peek_kind(),
    {
        if self.pos_skip_trivia < self.tokens.len() {
            self.tokens[self.pos_skip_trivia].0
        } else {
            SyntaxKind::EOF
        }
    }

    /// The kind of the non-trivia token after the current one, or `EOF`.
    pub fn current_without_trivia_1(&self) -> (r: SyntaxKind)
        requires
            self.wf(),
        ensures
            r == self.peek_kind_1(),
    {
        if self.pos_skip_trivia_1 < self.tokens.len() {
            self.tokens[self.pos_skip_trivia_1].0
        } else {
            SyntaxKind::EOF
        }
    }

    /// Moves to the next token, unless already past the end.
    pub fn bump(&mut self)
        requires
            old(self).wf(),
        ensures
            final(self).wf(),
            final(self).tokens_view() == old(self).tokens_view(),
            final(self).pos_view() == (if old(self).pos_view() < old(self).tokens_view().len() {
                old(self).pos_view() + 1
            } else {
                old(self).pos_view()
            }),
    {
        let ghost toks = self.tokens_view();
        proof {
            lemma_next_non_trivia(toks, self.pos as int);
        }
        if self.pos < self.tokens.len() {
            self.pos += 1;
            if self.pos > self.pos_skip_trivia {
                proof {
                    lemma_next_non_trivia(toks, self.pos_skip_trivia + 1);
                }
                self.pos_skip_trivia = self.pos_skip_trivia_1;
                self.pos_skip_trivia_1 = Self::get_next_non_trivia_pos(
                    &self.tokens,
                    self.pos_skip_trivia_1 + 1,
                );
            }
        }
    }

    /// Whether the current token has kind `kind`.
    pub fn at(&self, kind: SyntaxKind) -> (r: bool)
        requires
            self.wf(),
        ensures
            r == (kind_at(self.tokens_view(), self.pos_view() as int) == kind),
    {
        self.current() == kind
    }

    /// The text of the tokens from the cursor on.
    pub closed spec fn rest_text(&self) -> Seq<char> {
        tokens_text(self.tokens_view().skip(self.pos_view() as int))
    }

    /// Reading a lexer over `s` with `current`, `current_text` and `bump`:
    /// at the start the text still to read is all of `s`; the current kind is
    /// `EOF` exactly when every token has been read; otherwise the current
    /// text is non-empty and the text still to read is the current text
    /// followed by what is left after one `bump`. So a loop that collects
    /// `current_text` and calls `bump` until `current` is `EOF`, started on
    /// `Lexer::new(s)`, collects non-empty texts that make up `s`, in order.
    pub proof fn lemma_reading(&self, s: Seq<char>)
        requires
            self.wf(),
            self.tokens_view() == tokenize(s),
        ensures
            self.pos_view() == 0 ==> self.rest_text() == s,
            (kind_at(self.tokens_view(), self.pos_view() as int) == SyntaxKind::EOF) == (
            self.pos_view() == self.tokens_view().len()),
            self.pos_view() < self.tokens_view().len() ==> {
                let toks = self.tokens_view();
                let p = self.pos_view() as int;
                &&& toks[p].1.len() > 0
                &&& self.rest_text() == toks[p].1 + tokens_text(toks.skip(p + 1))
            },
    {
        let toks = self.tokens_view();
        let p = self.pos_view() as int;
        lemma_tokenize_lossless(s);
        lemma_tokenize_nonempty(s);
        assert(toks.skip(0) =~= toks);
        if p < toks.len() {
            assert(toks.skip(p).drop_first() =~= toks.skip(p + 1));
            assert(toks.skip(p)[0] == toks[p]);
        }
    }
}

/// Why reading a source text failed.
#[derive(Debug)]
pub enum Error {
    LexerError(LexerError),
}

impl From<LexerError> for Error {
    fn from(e: LexerError) -> (r: Error) {
        Error::LexerError(e)
    }
}

impl vstd::std_specs::convert::FromSpecImpl<LexerError> for Error {
    open spec fn obeys_from_spec() -> bool {
        true
    }

    open spec fn from_spec(e: LexerError) -> Error {
        Error::LexerError(e)
    }
}

} // verus!
