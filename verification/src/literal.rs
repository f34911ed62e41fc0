//! Literals: the type and the compile-time value of each literal of the
//! source, or the error it has.

use vstd::prelude::*;

use crate::error::AnalyzeError;
use crate::module::{at_range, bind_range, same_symbols, Module, TextRange};
use crate::text::{
    chars_of, concat_str, decimal_text, hex_text, pad_left, push_char, radix_digits,
    string_of_range,
};
use crate::types::{is_int, ty_view, Ty, TyView};
use crate::value::{int_max, int_ty_name, int_ty_text, int_value, Value, ValueView};

verus! {

/// The token that makes a literal.
#[derive(Debug)]
pub enum LiteralToken {
    Null,
    /// A string literal, with its quotes.
    Str(String),
    /// A character literal, with its quotes.
    Char(String),
    True,
    False,
    /// An integer literal, maybe with a base prefix and a type suffix.
    Int(String),
    /// A literal node without a token.
    Missing,
}

// ---------------------------------------------------------------------------
// Unescaping
// ---------------------------------------------------------------------------

/// What `snailquote::unescape` gives for a text: the unescaped text, or the
/// message of its error.
pub uninterp spec fn unescaped(s: Seq<char>) -> Result<Seq<char>, Seq<char>>;

/// Calls `snailquote::unescape`, which removes the quotes of a shell-like
/// quoted text and replaces its escapes; an error is given as its message.
#[verifier::external_body]
fn unescape(s: &str) -> (r: Result<String, String>)
    ensures
        match r {
            Ok(t) => unescaped(s@) == Ok::<Seq<char>, Seq<char>>(t@),
            Err(m) => unescaped(s@) == Err::<Seq<char>, Seq<char>>(m@),
        },
{
    match snailquote::unescape(s) {
        Ok(t) => Ok(t),
        Err(e) => Err(e.to_string()),
    }
}

// ---------------------------------------------------------------------------
// Integer literals
// ---------------------------------------------------------------------------

/// Whether `s` ends with `suffix`.
pub open spec fn ends_with(s: Seq<char>, suffix: Seq<char>) -> bool {
    s.len() >= suffix.len() && s.skip(s.len() - suffix.len()) == suffix
}

/// The digits of an integer literal and the type its suffix names (`i32` without one).
pub open spec fn literal_suffix(s: Seq<char>) -> (Seq<char>, TyView) {
    if ends_with(s, seq!['i', '6', '4']) {
        (s.take(s.len() - 3), TyView::I64)
    } else if ends_with(s, seq!['u', '6', '4']) {
        (s.take(s.len() - 3), TyView::U64)
    } else if ends_with(s, seq!['i', '3', '2']) {
        (s.take(s.len() - 3), TyView::I32)
    } else if ends_with(s, seq!['u', '3', '2']) {
        (s.take(s.len() - 3), TyView::U32)
    } else if ends_with(s, seq!['i', '8']) {
        (s.take(s.len() - 2), TyView::I8)
    } else if ends_with(s, seq!['u', '8']) {
        (s.take(s.len() - 2), TyView::U8)
    } else {
        (s, TyView::I32)
    }
}

/// The digits after a base prefix (`0x`, `0o`, `0b`, either case) and the base.
pub open spec fn literal_radix(p: Seq<char>) -> (Seq<char>, nat) {
    if p.len() >= 2 && p[0] == '0' && (p[1] == 'x' || p[1] == 'X') {
        (p.skip(2), 16)
    } else if p.len() >= 2 && p[0] == '0' && (p[1] == 'o' || p[1] == 'O') {
        (p.skip(2), 8)
    } else if p.len() >= 2 && p[0] == '0' && (p[1] == 'b' || p[1] == 'B') {
        (p.skip(2), 2)
    } else {
        (p, 10)
    }
}

/// The value of a digit in base `radix`: `0`-`9`, then letters of either case.
pub open spec fn digit_value(c: char, radix: nat) -> Option<nat> {
    let v: int = if '0' <= c <= '9' {
        c as int - '0' as int
    } else if 'a' <= c <= 'z' {
        c as int - 'a' as int + 10
    } else if 'A' <= c <= 'Z' {
        c as int - 'A' as int + 10
    } else {
        -1
    };
    if 0 <= v < radix {
        Some(v as nat)
    } else {
        None
    }
}

/// The number that the digits `ds` write in base `radix`, if each is a digit.
pub open spec fn digits_value(ds: Seq<char>, radix: nat) -> Option<nat>
    decreases ds.len(),
{
    if ds.len() == 0 {
        Some(0)
    } else {
        match (digits_value(ds.drop_last(), radix), digit_value(ds.last(), radix)) {
            (Some(v), Some(d)) => Some(v * radix + d),
            _ => None,
        }
    }
}

/// What `u128::from_str_radix` gives: an optional `+` and at least one digit,
/// whose value fits in a `u128`.
pub open spec fn parse_u128(s: Seq<char>, radix: nat) -> Option<nat> {
    let ds = if s.len() > 0 && s[0] == '+' {
        s.skip(1)
    } else {
        s
    };
    if ds.len() == 0 {
        None
    } else {
        match digits_value(ds, radix) {
            Some(v) => if v <= u128::MAX {
                Some(v)
            } else {
                None
            },
            None => None,
        }
    }
}

/// The type and the number of an integer literal, or `None` when its digits
/// do not make a `u128`.
pub open spec fn int_literal(s: Seq<char>) -> Option<(TyView, nat)> {
    let (p, t) = literal_suffix(s);
    let (ds, radix) = literal_radix(p);
    match parse_u128(ds, radix) {
        Some(v) => Some((t, v)),
        None => None,
    }
}

proof fn lemma_digits_prefix(ds: Seq<char>, radix: nat, k: int)
    requires
        radix >= 1,
        0 <= k <= ds.len(),
        digits_value(ds, radix) is Some,
    ensures
        digits_value(ds.take(k), radix) is Some,
        digits_value(ds.take(k), radix)->0 <= digits_value(ds, radix)->0,
    decreases ds.len(),
{
    if k == ds.len() {
        assert(ds.take(k) =~= ds);
    } else {
        lemma_digits_prefix(ds.drop_last(), radix, k);
        assert(ds.drop_last().take(k) =~= ds.take(k));
        let v = digits_value(ds.drop_last(), radix)->0;
        let d = digit_value(ds.last(), radix)->0;
        assert(v <= v * radix + d) by (nonlinear_arith)
            requires
                radix >= 1,
        ;
    }
}

fn digit_of_char(c: char, radix: u32) -> (r: Option<u32>)
    requires
        2 <= radix <= 16,
    ensures
        r matches Some(d) ==> digit_value(c, radix as nat) == Some(d as nat),
        r is None ==> digit_value(c, radix as nat) is None,
{
    let v: i64 = if '0' <= c && c <= '9' {
        (c as u32 - '0' as u32) as i64
    } else if 'a' <= c && c <= 'z' {
        (c as u32 - 'a' as u32) as i64 + 10
    } else if 'A' <= c && c <= 'Z' {
        (c as u32 - 'A' as u32) as i64 + 10
    } else {
        -1
    };
    if 0 <= v && v < radix as i64 {
        Some(v as u32)
    } else {
        None
    }
}

/// Reads `cs[from..]` as an unsigned number in base `radix`, as `u128::from_str_radix` does.
fn parse_digits(cs: &Vec<char>, from: usize, radix: u32) -> (r: Option<u128>)
    requires
        from <= cs.len(),
        2 <= radix <= 16,
    ensures
        r matches Some(v) ==> parse_u128(cs@.skip(from as int), radix as nat) == Some(v as nat),
        r is None ==> parse_u128(cs@.skip(from as int), radix as nat) is None,
{
    let ghost s = cs@.skip(from as int);
    let mut start = from;
    if start < cs.len() && cs[start] == '+' {
        start = start + 1;
    }
    let ghost ds = cs@.skip(start as int);
    proof {
        if s.len() > 0 && s[0] == '+' {
            assert(s.skip(1) =~= ds);
        } else {
            assert(s =~= ds);
        }
    }
    if start == cs.len() {
        return None;
    }
    let mut value: u128 = 0;
    let mut k: usize = start;
    assert(ds.take(0) =~= Seq::<char>::empty());
    assert(parse_u128(s, radix as nat) == match digits_value(ds, radix as nat) {
        Some(v) => if v <= u128::MAX { Some(v) } else { None },
        None => None,
    });
    while k < cs.len()
        invariant
            start <= k <= cs.len(),
            ds == cs@.skip(start as int),
            s == cs@.skip(from as int),
            parse_u128(s, radix as nat) == match digits_value(ds, radix as nat) {
                Some(v) => if v <= u128::MAX { Some(v) } else { None },
                None => None,
            },
            2 <= radix <= 16,
            digits_value(ds.take(k - start), radix as nat) == Some(value as nat),
        decreases cs.len() - k,
    {
        let ghost pre = ds.take(k - start);
        proof {
            assert(ds.take(k - start + 1).drop_last() =~= pre);
            assert(ds.take(k - start + 1).last() == cs@[k as int]);
        }
        match digit_of_char(cs[k], radix) {
            None => {
                proof {
                    assert(digits_value(ds.take(k - start + 1), radix as nat) is None);
                    if digits_value(ds, radix as nat) is Some {
                        lemma_digits_prefix(ds, radix as nat, k - start + 1);
                    }
                }
                return None;
            },
            Some(d) => {
                let next = match value.checked_mul(radix as u128) {
                    Some(m) => m.checked_add(d as u128),
                    None => None,
                };
                match next {
                    Some(n) => {
                        value = n;
                    },
                    None => {
                        proof {
                            let v1 = (value as nat) * (radix as nat) + d as nat;
                            assert(v1 > u128::MAX) by (nonlinear_arith)
                                requires
                                    value as nat * radix as nat > u128::MAX || value as nat * radix as nat + d as nat > u128::MAX,
                                    v1 == value as nat * radix as nat + d as nat,
                            ;
                            assert(digits_value(ds.take(k - start + 1), radix as nat) == Some(v1));
                            if digits_value(ds, radix as nat) is Some {
                                lemma_digits_prefix(ds, radix as nat, k - start + 1);
                            }
                        }
                        return None;
                    },
                }
            },
        }
        k += 1;
    }
    proof {
        assert(ds.take(k - start) =~= ds);
    }
    Some(value)
}


/// Whether `cs` ends with the characters `a`, `b`.
fn ends_in2(cs: &Vec<char>, a: char, b: char) -> (r: bool)
    ensures
        r == ends_with(cs@, seq![a, b]),
{
    let n = cs.len();
    let r = n >= 2 && cs[n - 2] == a && cs[n - 1] == b;
    proof {
        if n >= 2 {
            let t = cs@.skip(n - 2);
            assert(t[0] == cs@[n - 2]);
            assert(t[1] == cs@[n - 1]);
            if r {
                assert(t =~= seq![a, b]);
            }
        }
    }
    r
}

/// Whether `cs` ends with the characters `a`, `b`, `c`.
fn ends_in3(cs: &Vec<char>, a: char, b: char, c: char) -> (r: bool)
    ensures
        r == ends_with(cs@, seq![a, b, c]),
{
    let n = cs.len();
    let r = n >= 3 && cs[n - 3] == a && cs[n - 2] == b && cs[n - 1] == c;
    proof {
        if n >= 3 {
            let t = cs@.skip(n - 3);
            assert(t[0] == cs@[n - 3]);
            assert(t[1] == cs@[n - 2]);
            assert(t[2] == cs@[n - 1]);
            if r {
                assert(t =~= seq![a, b, c]);
            }
        }
    }
    r
}

/// Removes the type suffix of an integer literal and gives the type it names.
fn split_suffix(cs: &mut Vec<char>) -> (t: Ty)
    ensures
        final(cs)@ == literal_suffix(old(cs)@).0,
        t@ == literal_suffix(old(cs)@).1,
{
    let n = cs.len();
    if ends_in3(cs, 'i', '6', '4') {
        cs.truncate(n - 3);
        Ty::I64
    } else if ends_in3(cs, 'u', '6', '4') {
        cs.truncate(n - 3);
        Ty::U64
    } else if ends_in3(cs, 'i', '3', '2') {
        cs.truncate(n - 3);
        Ty::I32
    } else if ends_in3(cs, 'u', '3', '2') {
        cs.truncate(n - 3);
        Ty::U32
    } else if ends_in2(cs, 'i', '8') {
        cs.truncate(n - 2);
        Ty::I8
    } else if ends_in2(cs, 'u', '8') {
        cs.truncate(n - 2);
        Ty::U8
    } else {
        Ty::I32
    }
}

/// Where the digits start after a base prefix, and the base.
fn split_radix(p: &Vec<char>) -> (r: (usize, u32))
    ensures
        r.0 <= p.len(),
        p@.skip(r.0 as int) == literal_radix(p@).0,
        r.1 == literal_radix(p@).1,
{
    if p.len() >= 2 && p[0] == '0' {
        let c = p[1];
        if c == 'x' || c == 'X' {
            return (2, 16);
        } else if c == 'o' || c == 'O' {
            return (2, 8);
        } else if c == 'b' || c == 'B' {
            return (2, 2);
        }
    }
    assert(p@.skip(0) =~= p@);
    (0, 10)
}

/// The value of type `t` that the low bits of `v` make, as `v as t` gives.
fn wrap_int(t: &Ty, v: u128) -> (r: Value)
    requires
        is_int(t@),
    ensures
        r@ == int_value(t@, v as int),
{
    match t {
        Ty::I8 => Value::I8(v as i8),
        Ty::U8 => Value::U8(v as u8),
        Ty::I32 => Value::I32(v as i32),
        Ty::U32 => Value::U32(v as u32),
        Ty::I64 => Value::I64(v as i64),
        _ => Value::U64(v as u64),
    }
}

/// Whether `v` is above the largest value of type `t`.
fn above_max(t: &Ty, v: u128) -> (r: bool)
    requires
        is_int(t@),
    ensures
        r == (v > int_max(t@)),
{
    match t {
        Ty::I8 => v > 127,
        Ty::U8 => v > 255,
        Ty::I32 => v > 2147483647,
        Ty::U32 => v > 4294967295,
        Ty::I64 => v > 9223372036854775807,
        _ => v > 18446744073709551615,
    }
}


// ---------------------------------------------------------------------------
// Character literals
// ---------------------------------------------------------------------------

/// Why a character literal whose text unescapes to `n` characters is refused.
pub open spec fn count_reason(n: nat) -> Seq<char> {
    "Character literal must contain exactly one character, found "@ + radix_digits(n, 10)
}

/// Why a character literal that stands for the character `c`, beyond ASCII, is refused.
pub open spec fn ascii_reason(c: char) -> Seq<char> {
    "Character literal must be ASCII (0-127), found '"@ + seq![c] + "' (U+"@ + pad_left(
        radix_digits((c as u32) as nat, 16),
        '0',
        4,
    ) + "). Consider using a string literal or byte array for multi-byte characters."@
}

/// The byte of a character literal whose quoted content unescapes to `u`,
/// or why it is refused: an escape that does not read, other than exactly
/// one character, or a character beyond ASCII.
pub open spec fn char_from_unescaped(u: Result<Seq<char>, Seq<char>>) -> Result<u8, Seq<char>> {
    match u {
        Err(m) => Err("Invalid escape sequence: "@ + m),
        Ok(c) => if c.len() != 1 {
            Err(count_reason(c.len()))
        } else if (c[0] as u32) >= 128 {
            Err(ascii_reason(c[0]))
        } else {
            Ok((c[0] as u32) as u8)
        },
    }
}

/// The byte of a character literal `s` (with its quotes), or why it is refused.
pub open spec fn char_literal(s: Seq<char>) -> Result<u8, Seq<char>> {
    let quoted = seq!['"'] + s.subrange(1, s.len() - 1) + seq!['"'];
    char_from_unescaped(unescaped(quoted))
}

/// The byte of a character literal from what its quoted content unescapes
/// to, as `char_from_unescaped` says.
pub fn char_literal_byte(u: Result<String, String>) -> (r: Result<u8, String>)
    ensures
        match r {
            Ok(b) => char_from_unescaped(
                match u {
                    Ok(c) => Ok::<Seq<char>, Seq<char>>(c@),
                    Err(m) => Err::<Seq<char>, Seq<char>>(m@),
                },
            ) == Ok::<u8, Seq<char>>(b),
            Err(m) => char_from_unescaped(
                match u {
                    Ok(c) => Ok::<Seq<char>, Seq<char>>(c@),
                    Err(m) => Err::<Seq<char>, Seq<char>>(m@),
                },
            ) == Err::<u8, Seq<char>>(m@),
        },
{
    match u {
        Err(m) => Err(concat_str("Invalid escape sequence: ", m.as_str())),
        Ok(content) => {
            let chars = chars_of(content.as_str());
            if chars.len() != 1 {
                let count = decimal_text(chars.len() as u64);
                Err(concat_str("Character literal must contain exactly one character, found ", count.as_str()))
            } else {
                let ch = chars[0];
                if (ch as u32) >= 128 {
                    let mut m = concat_str("Character literal must be ASCII (0-127), found '", "");
                    push_char(&mut m, ch);
                    let m = concat_str(m.as_str(), "' (U+");
                    let code = hex_text(ch as u32 as u64, 4);
                    let m = concat_str(m.as_str(), code.as_str());
                    let m = concat_str(
                        m.as_str(),
                        "). Consider using a string literal or byte array for multi-byte characters.",
                    );
                    proof {
                        reveal_strlit("");
                        assert(m@ =~= ascii_reason(ch));
                    }
                    Err(m)
                } else {
                    Ok((ch as u32) as u8)
                }
            }
        },
    }
}

/// Reads a character literal (with its quotes) as `char_literal` says.
fn read_char_literal(s: &String) -> (r: Result<u8, String>)
    requires
        s@.len() >= 2,
    ensures
        match r {
            Ok(b) => char_literal(s@) == Ok::<u8, Seq<char>>(b),
            Err(m) => char_literal(s@) == Err::<u8, Seq<char>>(m@),
        },
{
    let cs = chars_of(s.as_str());
    let inner = string_of_range(&cs, 1, cs.len() - 1);
    proof {
        reveal_strlit("\"");
    }
    let mut quoted = concat_str("\"", inner.as_str());
    push_char(&mut quoted, '"');
    assert(quoted@ =~= seq!['"'] + s@.subrange(1, s@.len() - 1) + seq!['"']);
    char_literal_byte(unescape(quoted.as_str()))
}

// ---------------------------------------------------------------------------
// Entering a literal
// ---------------------------------------------------------------------------

/// Whether the token can be read at all: a character literal has its two
/// quotes, each one ASCII character.
pub open spec fn literal_token_ok(tok: &LiteralToken) -> bool {
    match tok {
        LiteralToken::Char(s) => s@.len() >= 2 && (s@[0] as u32) < 128 && (s@.last() as u32) < 128,
        _ => true,
    }
}

/// The type that a literal is given, if any.
pub open spec fn literal_type(tok: &LiteralToken) -> Option<TyView> {
    match tok {
        LiteralToken::Null => Some(TyView::Pointer { pointee: Box::new(TyView::Void), is_const: false }),
        LiteralToken::Str(_) => Some(TyView::Pointer { pointee: Box::new(TyView::U8), is_const: true }),
        LiteralToken::Char(_) => Some(TyView::U8),
        LiteralToken::True | LiteralToken::False => Some(TyView::Bool),
        LiteralToken::Int(s) => match int_literal(s@) {
            Some((t, _)) => Some(t),
            None => None,
        },
        LiteralToken::Missing => None,
    }
}

/// The compile-time value of a literal, if it has one.
pub open spec fn literal_value(tok: &LiteralToken) -> Option<ValueView> {
    match tok {
        LiteralToken::Null => Some(ValueView::Null),
        LiteralToken::Str(s) => match unescaped(s@) {
            Ok(c) => Some(ValueView::String(c)),
            Err(_) => None,
        },
        LiteralToken::Char(s) => match char_literal(s@) {
            Ok(b) => Some(ValueView::U8(b)),
            Err(_) => None,
        },
        LiteralToken::True => Some(ValueView::Bool(true)),
        LiteralToken::False => Some(ValueView::Bool(false)),
        LiteralToken::Int(s) => match int_literal(s@) {
            Some((t, v)) => Some(int_value(t, v as int)),
            None => None,
        },
        LiteralToken::Missing => None,
    }
}

/// Whether a literal is an error.
pub open spec fn literal_rejected(tok: &LiteralToken) -> bool {
    match tok {
        LiteralToken::Str(s) => unescaped(s@) is Err,
        LiteralToken::Char(s) => char_literal(s@) is Err,
        LiteralToken::Int(s) => int_literal(s@) is None,
        _ => false,
    }
}

/// Whether `e` is the error that a rejected literal at `range` (`trimmed`
/// without its trivia) is reported with.
pub open spec fn literal_error(tok: &LiteralToken, range: TextRange, trimmed: TextRange, e: AnalyzeError) -> bool {
    match tok {
        LiteralToken::Str(s) => match unescaped(s@) {
            Err(m) => e matches AnalyzeError::UnescapeError { message, range: r } && message@ == m && r == trimmed,
            Ok(_) => false,
        },
        LiteralToken::Char(s) => match char_literal(s@) {
            Err(why) => e matches AnalyzeError::InvalidCharLiteral { literal, reason, range: r } && literal@ == s@
                && reason@ == why && r == trimmed,
            Ok(_) => false,
        },
        LiteralToken::Int(s) => e matches AnalyzeError::IntegerLiteralOverflow { literal, ty, range: r } && literal@
            == s@ && ty@ == int_ty_name(literal_suffix(s@).1) && r == range,
        _ => false,
    }
}

/// Whether a literal is an integer whose number does not fit its type.
pub open spec fn literal_overflows(tok: &LiteralToken) -> bool {
    match tok {
        LiteralToken::Int(s) => match int_literal(s@) {
            Some((t, v)) => v > int_max(t),
            None => false,
        },
        _ => false,
    }
}

/// The type bound to `key` in a type table, as a mathematical value.
pub open spec fn type_at(entries: Seq<(TextRange, Ty)>, key: TextRange) -> Option<TyView> {
    match at_range(entries, key) {
        Some(t) => Some(t@),
        None => None,
    }
}

/// The value bound to `key` in a value table, as a mathematical value.
pub open spec fn value_at(entries: Seq<(TextRange, Value)>, key: TextRange) -> Option<ValueView> {
    match at_range(entries, key) {
        Some(v) => Some(v@),
        None => None,
    }
}

/// The text bound to `key` in a table of texts.
pub open spec fn text_at(entries: Seq<(TextRange, String)>, key: TextRange) -> Option<Seq<char>> {
    match at_range(entries, key) {
        Some(v) => Some(v@),
        None => None,
    }
}

impl Module {
    /// Records the type and the compile-time value of the literal at `range`
    /// (`trimmed` is the same range without trivia), or the error it has.
    pub fn enter_literal(&mut self, range: TextRange, trimmed: TextRange, token: &LiteralToken)
        requires
            literal_token_ok(token),
        ensures
            same_symbols(old(self), final(self)),
            forall|key: TextRange|
                #[trigger] type_at(final(self).type_table@, key) == if key == range && literal_type(token) is Some {
                    literal_type(token)
                } else {
                    type_at(old(self).type_table@, key)
                },
            forall|key: TextRange|
                #[trigger] value_at(final(self).value_table@, key) == if key == range && literal_value(token) is Some {
                    literal_value(token)
                } else {
                    value_at(old(self).value_table@, key)
                },
            forall|key: TextRange|
                #[trigger] text_at(final(self).overflowing_literals@, key) == if key == range && literal_overflows(token) {
                    Some(token->Int_0@)
                } else {
                    text_at(old(self).overflowing_literals@, key)
                },
            literal_rejected(token) ==> final(self).semantic_errors@.len() == old(self).semantic_errors@.len() + 1
                && final(self).semantic_errors@.drop_last() == old(self).semantic_errors@
                && literal_error(token, range, trimmed, final(self).semantic_errors@.last()),
            !literal_rejected(token) ==> final(self).semantic_errors@ == old(self).semantic_errors@,
    {
        match token {
            LiteralToken::Null => {
                let t = Ty::Pointer { pointee: Box::new(Ty::Void), is_const: false };
                assert(ty_view(Ty::Void) == TyView::Void);
                self.put_type(range, t);
                self.put_value(range, Value::Null);
            },
            LiteralToken::Str(s) => {
                let t = Ty::Pointer { pointee: Box::new(Ty::U8), is_const: true };
                assert(ty_view(Ty::U8) == TyView::U8);
                self.put_type(range, t);
                match unescape(s.as_str()) {
                    Ok(content) => self.put_value(range, Value::String(content)),
                    Err(message) => self.semantic_errors.push(
                        AnalyzeError::UnescapeError { message, range: trimmed },
                    ),
                }
            },
            LiteralToken::Char(s) => {
                self.put_type(range, Ty::U8);
                match read_char_literal(s) {
                    Ok(b) => self.put_value(range, Value::U8(b)),
                    Err(reason) => self.semantic_errors.push(
                        AnalyzeError::InvalidCharLiteral { literal: s.clone(), reason, range: trimmed },
                    ),
                }
            },
            LiteralToken::True => {
                self.put_type(range, Ty::Bool);
                self.put_value(range, Value::Bool(true));
            },
            LiteralToken::False => {
                self.put_type(range, Ty::Bool);
                self.put_value(range, Value::Bool(false));
            },
            LiteralToken::Int(s) => {
                let mut cs = chars_of(s.as_str());
                let t = split_suffix(&mut cs);
                let (from, radix) = split_radix(&cs);
                match parse_digits(&cs, from, radix) {
                    None => {
                        let ty = int_ty_text(&t).to_string();
                        self.semantic_errors.push(
                            AnalyzeError::IntegerLiteralOverflow { literal: s.clone(), ty, range },
                        );
                    },
                    Some(v) => {
                        let value = wrap_int(&t, v);
                        if above_max(&t, v) {
                            bind_range(&mut self.overflowing_literals, range, s.clone());
                        }
                        self.put_type(range, t);
                        self.put_value(range, value);
                    },
                }
            },
            LiteralToken::Missing => {},
        }
    }

    fn put_type(&mut self, range: TextRange, t: Ty)
        ensures
            same_symbols(old(self), final(self)),
            final(self).value_table == old(self).value_table,
            final(self).semantic_errors == old(self).semantic_errors,
            final(self).overflowing_literals == old(self).overflowing_literals,
            forall|key: TextRange|
                #[trigger] type_at(final(self).type_table@, key) == if key == range {
                    Some(t@)
                } else {
                    type_at(old(self).type_table@, key)
                },
    {
        bind_range(&mut self.type_table, range, t);
    }

    fn put_value(&mut self, range: TextRange, v: Value)
        ensures
            same_symbols(old(self), final(self)),
            final(self).type_table == old(self).type_table,
            final(self).semantic_errors == old(self).semantic_errors,
            final(self).overflowing_literals == old(self).overflowing_literals,
            forall|key: TextRange|
                #[trigger] value_at(final(self).value_table@, key) == if key == range {
                    Some(v@)
                } else {
                    value_at(old(self).value_table@, key)
                },
    {
        bind_range(&mut self.value_table, range, v);
    }
}

} // verus!
