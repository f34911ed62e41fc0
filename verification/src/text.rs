//! Small operations on strings that the standard library performs.

use vstd::prelude::*;

verus! {

/// Appends one character to a string, as `String::push` does.
#[verifier::external_body]
pub(crate) fn push_char(s: &mut String, c: char)
    ensures
        final(s)@ == old(s)@.push(c),
{
    s.push(c);
}

/// The characters of a string slice, in order.
pub fn chars_of(text: &str) -> (r: Vec<char>)
    ensures
        r@ == text@,
{
    let mut v: Vec<char> = Vec::new();
    for c in it: text.chars()
        invariant
            v@ == it.seq().take(it.index() as int),
            it.seq() == text@,
    {
        v.push(c);
    }
    v
}

/// A string made of `chars[from..to]`.
pub fn string_of_range(chars: &Vec<char>, from: usize, to: usize) -> (r: String)
    requires
        from <= to <= chars.len(),
    ensures
        r@ == chars@.subrange(from as int, to as int),
{
    let mut s = String::new();
    let mut k = from;
    while k < to
        invariant
            from <= k <= to <= chars.len(),
            s@ == chars@.subrange(from as int, k as int),
        decreases to - k,
    {
        push_char(&mut s, chars[k]);
        assert(chars@.subrange(from as int, k + 1) =~= chars@.subrange(from as int, k as int).push(
            chars@[k as int],
        ));
        k = k + 1;
    }
    s
}

/// `prefix` followed by `rest`.
pub fn concat_str(prefix: &str, rest: &str) -> (r: String)
    ensures
        r@ == prefix@ + rest@,
{
    let mut s = prefix.to_string();
    let cs = chars_of(rest);
    let mut k: usize = 0;
    while k < cs.len()
        invariant
            k <= cs.len(),
            cs@ == rest@,
            s@ == prefix@ + cs@.take(k as int),
        decreases cs.len() - k,
    {
        push_char(&mut s, cs[k]);
        assert(prefix@ + cs@.take(k + 1) =~= (prefix@ + cs@.take(k as int)).push(cs@[k as int]));
        k = k + 1;
    }
    assert(cs@.take(cs@.len() as int) =~= cs@);
    s
}

/// The digit of value `d` in base `radix` (up to 16), upper case.
pub open spec fn digit_char(d: nat) -> char {
    if d < 10 {
        ((d + 48) as u8) as char
    } else {
        ((d + 55) as u8) as char
    }
}

/// The digits of `n` in base `radix`, most significant first, without leading zeros ("0" for zero).
pub open spec fn radix_digits(n: nat, radix: nat) -> Seq<char>
    recommends
        2 <= radix <= 16,
    decreases n,
{
    if n < radix || radix < 2 {
        seq![digit_char(n)]
    } else {
        proof {
            assert(n / radix < n) by (nonlinear_arith)
                requires
                    n >= radix,
                    radix >= 2,
            ;
        }
        radix_digits(n / radix, radix).push(digit_char(n % radix))
    }
}

/// `s` with `c` put in front until it is at least `width` long.
pub open spec fn pad_left(s: Seq<char>, c: char, width: nat) -> Seq<char>
    decreases width - s.len(),
{
    if s.len() >= width {
        s
    } else {
        pad_left(seq![c] + s, c, width)
    }
}

/// The decimal text of `n`, as `format!("{}", n)` writes it.
pub fn decimal_text(n: u64) -> (r: String)
    ensures
        r@ == radix_digits(n as nat, 10),
{
    digits_of(n, 10)
}

/// The upper-case hexadecimal text of `n`, at least `width` digits, as
/// `format!("{:0width$X}", n)` writes it.
pub fn hex_text(n: u64, width: usize) -> (r: String)
    ensures
        r@ == pad_left(radix_digits(n as nat, 16), '0', width as nat),
{
    let digits = digits_of(n, 16);
    let mut out: Vec<char> = chars_of(digits.as_str());
    let ghost start = out@;
    while out.len() < width
        invariant
            pad_left(start, '0', width as nat) == pad_left(out@, '0', width as nat),
        decreases width - out.len(),
    {
        let mut next: Vec<char> = Vec::new();
        next.push('0');
        let mut k: usize = 0;
        while k < out.len()
            invariant
                k <= out.len(),
                next@ == seq!['0'] + out@.take(k as int),
            decreases out.len() - k,
        {
            next.push(out[k]);
            assert(seq!['0'] + out@.take(k + 1) =~= (seq!['0'] + out@.take(k as int)).push(out@[k as int]));
            k += 1;
        }
        assert(out@.take(out@.len() as int) =~= out@);
        out = next;
    }
    let mut s = String::new();
    let mut k: usize = 0;
    while k < out.len()
        invariant
            k <= out.len(),
            s@ == out@.take(k as int),
        decreases out.len() - k,
    {
        push_char(&mut s, out[k]);
        assert(out@.take(k + 1) =~= out@.take(k as int).push(out@[k as int]));
        k += 1;
    }
    assert(out@.take(out@.len() as int) =~= out@);
    s
}

fn digit_of(d: u64) -> (c: char)
    requires
        d < 16,
    ensures
        c == digit_char(d as nat),
{
    if d < 10 {
        ((d + 48) as u8) as char
    } else {
        ((d + 55) as u8) as char
    }
}

fn digits_of(n: u64, radix: u64) -> (r: String)
    requires
        2 <= radix <= 16,
    ensures
        r@ == radix_digits(n as nat, radix as nat),
    decreases n,
{
    if n < radix {
        let mut s = String::new();
        push_char(&mut s, digit_of(n));
        assert(s@ =~= seq![digit_char(n as nat)]);
        s
    } else {
        assert(n / radix < n) by (nonlinear_arith)
            requires
                n >= radix,
                radix >= 2,
        ;
        let mut s = digits_of(n / radix, radix);
        push_char(&mut s, digit_of(n % radix));
        s
    }
}

} // verus!
