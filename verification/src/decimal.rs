//! The decimal digits of Unicode (general category Nd), which `\d` matches.

use vstd::prelude::*;

verus! {

/// Whether a code point is a Unicode decimal digit (category Nd, Unicode 16.0).
pub open spec fn decimal_code(u: u32) -> bool {
    (0x30 <= u && u <= 0x39) ||
        (0x660 <= u && u <= 0x669) ||
        (0x6F0 <= u && u <= 0x6F9) ||
        (0x7C0 <= u && u <= 0x7C9) ||
        (0x966 <= u && u <= 0x96F) ||
        (0x9E6 <= u && u <= 0x9EF) ||
        (0xA66 <= u && u <= 0xA6F) ||
        (0xAE6 <= u && u <= 0xAEF) ||
        (0xB66 <= u && u <= 0xB6F) ||
        (0xBE6 <= u && u <= 0xBEF) ||
        (0xC66 <= u && u <= 0xC6F) ||
        (0xCE6 <= u && u <= 0xCEF) ||
        (0xD66 <= u && u <= 0xD6F) ||
        (0xDE6 <= u && u <= 0xDEF) ||
        (0xE50 <= u && u <= 0xE59) ||
        (0xED0 <= u && u <= 0xED9) ||
        (0xF20 <= u && u <= 0xF29) ||
        (0x1040 <= u && u <= 0x1049) ||
        (0x1090 <= u && u <= 0x1099) ||
        (0x17E0 <= u && u <= 0x17E9) ||
        (0x1810 <= u && u <= 0x1819) ||
        (0x1946 <= u && u <= 0x194F) ||
        (0x19D0 <= u && u <= 0x19D9) ||
        (0x1A80 <= u && u <= 0x1A89) ||
        (0x1A90 <= u && u <= 0x1A99) ||
        (0x1B50 <= u && u <= 0x1B59) ||
        (0x1BB0 <= u && u <= 0x1BB9) ||
        (0x1C40 <= u && u <= 0x1C49) ||
        (0x1C50 <= u && u <= 0x1C59) ||
        (0xA620 <= u && u <= 0xA629) ||
        (0xA8D0 <= u && u <= 0xA8D9) ||
        (0xA900 <= u && u <= 0xA909) ||
        (0xA9D0 <= u && u <= 0xA9D9) ||
        (0xA9F0 <= u && u <= 0xA9F9) ||
        (0xAA50 <= u && u <= 0xAA59) ||
        (0xABF0 <= u && u <= 0xABF9) ||
        (0xFF10 <= u && u <= 0xFF19) ||
        (0x104A0 <= u && u <= 0x104A9) ||
        (0x10D30 <= u && u <= 0x10D39) ||
        (0x10D40 <= u && u <= 0x10D49) ||
        (0x11066 <= u && u <= 0x1106F) ||
        (0x110F0 <= u && u <= 0x110F9) ||
        (0x11136 <= u && u <= 0x1113F) ||
        (0x111D0 <= u && u <= 0x111D9) ||
        (0x112F0 <= u && u <= 0x112F9) ||
        (0x11450 <= u && u <= 0x11459) ||
        (0x114D0 <= u && u <= 0x114D9) ||
        (0x11650 <= u && u <= 0x11659) ||
        (0x116C0 <= u && u <= 0x116C9) ||
        (0x116D0 <= u && u <= 0x116E3) ||
        (0x11730 <= u && u <= 0x11739) ||
        (0x118E0 <= u && u <= 0x118E9) ||
        (0x11950 <= u && u <= 0x11959) ||
        (0x11BF0 <= u && u <= 0x11BF9) ||
        (0x11C50 <= u && u <= 0x11C59) ||
        (0x11D50 <= u && u <= 0x11D59) ||
        (0x11DA0 <= u && u <= 0x11DA9) ||
        (0x11F50 <= u && u <= 0x11F59) ||
        (0x16130 <= u && u <= 0x16139) ||
        (0x16A60 <= u && u <= 0x16A69) ||
        (0x16AC0 <= u && u <= 0x16AC9) ||
        (0x16B50 <= u && u <= 0x16B59) ||
        (0x16D70 <= u && u <= 0x16D79) ||
        (0x1CCF0 <= u && u <= 0x1CCF9) ||
        (0x1D7CE <= u && u <= 0x1D7FF) ||
        (0x1E140 <= u && u <= 0x1E149) ||
        (0x1E2F0 <= u && u <= 0x1E2F9) ||
        (0x1E4F0 <= u && u <= 0x1E4F9) ||
        (0x1E5F1 <= u && u <= 0x1E5FA) ||
        (0x1E950 <= u && u <= 0x1E959) ||
        (0x1FBF0 <= u && u <= 0x1FBF9)
}

/// Whether a character is a Unicode decimal digit.
pub open spec fn is_decimal(c: char) -> bool {
    decimal_code(c as u32)
}

/// Tests whether a character is a Unicode decimal digit.
pub fn char_is_decimal(c: char) -> (r: bool)
    ensures
        r == is_decimal(c),
{
    let u: u32 = c as u32;
    (0x30 <= u && u <= 0x39) ||
    (0x660 <= u && u <= 0x669) ||
    (0x6F0 <= u && u <= 0x6F9) ||
    (0x7C0 <= u && u <= 0x7C9) ||
    (0x966 <= u && u <= 0x96F) ||
    (0x9E6 <= u && u <= 0x9EF) ||
    (0xA66 <= u && u <= 0xA6F) ||
    (0xAE6 <= u && u <= 0xAEF) ||
    (0xB66 <= u && u <= 0xB6F) ||
    (0xBE6 <= u && u <= 0xBEF) ||
    (0xC66 <= u && u <= 0xC6F) ||
    (0xCE6 <= u && u <= 0xCEF) ||
    (0xD66 <= u && u <= 0xD6F) ||
    (0xDE6 <= u && u <= 0xDEF) ||
    (0xE50 <= u && u <= 0xE59) ||
    (0xED0 <= u && u <= 0xED9) ||
    (0xF20 <= u && u <= 0xF29) ||
    (0x1040 <= u && u <= 0x1049) ||
    (0x1090 <= u && u <= 0x1099) ||
    (0x17E0 <= u && u <= 0x17E9) ||
    (0x1810 <= u && u <= 0x1819) ||
    (0x1946 <= u && u <= 0x194F) ||
    (0x19D0 <= u && u <= 0x19D9) ||
    (0x1A80 <= u && u <= 0x1A89) ||
    (0x1A90 <= u && u <= 0x1A99) ||
    (0x1B50 <= u && u <= 0x1B59) ||
    (0x1BB0 <= u && u <= 0x1BB9) ||
    (0x1C40 <= u && u <= 0x1C49) ||
    (0x1C50 <= u && u <= 0x1C59) ||
    (0xA620 <= u && u <= 0xA629) ||
    (0xA8D0 <= u && u <= 0xA8D9) ||
    (0xA900 <= u && u <= 0xA909) ||
    (0xA9D0 <= u && u <= 0xA9D9) ||
    (0xA9F0 <= u && u <= 0xA9F9) ||
    (0xAA50 <= u && u <= 0xAA59) ||
    (0xABF0 <= u && u <= 0xABF9) ||
    (0xFF10 <= u && u <= 0xFF19) ||
    (0x104A0 <= u && u <= 0x104A9) ||
    (0x10D30 <= u && u <= 0x10D39) ||
    (0x10D40 <= u && u <= 0x10D49) ||
    (0x11066 <= u && u <= 0x1106F) ||
    (0x110F0 <= u && u <= 0x110F9) ||
    (0x11136 <= u && u <= 0x1113F) ||
    (0x111D0 <= u && u <= 0x111D9) ||
    (0x112F0 <= u && u <= 0x112F9) ||
    (0x11450 <= u && u <= 0x11459) ||
    (0x114D0 <= u && u <= 0x114D9) ||
    (0x11650 <= u && u <= 0x11659) ||
    (0x116C0 <= u && u <= 0x116C9) ||
    (0x116D0 <= u && u <= 0x116E3) ||
    (0x11730 <= u && u <= 0x11739) ||
    (0x118E0 <= u && u <= 0x118E9) ||
    (0x11950 <= u && u <= 0x11959) ||
    (0x11BF0 <= u && u <= 0x11BF9) ||
    (0x11C50 <= u && u <= 0x11C59) ||
    (0x11D50 <= u && u <= 0x11D59) ||
    (0x11DA0 <= u && u <= 0x11DA9) ||
    (0x11F50 <= u && u <= 0x11F59) ||
    (0x16130 <= u && u <= 0x16139) ||
    (0x16A60 <= u && u <= 0x16A69) ||
    (0x16AC0 <= u && u <= 0x16AC9) ||
    (0x16B50 <= u && u <= 0x16B59) ||
    (0x16D70 <= u && u <= 0x16D79) ||
    (0x1CCF0 <= u && u <= 0x1CCF9) ||
    (0x1D7CE <= u && u <= 0x1D7FF) ||
    (0x1E140 <= u && u <= 0x1E149) ||
    (0x1E2F0 <= u && u <= 0x1E2F9) ||
    (0x1E4F0 <= u && u <= 0x1E4F9) ||
    (0x1E5F1 <= u && u <= 0x1E5FA) ||
    (0x1E950 <= u && u <= 0x1E959) ||
    (0x1FBF0 <= u && u <= 0x1FBF9)
}

} // verus!
