use vstd::prelude::*;

verus! {

/// The Unicode `White_Space` property of a character outside the ASCII range.
pub uninterp spec fn unicode_white_space(c: char) -> bool;

/// The Unicode `Alphabetic` property of a character outside the ASCII range.
pub uninterp spec fn unicode_alphabetic(c: char) -> bool;

/// Membership of a character outside the ASCII range in one of the Unicode
/// general categories for numbers (`Nd`, `Nl`, `No`).
pub uninterp spec fn unicode_numeric(c: char) -> bool;

/// Whether `c` lies in the ASCII range.
pub open spec fn ascii(c: char) -> bool {
    c <= '\u{7f}'
}

/// The ASCII characters with the `White_Space` property: the space and the
/// controls U+0009 to U+000D.
pub open spec fn ascii_white_space(c: char) -> bool {
    c == ' ' || ('\u{9}' <= c && c <= '\u{d}')
}

/// The ASCII letters, `a` to `z` and `A` to `Z`.
pub open spec fn ascii_letter(c: char) -> bool {
    ('a' <= c && c <= 'z') || ('A' <= c && c <= 'Z')
}

/// An ASCII decimal digit, `0` to `9`.
pub open spec fn ascii_digit(c: char) -> bool {
    '0' <= c && c <= '9'
}

/// White space, over the whole of Unicode.
pub open spec fn white_space(c: char) -> bool {
    if ascii(c) {
        ascii_white_space(c)
    } else {
        unicode_white_space(c)
    }
}

/// Alphabetic, over the whole of Unicode.
pub open spec fn alphabetic(c: char) -> bool {
    if ascii(c) {
        ascii_letter(c)
    } else {
        unicode_alphabetic(c)
    }
}

/// Numeric, over the whole of Unicode.
pub open spec fn numeric(c: char) -> bool {
    if ascii(c) {
        ascii_digit(c)
    } else {
        unicode_numeric(c)
    }
}

/// Alphabetic or numeric.
pub open spec fn alphanumeric(c: char) -> bool {
    alphabetic(c) || numeric(c)
}

/// `char::is_whitespace` reports the Unicode `White_Space` property. Trusted:
/// in the ASCII range that property belongs to the space and to U+0009
/// through U+000D only; beyond it the answer is `unicode_white_space`.
pub assume_specification[ char::is_whitespace ](c: char) -> (r: bool)
    ensures
        ascii(c) ==> r == ascii_white_space(c),
        !ascii(c) ==> r == unicode_white_space(c),
;

/// `char::is_alphabetic` reports the Unicode `Alphabetic` property. Trusted:
/// in the ASCII range that property belongs to the letters only; beyond it
/// the answer is `unicode_alphabetic`.
pub assume_specification[ char::is_alphabetic ](c: char) -> (r: bool)
    ensures
        ascii(c) ==> r == ascii_letter(c),
        !ascii(c) ==> r == unicode_alphabetic(c),
;

/// `char::is_alphanumeric` holds of a character that is alphabetic or
/// numeric. Trusted: in the ASCII range those are the letters and the
/// digits; beyond it the answer is `unicode_alphabetic` or `unicode_numeric`.
pub assume_specification[ char::is_alphanumeric ](c: char) -> (r: bool)
    ensures
        ascii(c) ==> r == (ascii_letter(c) || ascii_digit(c)),
        !ascii(c) ==> r == (unicode_alphabetic(c) || unicode_numeric(c)),
;

/// `char::is_ascii_digit` holds of U+0030 `0` through U+0039 `9`. Trusted.
pub assume_specification[ char::is_ascii_digit ](c: &char) -> (r: bool)
    ensures
        r == ascii_digit(*c),
;

/// `String::push` appends one character to the end of the string. Trusted.
pub assume_specification[ std::string::String::push ](s: &mut std::string::String, c: char)
    ensures
        final(s)@ == old(s)@.push(c),
;

} // verus!
