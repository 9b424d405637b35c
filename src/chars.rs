//! Character classes used by the lexer. They come from std's `char`
//! methods. On ASCII each class is stated outright; beyond ASCII each is
//! named by what the std method returns there.

use vstd::prelude::*;

verus! {

/// `char::is_whitespace` on a character beyond ASCII (Unicode `White_Space`).
pub uninterp spec fn whitespace_beyond_ascii(c: char) -> bool;

/// `char::is_alphabetic` on a character beyond ASCII (Unicode `Alphabetic`).
pub uninterp spec fn alphabetic_beyond_ascii(c: char) -> bool;

/// `char::is_alphanumeric` on a character beyond ASCII.
pub uninterp spec fn alphanumeric_beyond_ascii(c: char) -> bool;

/// `char::is_lowercase` on a character beyond ASCII (Unicode `Lowercase`).
pub uninterp spec fn lowercase_beyond_ascii(c: char) -> bool;

/// `char::is_uppercase` on a character beyond ASCII (Unicode `Uppercase`).
pub uninterp spec fn uppercase_beyond_ascii(c: char) -> bool;

/// An ASCII character.
pub open spec fn ascii(c: char) -> bool {
    c < '\u{80}'
}

/// An ASCII decimal digit.
pub open spec fn digit(c: char) -> bool {
    '0' <= c <= '9'
}

/// An ASCII lower-case letter.
pub open spec fn ascii_lower(c: char) -> bool {
    'a' <= c <= 'z'
}

/// An ASCII upper-case letter.
pub open spec fn ascii_upper(c: char) -> bool {
    'A' <= c <= 'Z'
}

/// White space: on ASCII, tab, line feed, vertical tab, form feed,
/// carriage return and space.
pub open spec fn whitespace(c: char) -> bool {
    if ascii(c) {
        ('\t' <= c <= '\r') || c == ' '
    } else {
        whitespace_beyond_ascii(c)
    }
}

/// Alphabetic: on ASCII, the letters.
pub open spec fn alphabetic(c: char) -> bool {
    if ascii(c) {
        ascii_lower(c) || ascii_upper(c)
    } else {
        alphabetic_beyond_ascii(c)
    }
}

/// Alphabetic or numeric: on ASCII, the letters and digits.
pub open spec fn alphanumeric(c: char) -> bool {
    if ascii(c) {
        ascii_lower(c) || ascii_upper(c) || digit(c)
    } else {
        alphanumeric_beyond_ascii(c)
    }
}

/// Lower case: on ASCII, `a` to `z`.
pub open spec fn lowercase(c: char) -> bool {
    if ascii(c) {
        ascii_lower(c)
    } else {
        lowercase_beyond_ascii(c)
    }
}

/// Upper case: on ASCII, `A` to `Z`.
pub open spec fn uppercase(c: char) -> bool {
    if ascii(c) {
        ascii_upper(c)
    } else {
        uppercase_beyond_ascii(c)
    }
}

/// Relies on `char::is_whitespace`: the `White_Space` property, which on
/// ASCII holds of `\t`, `\n`, `\x0B`, `\x0C`, `\r` and space.
#[verifier::external_body]
pub(crate) fn is_whitespace(c: char) -> (r: bool)
    ensures
        r == (if ascii(c) { ('\t' <= c <= '\r') || c == ' ' } else { whitespace_beyond_ascii(c) }),
{
    c.is_whitespace()
}

/// Relies on `char::is_alphabetic`: the `Alphabetic` property, which on
/// ASCII holds of the letters.
#[verifier::external_body]
pub(crate) fn is_alphabetic(c: char) -> (r: bool)
    ensures
        r == (if ascii(c) { ascii_lower(c) || ascii_upper(c) } else { alphabetic_beyond_ascii(c) }),
{
    c.is_alphabetic()
}

/// Relies on `char::is_alphanumeric`: alphabetic or numeric, which on ASCII
/// holds of the letters and digits.
#[verifier::external_body]
pub(crate) fn is_alphanumeric(c: char) -> (r: bool)
    ensures
        r == (if ascii(c) { ascii_lower(c) || ascii_upper(c) || digit(c) } else { alphanumeric_beyond_ascii(c) }),
{
    c.is_alphanumeric()
}

/// Relies on `char::is_lowercase`: the `Lowercase` property, which on ASCII
/// holds of `a` to `z`.
#[verifier::external_body]
pub(crate) fn is_lowercase(c: char) -> (r: bool)
    ensures
        r == (if ascii(c) { ascii_lower(c) } else { lowercase_beyond_ascii(c) }),
{
    c.is_lowercase()
}

/// Relies on `char::is_uppercase`: the `Uppercase` property, which on ASCII
/// holds of `A` to `Z`.
#[verifier::external_body]
pub(crate) fn is_uppercase(c: char) -> (r: bool)
    ensures
        r == (if ascii(c) { ascii_upper(c) } else { uppercase_beyond_ascii(c) }),
{
    c.is_uppercase()
}

/// Relies on `String`'s `FromIterator<char>`: the string of exactly these
/// characters, in order.
#[verifier::external_body]
pub(crate) fn string_of(cs: &Vec<char>) -> (r: String)
    ensures
        r@ == cs@,
{
    cs.iter().collect::<String>()
}

/// A character that may continue a symbol.
pub open spec fn word_char(c: char) -> bool {
    alphanumeric(c) || c == '_'
}

/// A character that may start a symbol.
pub open spec fn word_start(c: char) -> bool {
    alphabetic(c) || c == '_'
}

} // verus!
