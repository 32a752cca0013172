//! Character classes the SDL scanner is written against.
//!
//! Whitespace is Unicode `White_Space`, a property of 25 code points, stated
//! here in full. A word character is the Unicode word class (`Alphabetic`,
//! `Join_Control`, `Decimal_Number`, `Mark`, `Connector_Punctuation`), the
//! class the `regex` crate calls `\w`; that is a large table of the Unicode
//! database, so it is named here and computed by `regex-syntax`.
use vstd::prelude::*;

verus! {

/// Whether `c` has the Unicode `White_Space` property (the property
/// `char::is_whitespace` reports): U+0009 to U+000D, U+0020, U+0085, U+00A0,
/// U+1680, U+2000 to U+200A, U+2028, U+2029, U+202F, U+205F and U+3000.
pub open spec fn is_space(c: char) -> bool {
    ||| ('\u{9}' <= c && c <= '\u{d}')
    ||| c == ' '
    ||| c == '\u{85}'
    ||| c == '\u{a0}'
    ||| c == '\u{1680}'
    ||| ('\u{2000}' <= c && c <= '\u{200a}')
    ||| c == '\u{2028}'
    ||| c == '\u{2029}'
    ||| c == '\u{202f}'
    ||| c == '\u{205f}'
    ||| c == '\u{3000}'
}

/// Whether `c` is a Unicode word character, as `regex_syntax::is_word_character` reports it.
pub uninterp spec fn is_word(c: char) -> bool;

/// Whether `c` is a whitespace character.
pub fn space_char(c: char) -> (b: bool)
    ensures
        b == is_space(c),
{
    ('\u{9}' <= c && c <= '\u{d}') || c == ' ' || c == '\u{85}' || c == '\u{a0}' || c
        == '\u{1680}' || ('\u{2000}' <= c && c <= '\u{200a}') || c == '\u{2028}' || c
        == '\u{2029}' || c == '\u{202f}' || c == '\u{205f}' || c == '\u{3000}'
}

/// Calls `regex_syntax::is_word_character`. Claimed: the answer is a function
/// of `c` alone (membership in regex-syntax's `\w` table). It panics only when
/// the crate is built without its `unicode-perl` feature, which its default
/// features enable.
#[verifier::external_body]
pub(crate) fn word_char(c: char) -> (b: bool)
    ensures
        b == is_word(c),
{
    regex_syntax::is_word_character(c)
}

/// `[A-Za-z_]`
pub open spec fn is_ident_start(c: char) -> bool {
    ('a' <= c && c <= 'z') || ('A' <= c && c <= 'Z') || c == '_'
}

/// `[A-Za-z0-9_]`
pub open spec fn is_ident_char(c: char) -> bool {
    is_ident_start(c) || ('0' <= c && c <= '9')
}

/// A character of a type signature: `[`, `]`, `!` or a word character.
pub open spec fn is_sig_char(c: char) -> bool {
    c == '[' || c == ']' || c == '!' || is_word(c)
}

pub(crate) fn ident_start_char(c: char) -> (b: bool)
    ensures
        b == is_ident_start(c),
{
    ('a' <= c && c <= 'z') || ('A' <= c && c <= 'Z') || c == '_'
}

pub(crate) fn ident_char(c: char) -> (b: bool)
    ensures
        b == is_ident_char(c),
{
    ident_start_char(c) || ('0' <= c && c <= '9')
}

pub(crate) fn sig_char(c: char) -> (b: bool)
    ensures
        b == is_sig_char(c),
{
    c == '[' || c == ']' || c == '!' || word_char(c)
}

} // verus!
