//! Character classes and case mappings used by the normalizer.
use vstd::prelude::*;

verus! {

/// Whether `c` is a Unicode word character (letters, marks, decimal digits,
/// connector punctuation, join controls).
pub uninterp spec fn word_char(c: char) -> bool;

/// The lowercase mapping of `c`, one or more characters.
pub uninterp spec fn lower_of(c: char) -> Seq<char>;

/// The first character of the uppercase mapping of `c`.
pub uninterp spec fn upper_head(c: char) -> char;

/// Unicode `White_Space`: the characters that `char::is_whitespace` accepts.
pub open spec fn is_space(c: char) -> bool {
    ('\u{9}' <= c && c <= '\u{d}') || c == ' ' || c == '\u{85}' || c == '\u{a0}'
        || c == '\u{1680}' || ('\u{2000}' <= c && c <= '\u{200a}') || c == '\u{2028}'
        || c == '\u{2029}' || c == '\u{202f}' || c == '\u{205f}' || c == '\u{3000}'
}

/// Two characters are the same letter when they are equal or share a
/// lowercase mapping.
pub open spec fn same_letter(a: char, b: char) -> bool {
    a == b || lower_of(a) == lower_of(b)
}

/// Uppercase of an ASCII character; other characters are returned as they are.
pub open spec fn ascii_upper(c: char) -> char {
    if 'a' <= c && c <= 'z' {
        ((c as u8) - 32) as char
    } else {
        c
    }
}

/// How the first character of a sentence is capitalised.
pub open spec fn capital(c: char) -> char {
    if (c as u32) < 128 {
        ascii_upper(c)
    } else if is_space(upper_head(c)) {
        c
    } else {
        upper_head(c)
    }
}

/// Relies on regex_syntax::is_word_character: the `\w` class of the regex
/// engine, a fixed Unicode table, so the answer depends on `c` alone.
#[verifier::external_body]
pub(crate) fn is_word_char(c: char) -> (r: bool)
    ensures
        r == word_char(c),
{
    regex_syntax::is_word_character(c)
}

/// Relies on char::to_lowercase: the lowercase mapping depends on `c` alone.
#[verifier::external_body]
fn lowercase(c: char) -> (r: String)
    ensures
        r@ == lower_of(c),
{
    c.to_lowercase().collect()
}

/// Relies on char::to_uppercase: the uppercase mapping depends on `c` alone
/// and always yields at least one character.
#[verifier::external_body]
fn uppercase_head(c: char) -> (r: char)
    ensures
        r == upper_head(c),
{
    c.to_uppercase().next().unwrap_or(c)
}

/// Whether `c` is whitespace.
pub fn is_space_char(c: char) -> (r: bool)
    ensures
        r == is_space(c),
{
    ('\u{9}' <= c && c <= '\u{d}') || c == ' ' || c == '\u{85}' || c == '\u{a0}'
        || c == '\u{1680}' || ('\u{2000}' <= c && c <= '\u{200a}') || c == '\u{2028}'
        || c == '\u{2029}' || c == '\u{202f}' || c == '\u{205f}' || c == '\u{3000}'
}

/// Case-insensitive comparison of two characters.
pub fn same_letter_char(a: char, b: char) -> (r: bool)
    ensures
        r == same_letter(a, b),
{
    if a == b {
        true
    } else {
        let la = lowercase(a);
        let lb = lowercase(b);
        la == lb
    }
}

/// The capitalised form of the first character of a sentence.
pub fn capital_char(c: char) -> (r: char)
    ensures
        r == capital(c),
{
    if (c as u32) < 128 {
        if 'a' <= c && c <= 'z' {
            ((c as u8) - 32) as char
        } else {
            c
        }
    } else {
        let u = uppercase_head(c);
        if is_space_char(u) {
            c
        } else {
            u
        }
    }
}

} // verus!
