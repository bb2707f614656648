//! Character classification and string building taken from `std`.
//!
//! Unicode `White_Space` is a short list and is written out.  The tables
//! behind `char::is_alphabetic` and `char::is_alphanumeric` are far too long
//! to state, so their results outside ASCII are named here; the lexer's
//! contracts speak of those names.

use vstd::prelude::*;

verus! {

/// What `char::is_alphabetic` answers for a character (Unicode `Alphabetic`).
pub uninterp spec fn is_unicode_alphabetic(c: char) -> bool;

/// What `char::is_alphanumeric` answers for a character.
pub uninterp spec fn is_unicode_alphanumeric(c: char) -> bool;

/// An ASCII character.
pub open spec fn is_ascii_char(c: char) -> bool {
    c <= '\u{7f}'
}

/// An ASCII letter.
pub open spec fn is_ascii_letter(c: char) -> bool {
    ('a' <= c && c <= 'z') || ('A' <= c && c <= 'Z')
}

/// Whitespace: the characters with the Unicode `White_Space` property, that
/// is U+0009 to U+000D, the space, U+0085, U+00A0, U+1680, U+2000 to U+200A,
/// U+2028, U+2029, U+202F, U+205F and U+3000.
pub open spec fn is_space(c: char) -> bool {
    ||| ('\t' <= c && c <= '\r')
    ||| c == ' '
    ||| c == '\u{85}'
    ||| c == '\u{a0}'
    ||| c == '\u{1680}'
    ||| ('\u{2000}' <= c && c <= '\u{200a}')
    ||| c == '\u{2028}'
    ||| c == '\u{2029}'
    ||| c == '\u{202f}'
    ||| c == '\u{205f}'
    ||| c == '\u{3000}'
}

/// A letter: among ASCII characters `a`-`z` and `A`-`Z` (the ASCII part of
/// Unicode `Alphabetic`); elsewhere what `char::is_alphabetic` answers.
pub open spec fn is_letter(c: char) -> bool {
    if is_ascii_char(c) {
        is_ascii_letter(c)
    } else {
        is_unicode_alphabetic(c)
    }
}

/// A letter or a digit: among ASCII characters the letters and `0`-`9`;
/// elsewhere what `char::is_alphanumeric` answers.
pub open spec fn is_letter_or_digit(c: char) -> bool {
    if is_ascii_char(c) {
        is_ascii_letter(c) || is_ascii_digit(c)
    } else {
        is_unicode_alphanumeric(c)
    }
}

/// Calls `char::is_whitespace`, which holds exactly of the characters with
/// the Unicode `White_Space` property, listed in `is_space`.
#[verifier::external_body]
pub(crate) fn char_is_whitespace(c: char) -> (r: bool)
    ensures
        r == is_space(c),
{
    c.is_whitespace()
}

/// Calls `char::is_alphabetic`, which holds of the characters with the
/// Unicode `Alphabetic` property: among ASCII characters exactly the letters.
/// Its result on other characters is named `is_unicode_alphabetic`.
#[verifier::external_body]
pub(crate) fn char_is_alphabetic(c: char) -> (r: bool)
    ensures
        is_ascii_char(c) ==> r == is_ascii_letter(c),
        !is_ascii_char(c) ==> r == is_unicode_alphabetic(c),
{
    c.is_alphabetic()
}

/// Calls `char::is_alphanumeric`, which its documentation defines as
/// `is_alphabetic() || is_numeric()`: among ASCII characters exactly the
/// letters and digits, and on every character at least `is_alphabetic`.  Its
/// result on other characters is named `is_unicode_alphanumeric`.
#[verifier::external_body]
pub(crate) fn char_is_alphanumeric(c: char) -> (r: bool)
    ensures
        is_ascii_char(c) ==> r == (is_ascii_letter(c) || is_ascii_digit(c)),
        !is_ascii_char(c) ==> r == is_unicode_alphanumeric(c),
        !is_ascii_char(c) && is_unicode_alphabetic(c) ==> r,
{
    c.is_alphanumeric()
}

/// An ASCII decimal digit, as `char::is_ascii_digit` defines it.
pub open spec fn is_ascii_digit(c: char) -> bool {
    '0' <= c && c <= '9'
}

/// `char::is_ascii_digit`, written out.
pub fn char_is_ascii_digit(c: char) -> (r: bool)
    ensures
        r == is_ascii_digit(c),
{
    '0' <= c && c <= '9'
}

/// Calls `String::push`: the character is appended to the string.
#[verifier::external_body]
pub(crate) fn push_char(s: &mut String, c: char)
    ensures
        final(s)@ == old(s)@.push(c),
{
    s.push(c);
}

/// Whether a sequence of characters spells the given string.
pub fn chars_match_str(w: &Vec<char>, lit: &str) -> (r: bool)
    ensures
        r == (w@ == lit@),
{
    let n = lit.unicode_len();
    if w.len() != n {
        return false;
    }
    let mut i: usize = 0;
    while i < n
        invariant
            n == lit@.len(),
            w@.len() == n,
            i <= n,
            forall|k: int| 0 <= k < i ==> w@[k] == lit@[k],
        decreases n - i,
    {
        if w[i] != lit.get_char(i) {
            return false;
        }
        i = i + 1;
    }
    assert(w@ =~= lit@);
    true
}

} // verus!
