//! Case mappings: the lower-case form of a text, and a word with its first
//! character in upper case.

use vstd::prelude::*;
use crate::chars::{ascii_lowered, ascii_upper, chars_of, is_ascii_text, string_of};

verus! {

/// The Unicode uppercase mapping of a character, as `char::to_uppercase`
/// yields it: one character for most, up to three for a few.
pub uninterp spec fn uppercase_of(ch: char) -> Seq<char>;

/// Calls `char::to_uppercase` and collects what it yields.
///
/// Trusted: the result is the character's Unicode uppercase mapping, which
/// is never empty and which, for an ASCII character, is the one character
/// `ascii_upper` gives.
#[verifier::external_body]
pub(crate) fn to_uppercase(ch: char) -> (r: Vec<char>)
    ensures
        r@ == uppercase_of(ch),
        r@.len() >= 1,
        (ch as u32) < 128 ==> r@ == seq![ascii_upper(ch)],
{
    ch.to_uppercase().collect()
}

/// The Unicode lowercase form of a text, as `str::to_lowercase` makes it.
pub uninterp spec fn lowercase_of(s: Seq<char>) -> Seq<char>;

/// Calls `str::to_lowercase`.
///
/// Trusted: the result is the Unicode lowercase form of the text, which for
/// a text of ASCII characters has each capital replaced by its small letter
/// and nothing else changed.
#[verifier::external_body]
pub(crate) fn to_lowercase(s: &str) -> (r: String)
    ensures
        r@ == lowercase_of(s@),
        is_ascii_text(s@) ==> r@ == ascii_lowered(s@),
{
    s.to_lowercase()
}

/// `word` with its first character replaced by that character's uppercase
/// mapping; the empty sequence for an empty word.
pub open spec fn upper_first_of(word: Seq<char>) -> Seq<char> {
    if word.len() == 0 {
        word
    } else {
        uppercase_of(word[0]) + word.subrange(1, word.len() as int)
    }
}

/// `word` with its first character, an ASCII one, in upper case.
pub open spec fn ascii_upper_first_of(word: Seq<char>) -> Seq<char> {
    seq![ascii_upper(word[0])] + word.subrange(1, word.len() as int)
}

/// Upper-cases the first character of `word`. An empty word stays empty.
pub fn upper_first_internal(word: &str) -> (r: String)
    ensures
        r@ == upper_first_of(word@),
        word@.len() > 0 && (word@[0] as u32) < 128 ==> r@ == ascii_upper_first_of(word@),
{
    let w = chars_of(word);
    if w.len() == 0 {
        return String::new();
    }
    let mut out = to_uppercase(w[0]);
    let mut i: usize = 1;
    while i < w.len()
        invariant
            1 <= i <= w.len(),
            out@ == uppercase_of(w@[0]) + w@.subrange(1, i as int),
        decreases w.len() - i,
    {
        out.push(w[i]);
        i += 1;
    }
    string_of(&out)
}

/// Upper-cases the first character of `word`; nothing for an empty word.
pub fn upper_first(word: &str) -> (r: Option<String>)
    ensures
        r is Some <==> word@.len() > 0,
        r matches Some(w) ==> w@ == upper_first_of(word@),
        r matches Some(w) ==> ((word@[0] as u32) < 128 ==> w@ == ascii_upper_first_of(word@)),
{
    if word.is_empty() {
        None
    } else {
        Some(upper_first_internal(word))
    }
}

} // verus!
