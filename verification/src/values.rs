//! Small coercions of optional and free-form values: truth values, numbers,
//! blank texts.

use vstd::prelude::*;
use crate::casing::{lowercase_of, to_lowercase};
use crate::chars::{
    chars_of, chars_of_option, is_ascii_digit, is_digit, is_space, is_whitespace, same_chars,
    string_of,
    text_of,
};
use crate::text::{is_blank, trim_chars, trimmed};

verus! {

/// Tells whether the value is present and true.
pub fn is_true(value: Option<bool>) -> (r: bool)
    ensures
        r == (value == Some(true)),
{
    match value {
        Some(b) => b,
        None => false,
    }
}

/// Tells whether the value is absent or false.
pub fn is_false(value: Option<bool>) -> (r: bool)
    ensures
        r == (value != Some(true)),
{
    !is_true(value)
}

/// Tells whether the value is absent.
pub fn is_null<T>(value: Option<T>) -> (r: bool)
    ensures
        r == (value is None),
{
    value.is_none()
}

/// Tells whether the value is present.
pub fn not_null<T>(value: Option<T>) -> (r: bool)
    ensures
        r == (value is Some),
{
    !value.is_none()
}

/// The number, or `nought` where the number is absent.
pub fn zero<T>(num: Option<T>, nought: T) -> (r: T)
    ensures
        r == match num {
            Some(n) => n,
            None => nought,
        },
{
    match num {
        Some(n) => n,
        None => nought,
    }
}

/// The number, or 0 where the number is absent.
pub fn zi64(num: Option<i64>) -> (r: i64)
    ensures
        r == match num {
            Some(n) => n,
            None => 0,
        },
{
    match num {
        Some(n) => n,
        None => 0,
    }
}

/// The first two values of an optional list: present where the list is
/// present, holds two values or more, and holds a value in each of its first
/// two places.
pub open spec fn leading_pair_of<T>(values: Option<Seq<Option<T>>>) -> Option<(T, T)> {
    match values {
        Some(list) => if list.len() >= 2 && list[0] is Some && list[1] is Some {
            Some((list[0]->0, list[1]->0))
        } else {
            None
        },
        None => None,
    }
}

/// The view of an optional list as a sequence.
pub open spec fn list_of<T>(values: Option<Vec<Option<T>>>) -> Option<Seq<Option<T>>> {
    match values {
        Some(list) => Some(list@),
        None => None,
    }
}

/// The first two values of an optional list, as a pair of coordinates is
/// read from it: nothing where the list is absent or shorter than two, or
/// one of its first two values is absent. Values behind the second are
/// passed over.
pub fn leading_pair<T: Copy>(values: Option<Vec<Option<T>>>) -> (r: Option<(T, T)>)
    ensures
        r == leading_pair_of(list_of(values)),
{
    match values {
        Some(list) => {
            if list.len() >= 2 {
                match (list[0], list[1]) {
                    (Some(first), Some(second)) => Some((first, second)),
                    _ => None,
                }
            } else {
                None
            }
        },
        None => None,
    }
}

/// Tells whether a text is absent, empty or white space throughout.
pub fn is_empty(value: Option<&str>) -> (r: bool)
    ensures
        r == is_blank(text_of(value)),
{
    let chars = chars_of_option(value);
    let mut i: usize = 0;
    while i < chars.len()
        invariant
            i <= chars.len(),
            chars@ == text_of(value),
            forall|j: int| 0 <= j < i ==> is_space(#[trigger] chars@[j]),
        decreases chars.len() - i,
    {
        if !is_whitespace(chars[i]) {
            assert(!is_space(text_of(value)[i as int]));
            return false;
        }
        i += 1;
    }
    true
}

/// A text as it is compared without regard to case: trimmed, and in lower
/// case.
pub open spec fn folded(s: Seq<char>) -> Seq<char> {
    lowercase_of(trimmed(s))
}

/// The text that `isi` compares with `b`: `a`, or the default where `a` is
/// absent, or the empty text where both are.
pub open spec fn with_default(a: Option<&str>, default: Option<&str>) -> Seq<char> {
    match a {
        Some(s) => s@,
        None => text_of(default),
    }
}

/// The characters of `v` trimmed and in lower case.
fn fold_chars(v: &Vec<char>) -> (r: Vec<char>)
    ensures
        r@ == folded(v@),
{
    let kept = trim_chars(v);
    let text = string_of(&kept);
    let low = to_lowercase(text.as_str());
    chars_of(low.as_str())
}

/// Tells whether two texts are the same but for case and for white space
/// around them. Where `a` is absent, `default` stands for it; an absent text
/// counts as empty.
pub fn isi(a: Option<&str>, b: Option<&str>, default: Option<&str>) -> (r: bool)
    ensures
        r == (folded(with_default(a, default)) == folded(text_of(b))),
{
    let first = match a {
        Some(s) => chars_of(s),
        None => chars_of_option(default),
    };
    let second = chars_of_option(b);
    let a_san = fold_chars(&first);
    let b_san = fold_chars(&second);
    same_chars(&a_san, &b_san)
}

/// Whether a text in lower case begins like a word for true: with `1`, `+`,
/// `t` or `y`.
pub open spec fn is_truthy(lowered: Seq<char>) -> bool {
    lowered.len() > 0 && (lowered[0] == '1' || lowered[0] == '+' || lowered[0] == 't'
        || lowered[0] == 'y')
}

/// Reads a truth value from a text: true where the text, whatever its case,
/// begins with `1`, `+`, `t` or `y`, as `1`, `+1`, `true` and `yes` do.
pub fn parse_bool(value: &str) -> (r: bool)
    ensures
        r == is_truthy(lowercase_of(value@)),
{
    let low = to_lowercase(value);
    let chars = chars_of(low.as_str());
    if chars.len() == 0 {
        return false;
    }
    let c: char = chars[0];
    c == '1' || c == '+' || c == 't' || c == 'y'
}

/// The digits of a text, in their order.
pub open spec fn digits_of(s: Seq<char>) -> Seq<char> {
    s.filter(|c: char| is_digit(c))
}

/// The number that a sequence of digits writes in base ten; 0 for none.
pub open spec fn decimal_value(digits: Seq<char>) -> nat
    decreases digits.len(),
{
    if digits.len() == 0 {
        0
    } else {
        decimal_value(digits.drop_last()) * 10 + (digits.last() as nat - '0' as nat) as nat
    }
}

/// The digits of a text grow by its last character where that is a digit.
pub proof fn lemma_digits_of_step(s: Seq<char>)
    requires
        s.len() > 0,
    ensures
        digits_of(s) == if is_digit(s.last()) {
            digits_of(s.drop_last()).push(s.last())
        } else {
            digits_of(s.drop_last())
        },
{
    reveal(Seq::filter);
}

/// Reads a number from the digits of a text, passing over every other
/// character. No digit at all, and a number too large for 64 bits, give 0.
pub fn parse_i64(value: Option<&str>) -> (r: i64)
    ensures
        r == if decimal_value(digits_of(text_of(value))) <= i64::MAX {
            decimal_value(digits_of(text_of(value))) as int
        } else {
            0
        },
{
    let chars = chars_of_option(value);
    let mut acc: i64 = 0;
    let mut too_large: bool = false;
    let mut i: usize = 0;
    proof {
        reveal(Seq::filter);
        assert(chars@.take(0) =~= Seq::<char>::empty());
    }
    while i < chars.len()
        invariant
            i <= chars.len(),
            0 <= acc,
            !too_large ==> acc == decimal_value(digits_of(chars@.take(i as int))),
            too_large ==> decimal_value(digits_of(chars@.take(i as int))) > i64::MAX,
        decreases chars.len() - i,
    {
        let c: char = chars[i];
        proof {
            let s = chars@.take(i + 1);
            assert(s.drop_last() == chars@.take(i as int));
            lemma_digits_of_step(s);
            if is_digit(c) {
                let d = digits_of(s);
                assert(d.drop_last() =~= digits_of(chars@.take(i as int)));
                assert(d.last() == c);
            }
        }
        if is_ascii_digit(c) && !too_large {
            let digit: i64 = (c as u8 - 48) as i64;
            if acc > (i64::MAX - digit) / 10 {
                too_large = true;
            } else {
                acc = acc * 10 + digit;
            }
        }
        i += 1;
    }
    assert(chars@.take(chars.len() as int) == chars@);
    if too_large {
        0
    } else {
        acc
    }
}

} // verus!
