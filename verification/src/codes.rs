//! Recognizers for waste management codes: disposal codes, recovery codes
//! and codes of the list of waste.

use vstd::prelude::*;
use crate::casing::{ascii_upper_first_of, upper_first};
use crate::chars::{
    ascii_lower, ascii_lowered, chars_of, is_ascii_digit, is_digit, is_space, same_chars,
    string_of, to_ascii_lower, token_of,
};
use crate::text::{skip_spaces, trim_chars, trim_end_index, trimmed};

verus! {

/// Whether the characters of `s` from `from` up to `to` are one or two
/// digits.
pub open spec fn is_short_number(s: Seq<char>, from: int, to: int) -> bool {
    &&& 0 <= from < to <= s.len()
    &&& to - from <= 2
    &&& forall|i: int| from <= i < to ==> is_digit(#[trigger] s[i])
}

/// Whether `s` is `letter`, small or capital, and a number after it: one or
/// two digits, and then either nothing or a dot and one or two digits more.
/// `letter` is given as a small letter.
pub open spec fn is_lettered_code(s: Seq<char>, letter: char) -> bool {
    &&& s.len() >= 2
    &&& ascii_lower(s[0]) == letter
    &&& {
        ||| is_short_number(s, 1, s.len() as int)
        ||| s.len() > 3 && s[2] == '.' && is_short_number(s, 1, 2) && is_short_number(
            s,
            3,
            s.len() as int,
        )
        ||| s.len() > 4 && s[3] == '.' && is_short_number(s, 1, 3) && is_short_number(
            s,
            4,
            s.len() as int,
        )
    }
}

/// Whether `s` is a disposal code: `D` and a number, as `is_lettered_code`
/// has it.
pub open spec fn is_disposal_code(s: Seq<char>) -> bool {
    is_lettered_code(s, 'd')
}

/// Whether `s` is a recovery code: `R` and a number, as `is_lettered_code`
/// has it.
pub open spec fn is_recovery_code(s: Seq<char>) -> bool {
    is_lettered_code(s, 'r')
}

/// What is left of `s` for a code of the list of waste: its digits and
/// asterisks, in their order.
pub open spec fn low_residue(s: Seq<char>) -> Seq<char> {
    s.filter(|c: char| is_digit(c) || c == '*')
}

/// Whether `s` is a code of the list of waste: two, four or six digits, or
/// six digits and an asterisk.
pub open spec fn is_low_code(s: Seq<char>) -> bool {
    let digits = if s.len() == 7 {
        6
    } else {
        s.len() as int
    };
    &&& s.len() == 2 || s.len() == 4 || s.len() == 6 || s.len() == 7
    &&& forall|i: int| 0 <= i < digits ==> is_digit(#[trigger] s[i])
    &&& s.len() == 7 ==> s[6] == '*'
}

/// The three families of codes.
#[derive(Clone, Copy, Debug, PartialEq, Eq, Structural)]
pub enum CodeFamily {
    /// Disposal operations, `D1` to `D15` and the like.
    Disposal,
    /// Recovery operations, `R1` to `R13` and the like.
    Recovery,
    /// Entries of the list of waste.
    ListOfWaste,
}

/// The family that a name stands for. Names are `disposalcode`,
/// `recoverycode` and `lowcode`, in small or capital letters.
pub open spec fn family_named(name: Seq<char>) -> Option<CodeFamily> {
    if ascii_lowered(name) == "disposalcode"@ {
        Some(CodeFamily::Disposal)
    } else if ascii_lowered(name) == "recoverycode"@ {
        Some(CodeFamily::Recovery)
    } else if ascii_lowered(name) == "lowcode"@ {
        Some(CodeFamily::ListOfWaste)
    } else {
        None
    }
}

/// Whether `v` holds one or two digits from `from` up to `to`.
fn short_number(v: &Vec<char>, from: usize, to: usize) -> (b: bool)
    requires
        from <= to <= v.len(),
    ensures
        b == is_short_number(v@, from as int, to as int),
{
    if to - from == 1 {
        is_ascii_digit(v[from])
    } else if to - from == 2 {
        let b: bool = is_ascii_digit(v[from]) && is_ascii_digit(v[from + 1]);
        proof {
            if b {
                assert forall|i: int| from <= i < to implies is_digit(#[trigger] v@[i]) by {
                    assert(i == from || i == from + 1);
                }
            }
        }
        b
    } else {
        false
    }
}

/// Whether `v` is `letter`, small or capital, and a number after it.
fn lettered_code(v: &Vec<char>, letter: char) -> (b: bool)
    ensures
        b == is_lettered_code(v@, letter),
{
    let n: usize = v.len();
    if n < 2 || to_ascii_lower(v[0]) != letter {
        return false;
    }
    if short_number(v, 1, n) {
        return true;
    }
    if n > 3 && v[2] == '.' && short_number(v, 1, 2) && short_number(v, 3, n) {
        return true;
    }
    n > 4 && v[3] == '.' && short_number(v, 1, 3) && short_number(v, 4, n)
}

/// Trims `value`, and puts its first letter in upper case where what is
/// left is `letter` and a number after it.
fn parse_lettered_code(value: &str, letter: char) -> (r: Option<String>)
    requires
        letter == 'd' || letter == 'r',
    ensures
        r is Some <==> is_lettered_code(trimmed(value@), letter),
        r matches Some(code) ==> code@ == ascii_upper_first_of(trimmed(value@)),
{
    let chars = chars_of(value);
    let san = trim_chars(&chars);
    if lettered_code(&san, letter) {
        let text = string_of(&san);
        upper_first(text.as_str())
    } else {
        None
    }
}

/// Recognizes a disposal code.
///
/// The text is trimmed. If what is left is `D` or `d`, one or two digits,
/// and then nothing more or a dot and one or two digits, it is returned with
/// a capital `D`. Any other text gives nothing.
pub fn parse_disposal_code(value: &str) -> (r: Option<String>)
    ensures
        r is Some <==> is_disposal_code(trimmed(value@)),
        r matches Some(code) ==> code@ == ascii_upper_first_of(trimmed(value@)),
        r matches Some(code) ==> code@[0] == 'D' && is_disposal_code(code@),
{
    let r = parse_lettered_code(value, 'd');
    proof {
        if r is Some {
            lemma_canonical_code(trimmed(value@), 'd');
        }
    }
    r
}

/// Recognizes a recovery code.
///
/// The text is trimmed. If what is left is `R` or `r`, one or two digits,
/// and then nothing more or a dot and one or two digits, it is returned with
/// a capital `R`. Any other text gives nothing.
pub fn parse_recovery_code(value: &str) -> (r: Option<String>)
    ensures
        r is Some <==> is_recovery_code(trimmed(value@)),
        r matches Some(code) ==> code@ == ascii_upper_first_of(trimmed(value@)),
        r matches Some(code) ==> code@[0] == 'R' && is_recovery_code(code@),
{
    let r = parse_lettered_code(value, 'r');
    proof {
        if r is Some {
            lemma_canonical_code(trimmed(value@), 'r');
        }
    }
    r
}

/// The residue of a text grows by its last character where that is a digit
/// or an asterisk, and not otherwise.
pub proof fn lemma_low_residue_step(s: Seq<char>)
    requires
        s.len() > 0,
    ensures
        low_residue(s) == if is_digit(s.last()) || s.last() == '*' {
            low_residue(s.drop_last()).push(s.last())
        } else {
            low_residue(s.drop_last())
        },
{
    reveal(Seq::filter);
}

/// The residue holds digits and asterisks only.
pub proof fn lemma_low_residue_chars(s: Seq<char>)
    ensures
        low_residue(s).len() <= s.len(),
        forall|i: int|
            0 <= i < low_residue(s).len() ==> is_digit(#[trigger] low_residue(s)[i])
                || low_residue(s)[i] == '*',
    decreases s.len(),
{
    reveal(Seq::filter);
    if s.len() > 0 {
        lemma_low_residue_chars(s.drop_last());
        lemma_low_residue_step(s);
    }
}

/// Whether `v` is a code of the list of waste.
fn low_code(v: &Vec<char>) -> (b: bool)
    ensures
        b == is_low_code(v@),
{
    let n: usize = v.len();
    if !(n == 2 || n == 4 || n == 6 || n == 7) {
        return false;
    }
    let digits: usize = if n == 7 {
        6
    } else {
        n
    };
    let mut i: usize = 0;
    while i < digits
        invariant
            n == v.len(),
            n == 2 || n == 4 || n == 6 || n == 7,
            digits == if n == 7 { 6usize } else { n },
            i <= digits <= n,
            forall|j: int| 0 <= j < i ==> is_digit(#[trigger] v@[j]),
        decreases digits - i,
    {
        if !is_ascii_digit(v[i]) {
            return false;
        }
        i += 1;
    }
    n < 7 || v[6] == '*'
}

/// Recognizes a code of the list of waste.
///
/// Every character but the digits and the asterisk is dropped from the
/// text, wherever it stands. If what is left is two, four or six digits, or
/// six digits and an asterisk, it is returned. Any other text gives nothing.
pub fn parse_low_code(value: &str) -> (r: Option<String>)
    ensures
        r is Some <==> is_low_code(low_residue(value@)),
        r matches Some(code) ==> code@ == low_residue(value@),
{
    let chars = chars_of(value);
    let mut san: Vec<char> = Vec::new();
    let mut i: usize = 0;
    proof {
        reveal(Seq::filter);
        assert(chars@.take(0) =~= Seq::<char>::empty());
    }
    while i < chars.len()
        invariant
            i <= chars.len(),
            san@ == low_residue(chars@.take(i as int)),
        decreases chars.len() - i,
    {
        let c: char = chars[i];
        proof {
            let s = chars@.take(i + 1);
            assert(s.drop_last() == chars@.take(i as int));
            lemma_low_residue_step(s);
        }
        if is_ascii_digit(c) || c == '*' {
            san.push(c);
        }
        i += 1;
    }
    assert(chars@.take(chars.len() as int) == chars@);
    if san.len() == 0 {
        return None;
    }
    if low_code(&san) {
        Some(string_of(&san))
    } else {
        None
    }
}

/// The canonical token that a text holds for a family of codes, or nothing
/// where it holds none.
pub open spec fn recognized(value: Seq<char>, family: CodeFamily) -> Option<Seq<char>> {
    match family {
        CodeFamily::Disposal => if is_disposal_code(trimmed(value)) {
            Some(ascii_upper_first_of(trimmed(value)))
        } else {
            None
        },
        CodeFamily::Recovery => if is_recovery_code(trimmed(value)) {
            Some(ascii_upper_first_of(trimmed(value)))
        } else {
            None
        },
        CodeFamily::ListOfWaste => if is_low_code(low_residue(value)) {
            Some(low_residue(value))
        } else {
            None
        },
    }
}

/// The canonical token that a text holds for the family of the given name:
/// nothing where the text or the name is empty, or the name is none of the
/// three.
pub open spec fn recognized_by_name(value: Seq<char>, name: Seq<char>) -> Option<Seq<char>> {
    if value.len() == 0 || name.len() == 0 {
        None
    } else {
        match family_named(name) {
            Some(family) => recognized(value, family),
            None => None,
        }
    }
}

/// The family that `name` stands for, in small or capital letters.
pub fn family_of_name(name: &str) -> (r: Option<CodeFamily>)
    ensures
        r == family_named(name@),
{
    let chars = chars_of(name);
    let mut low: Vec<char> = Vec::new();
    let mut i: usize = 0;
    while i < chars.len()
        invariant
            i <= chars.len(),
            low@ == ascii_lowered(chars@.take(i as int)),
        decreases chars.len() - i,
    {
        low.push(to_ascii_lower(chars[i]));
        assert(low@ =~= ascii_lowered(chars@.take(i + 1)));
        i += 1;
    }
    assert(chars@.take(chars.len() as int) == chars@);
    if same_chars(&low, &chars_of("disposalcode")) {
        Some(CodeFamily::Disposal)
    } else if same_chars(&low, &chars_of("recoverycode")) {
        Some(CodeFamily::Recovery)
    } else if same_chars(&low, &chars_of("lowcode")) {
        Some(CodeFamily::ListOfWaste)
    } else {
        None
    }
}

/// Recognizes a code of the family that `code_type` names: `disposalcode`,
/// `recoverycode` or `lowcode`, in small or capital letters.
///
/// An empty text, an empty name and a name that is none of the three give
/// nothing.
pub fn parse_env_code(value: &str, code_type: &str) -> (r: Option<String>)
    ensures
        token_of(r) == recognized_by_name(value@, code_type@),
{
    if code_type.is_empty() || value.is_empty() {
        return None;
    }
    match family_of_name(code_type) {
        Some(CodeFamily::Disposal) => parse_disposal_code(value),
        Some(CodeFamily::Recovery) => parse_recovery_code(value),
        Some(CodeFamily::ListOfWaste) => parse_low_code(value),
        None => None,
    }
}

/// Family names are matched without regard to case: two names that differ
/// in the case of their letters only select the same recognizer.
pub proof fn lemma_family_ignores_case(value: Seq<char>, a: Seq<char>, b: Seq<char>)
    requires
        ascii_lowered(a) == ascii_lowered(b),
    ensures
        family_named(a) == family_named(b),
        recognized_by_name(value, a) == recognized_by_name(value, b),
{
    assert(ascii_lowered(a).len() == a.len());
    assert(ascii_lowered(b).len() == b.len());
}

/// A token belongs to one family at most.
pub proof fn lemma_families_apart(s: Seq<char>)
    ensures
        !(is_disposal_code(s) && is_recovery_code(s)),
        !(is_disposal_code(s) && is_low_code(s)),
        !(is_recovery_code(s) && is_low_code(s)),
{
    if is_low_code(s) {
        assert(is_digit(s[0]));
    }
}

/// A text of digits and asterisks only is its own residue.
pub proof fn lemma_low_residue_of_residue(s: Seq<char>)
    requires
        forall|i: int| 0 <= i < s.len() ==> is_digit(#[trigger] s[i]) || s[i] == '*',
    ensures
        low_residue(s) == s,
    decreases s.len(),
{
    reveal(Seq::filter);
    if s.len() > 0 {
        let rest = s.drop_last();
        assert forall|i: int| 0 <= i < rest.len() implies is_digit(#[trigger] rest[i]) || rest[i]
            == '*' by {
            assert(rest[i] == s[i]);
        }
        lemma_low_residue_of_residue(rest);
        lemma_low_residue_step(s);
        assert(is_digit(s[s.len() - 1]) || s[s.len() - 1] == '*');
        assert(rest.push(s.last()) =~= s);
    }
}

/// A recognized token is in canonical form: read again for the same family,
/// it is recognized as it stands.
pub proof fn lemma_recognized_is_canonical(value: Seq<char>, family: CodeFamily)
    requires
        recognized(value, family) is Some,
    ensures
        recognized(recognized(value, family)->0, family) == recognized(value, family),
{
    let token = recognized(value, family)->0;
    match family {
        CodeFamily::ListOfWaste => {
            lemma_low_residue_chars(value);
            lemma_low_residue_of_residue(token);
        },
        _ => {
            let letter = if family == CodeFamily::Disposal {
                'd'
            } else {
                'r'
            };
            lemma_canonical_code(trimmed(value), letter);
            assert(is_lettered_code(token, letter));
            lemma_lettered_code_is_trim(token, letter);
        },
    }
}

/// A lettered code has no white space in it, so trimming leaves it as it
/// is.
pub proof fn lemma_lettered_code_is_trim(s: Seq<char>, letter: char)
    requires
        letter == 'd' || letter == 'r',
        is_lettered_code(s, letter),
    ensures
        trimmed(s) == s,
{
    let last = s.len() - 1;
    assert(!is_space(s[0]));
    assert(is_digit(s[last]));
    assert(!is_space(s[last]));
    assert(s.last() == s[last]);
    assert(skip_spaces(s, 0) == 0);
    assert(trim_end_index(s) == s.len());
    assert(s.subrange(0, s.len() as int) =~= s);
}

/// The canonical form of a lettered code is a code of the same family and
/// begins with the capital.
pub proof fn lemma_canonical_code(s: Seq<char>, letter: char)
    requires
        letter == 'd' || letter == 'r',
        is_lettered_code(s, letter),
    ensures
        is_lettered_code(ascii_upper_first_of(s), letter),
        letter == 'd' ==> ascii_upper_first_of(s)[0] == 'D',
        letter == 'r' ==> ascii_upper_first_of(s)[0] == 'R',
        ascii_upper_first_of(ascii_upper_first_of(s)) == ascii_upper_first_of(s),
{
    let c = ascii_upper_first_of(s);
    assert(c.len() == s.len());
    assert(forall|i: int| 1 <= i < s.len() ==> c[i] == s[i]);
    assert(ascii_upper_first_of(c) =~= c);
}

} // verus!
