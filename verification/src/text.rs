//! Trimming and white-space normalization.

use vstd::prelude::*;
use crate::chars::{chars_of_option, is_space, is_whitespace, string_of, text_of};

verus! {

/// The first index at or after `from` that holds no white space; the length
/// of `s` where only white space follows.
pub open spec fn skip_spaces(s: Seq<char>, from: int) -> int
    decreases s.len() - from,
{
    if 0 <= from < s.len() && is_space(s[from]) {
        skip_spaces(s, from + 1)
    } else {
        from
    }
}

/// The index just past the last character of `s` that is no white space; 0
/// where `s` holds nothing else.
pub open spec fn trim_end_index(s: Seq<char>) -> int
    decreases s.len(),
{
    if s.len() > 0 && is_space(s.last()) {
        trim_end_index(s.drop_last())
    } else {
        s.len() as int
    }
}

/// `s` without the white space at its start and at its end.
pub open spec fn trimmed(s: Seq<char>) -> Seq<char> {
    let start = skip_spaces(s, 0);
    let end = trim_end_index(s);
    if start < end {
        s.subrange(start, end)
    } else {
        Seq::empty()
    }
}

/// `s` with every run of white space replaced by one space character: a
/// white-space character that follows another is dropped, every other one
/// becomes a space, and the rest stays as it is.
pub open spec fn collapsed(s: Seq<char>) -> Seq<char>
    decreases s.len(),
{
    if s.len() == 0 {
        s
    } else if !is_space(s.last()) {
        collapsed(s.drop_last()).push(s.last())
    } else if s.len() >= 2 && is_space(s[s.len() - 2]) {
        collapsed(s.drop_last())
    } else {
        collapsed(s.drop_last()).push(' ')
    }
}

/// Whether every character of `s` is white space.
pub open spec fn is_blank(s: Seq<char>) -> bool {
    forall|i: int| 0 <= i < s.len() ==> is_space(#[trigger] s[i])
}

/// Whether the indices `a` and `b` frame a stretch of `s` that has nothing
/// but white space before and after it.
pub open spec fn frames(s: Seq<char>, a: int, b: int) -> bool {
    &&& 0 <= a <= b <= s.len()
    &&& is_blank(s.subrange(0, a))
    &&& is_blank(s.subrange(b, s.len() as int))
}

/// `skip_spaces` stops within the sequence, has passed white space only, and
/// stands on a character that is none, if on any.
pub proof fn lemma_skip_spaces(s: Seq<char>, from: int)
    requires
        0 <= from <= s.len(),
    ensures
        from <= skip_spaces(s, from) <= s.len(),
        forall|i: int| from <= i < skip_spaces(s, from) ==> is_space(#[trigger] s[i]),
        skip_spaces(s, from) < s.len() ==> !is_space(s[skip_spaces(s, from)]),
    decreases s.len() - from,
{
    if from < s.len() && is_space(s[from]) {
        lemma_skip_spaces(s, from + 1);
    }
}

/// `trim_end_index` lies within the sequence, only white space follows it,
/// and the character before it is none, if there is any.
pub proof fn lemma_trim_end_index(s: Seq<char>)
    ensures
        0 <= trim_end_index(s) <= s.len(),
        forall|i: int| trim_end_index(s) <= i < s.len() ==> is_space(#[trigger] s[i]),
        trim_end_index(s) > 0 ==> !is_space(s[trim_end_index(s) - 1]),
    decreases s.len(),
{
    if s.len() > 0 && is_space(s.last()) {
        let rest = s.drop_last();
        lemma_trim_end_index(rest);
        assert forall|i: int| trim_end_index(s) <= i < s.len() implies is_space(
            #[trigger] s[i],
        ) by {
            if i < rest.len() {
                assert(s[i] == rest[i]);
            }
        }
        if trim_end_index(s) > 0 {
            assert(s[trim_end_index(s) - 1] == rest[trim_end_index(rest) - 1]);
        }
    }
}

/// What trimming means: the result is a stretch of `s` with nothing but
/// white space before and after it, and it neither begins nor ends with
/// white space.
pub proof fn lemma_trimmed(s: Seq<char>)
    ensures
        trimmed(s).len() > 0 ==> !is_space(trimmed(s).first()) && !is_space(trimmed(s).last()),
        exists|a: int, b: int| #[trigger] frames(s, a, b) && trimmed(s) == s.subrange(a, b),
        is_blank(s) <==> trimmed(s).len() == 0,
{
    lemma_skip_spaces(s, 0);
    lemma_trim_end_index(s);
    let start = skip_spaces(s, 0);
    let end = trim_end_index(s);
    if start < end {
        assert(frames(s, start, end));
        assert(!is_space(s[start]));
    } else {
        assert forall|i: int| 0 <= i < s.len() implies is_space(#[trigger] s[i]) by {
            if start < s.len() {
                assert(end > start);
            }
        }
        assert(frames(s, 0, 0));
        assert(trimmed(s) == s.subrange(0, 0));
    }
}

/// Trimming twice is trimming once.
pub proof fn lemma_trimmed_idempotent(s: Seq<char>)
    ensures
        trimmed(trimmed(s)) == trimmed(s),
{
    lemma_trimmed(s);
    let t = trimmed(s);
    if t.len() > 0 {
        assert(skip_spaces(t, 0) == 0);
        assert(trim_end_index(t) == t.len());
        assert(t.subrange(0, t.len() as int) == t);
    }
}

/// Trimming brings in no character: each one of the result stands in `s`.
pub proof fn lemma_trimmed_chars(s: Seq<char>)
    ensures
        forall|i: int| 0 <= i < trimmed(s).len() ==> s.contains(#[trigger] trimmed(s)[i]),
{
    lemma_skip_spaces(s, 0);
    lemma_trim_end_index(s);
    let start = skip_spaces(s, 0);
    assert forall|i: int| 0 <= i < trimmed(s).len() implies s.contains(
        #[trigger] trimmed(s)[i],
    ) by {
        assert(trimmed(s)[i] == s[start + i]);
    }
}

/// Collapsing brings in no character but the space: each other one of the
/// result stands in `s` and is no white space.
pub proof fn lemma_collapsed_chars(s: Seq<char>)
    ensures
        forall|i: int|
            0 <= i < collapsed(s).len() ==> #[trigger] collapsed(s)[i] == ' ' || (s.contains(
                collapsed(s)[i],
            ) && !is_space(collapsed(s)[i])),
    decreases s.len(),
{
    if s.len() > 0 {
        let rest = s.drop_last();
        lemma_collapsed_chars(rest);
        let c = collapsed(s);
        assert forall|i: int| 0 <= i < c.len() implies #[trigger] c[i] == ' ' || (s.contains(c[i])
            && !is_space(c[i])) by {
            if i < collapsed(rest).len() {
                assert(c[i] == collapsed(rest)[i]);
                if c[i] != ' ' {
                    let j = choose|j: int| 0 <= j < rest.len() && rest[j] == c[i];
                    assert(s[j] == c[i]);
                }
            } else {
                assert(c[i] == ' ' || c[i] == s.last());
                assert(s[s.len() - 1] == s.last());
            }
        }
    }
}

/// A collapsed text is empty only where the text is, and it begins and ends
/// as the text does, with a space for white space.
pub proof fn lemma_collapsed_ends(s: Seq<char>)
    requires
        s.len() > 0,
    ensures
        collapsed(s).len() > 0,
        collapsed(s).first() == if is_space(s.first()) { ' ' } else { s.first() },
        collapsed(s).last() == if is_space(s.last()) { ' ' } else { s.last() },
    decreases s.len(),
{
    if s.len() > 1 {
        let rest = s.drop_last();
        lemma_collapsed_ends(rest);
        assert(rest.first() == s.first());
        assert(rest.last() == s[s.len() - 2]);
        assert(collapsed(s)[0] == collapsed(rest)[0]);
    } else {
        assert(collapsed(s.drop_last()) =~= Seq::<char>::empty());
        assert(s.first() == s.last());
    }
}

/// A text that is white space throughout collapses to one space.
pub proof fn lemma_collapsed_blank(s: Seq<char>)
    requires
        s.len() > 0,
        is_blank(s),
    ensures
        collapsed(s) == seq![' '],
    decreases s.len(),
{
    if s.len() > 1 {
        let rest = s.drop_last();
        assert(is_blank(rest)) by {
            assert forall|i: int| 0 <= i < rest.len() implies is_space(#[trigger] rest[i]) by {
                assert(rest[i] == s[i]);
            }
        }
        lemma_collapsed_blank(rest);
        assert(is_space(s[s.len() - 2]));
        assert(is_space(s.last()));
    } else {
        assert(is_space(s[0]));
        assert(collapsed(s.drop_last()) =~= Seq::<char>::empty());
        assert(collapsed(s) =~= seq![' ']);
    }
}

/// Collapsing goes part by part where no run of white space crosses the
/// join.
pub proof fn lemma_collapsed_concat(x: Seq<char>, y: Seq<char>)
    requires
        x.len() == 0 || y.len() == 0 || !is_space(x.last()) || !is_space(y.first()),
    ensures
        collapsed(x + y) == collapsed(x) + collapsed(y),
    decreases y.len(),
{
    if y.len() == 0 {
        assert(x + y =~= x);
        assert(collapsed(x) + collapsed(y) =~= collapsed(x));
    } else if x.len() == 0 {
        assert(x + y =~= y);
        assert(collapsed(x) + collapsed(y) =~= collapsed(y));
    } else {
        let all = x + y;
        let rest = y.drop_last();
        assert(all.drop_last() =~= x + rest);
        assert(all.last() == y.last());
        if rest.len() > 0 {
            assert(rest.first() == y.first());
            assert(all[all.len() - 2] == y[y.len() - 2]);
        } else {
            assert(all[all.len() - 2] == x.last());
            assert(y.first() == y.last());
        }
        lemma_collapsed_concat(x, rest);
        assert(collapsed(all) =~= collapsed(x) + collapsed(y));
    }
}

/// A text that neither begins nor ends with white space is what trimming
/// leaves of it with white space put around it.
pub proof fn lemma_trimmed_of_padded(before: Seq<char>, x: Seq<char>, after: Seq<char>)
    requires
        is_blank(before),
        is_blank(after),
        x.len() > 0,
        !is_space(x.first()),
        !is_space(x.last()),
    ensures
        trimmed(before + x + after) == x,
{
    let s = before + x + after;
    lemma_skip_spaces(s, 0);
    lemma_trim_end_index(s);
    let start = skip_spaces(s, 0);
    let end = trim_end_index(s);
    let a = before.len() as int;
    let b = a + x.len();
    assert(s[a] == x.first());
    assert(s[b - 1] == x.last());
    assert forall|i: int| 0 <= i < a implies is_space(#[trigger] s[i]) by {
        assert(s[i] == before[i]);
    }
    assert forall|i: int| b <= i < s.len() implies is_space(#[trigger] s[i]) by {
        assert(s[i] == after[i - b]);
    }
    if start < a {
        assert(is_space(s[start]));
    }
    if start > a {
        assert(is_space(s[a]));
    }
    if end > b {
        assert(is_space(s[end - 1]));
    }
    if end < b {
        assert(is_space(s[b - 1]));
    }
    assert(s.subrange(a, b) =~= x);
}

/// To trim and then collapse is to collapse and then trim.
pub proof fn lemma_collapse_and_trim_commute(s: Seq<char>)
    ensures
        trimmed(collapsed(s)) == collapsed(trimmed(s)),
{
    lemma_skip_spaces(s, 0);
    lemma_trim_end_index(s);
    lemma_trimmed(s);
    let start = skip_spaces(s, 0);
    let end = trim_end_index(s);
    if start < end {
        let before = s.subrange(0, start);
        let x = s.subrange(start, end);
        let after = s.subrange(end, s.len() as int);
        assert(s =~= before + x + after);
        assert(!is_space(x.first()));
        assert(!is_space(x.last()));
        assert(is_blank(before));
        assert(is_blank(after));
        lemma_collapsed_concat(before, x);
        assert((before + x).last() == x.last());
        lemma_collapsed_concat(before + x, after);
        lemma_collapsed_ends(x);
        let cb = collapsed(before);
        let ca = collapsed(after);
        if before.len() > 0 {
            lemma_collapsed_blank(before);
        }
        if after.len() > 0 {
            lemma_collapsed_blank(after);
        }
        assert(is_blank(cb));
        assert(is_blank(ca));
        lemma_trimmed_of_padded(cb, collapsed(x), ca);
    } else {
        assert(is_blank(s));
        if s.len() > 0 {
            lemma_collapsed_blank(s);
        }
        let c = collapsed(s);
        assert(is_blank(c));
        lemma_trimmed(c);
        assert(trimmed(s).len() == 0);
        assert(collapsed(trimmed(s)) =~= Seq::<char>::empty());
        assert(trimmed(c) =~= Seq::<char>::empty());
    }
}

/// Whether the only white space in `s` is single spaces: every white-space
/// character is a space, and no two stand side by side.
pub open spec fn is_single_spaced(s: Seq<char>) -> bool {
    &&& forall|i: int| 0 <= i < s.len() && is_space(#[trigger] s[i]) ==> s[i] == ' '
    &&& forall|i: int| 0 < i < s.len() && is_space(#[trigger] s[i]) ==> !is_space(s[i - 1])
}

/// A collapsed text is single-spaced.
pub proof fn lemma_collapsed_single_spaced(s: Seq<char>)
    ensures
        is_single_spaced(collapsed(s)),
    decreases s.len(),
{
    if s.len() > 0 {
        let rest = s.drop_last();
        let c = collapsed(s);
        let head = collapsed(rest);
        lemma_collapsed_single_spaced(rest);
        if rest.len() > 0 {
            lemma_collapsed_ends(rest);
            assert(rest.last() == s[s.len() - 2]);
        }
        assert forall|i: int| 0 <= i < c.len() && is_space(#[trigger] c[i]) implies c[i]
            == ' ' by {
            if i < head.len() {
                assert(c[i] == head[i]);
            }
        }
        assert forall|i: int| 0 < i < c.len() && is_space(#[trigger] c[i]) implies !is_space(
            c[i - 1],
        ) by {
            if i < head.len() {
                assert(c[i] == head[i]);
                assert(c[i - 1] == head[i - 1]);
            } else {
                assert(c[i - 1] == head.last());
            }
        }
    }
}

/// Collapsing leaves a single-spaced text as it is.
pub proof fn lemma_collapsed_of_single_spaced(s: Seq<char>)
    requires
        is_single_spaced(s),
    ensures
        collapsed(s) == s,
    decreases s.len(),
{
    if s.len() > 0 {
        let rest = s.drop_last();
        assert(is_single_spaced(rest)) by {
            assert forall|i: int| 0 <= i < rest.len() && is_space(#[trigger] rest[i]) implies
                rest[i] == ' ' by {
                assert(rest[i] == s[i]);
            }
            assert forall|i: int| 0 < i < rest.len() && is_space(
                #[trigger] rest[i],
            ) implies !is_space(rest[i - 1]) by {
                assert(rest[i] == s[i]);
                assert(rest[i - 1] == s[i - 1]);
            }
        }
        lemma_collapsed_of_single_spaced(rest);
        let last = s.len() - 1;
        assert(s.last() == s[last]);
        if is_space(s[last]) {
            assert(s[last] == ' ');
            if s.len() >= 2 {
                assert(!is_space(s[last - 1]));
            }
        }
        assert(rest.push(s.last()) =~= s);
    }
}

/// Collapsing twice is collapsing once.
pub proof fn lemma_collapsed_idempotent(s: Seq<char>)
    ensures
        collapsed(collapsed(s)) == collapsed(s),
{
    lemma_collapsed_single_spaced(s);
    lemma_collapsed_of_single_spaced(collapsed(s));
}

/// Normalizing white space twice is normalizing it once.
pub proof fn lemma_normalized_idempotent(s: Seq<char>)
    ensures
        trimmed(collapsed(trimmed(collapsed(s)))) == trimmed(collapsed(s)),
{
    lemma_collapse_and_trim_commute(collapsed(s));
    lemma_collapsed_idempotent(s);
    lemma_trimmed_idempotent(collapsed(s));
}

/// The characters of `v` from the first to the last that is no white space.
pub fn trim_chars(v: &Vec<char>) -> (r: Vec<char>)
    ensures
        r@ == trimmed(v@),
{
    let mut start: usize = 0;
    while start < v.len() && is_whitespace(v[start])
        invariant
            start <= v.len(),
            skip_spaces(v@, 0) == skip_spaces(v@, start as int),
        decreases v.len() - start,
    {
        start += 1;
    }
    let mut end: usize = v.len();
    assert(v@.take(end as int) == v@);
    while end > 0 && is_whitespace(v[end - 1])
        invariant
            end <= v.len(),
            trim_end_index(v@) == trim_end_index(v@.take(end as int)),
        decreases end,
    {
        assert(v@.take(end as int).drop_last() == v@.take(end - 1));
        end -= 1;
    }
    let mut r: Vec<char> = Vec::new();
    if start < end {
        let mut i: usize = start;
        while i < end
            invariant
                start <= i <= end <= v.len(),
                r@ == v@.subrange(start as int, i as int),
            decreases end - i,
        {
            r.push(v[i]);
            i += 1;
        }
    }
    r
}

/// The characters of `v` with every run of white space made one space.
pub fn collapse_chars(v: &Vec<char>) -> (r: Vec<char>)
    ensures
        r@ == collapsed(v@),
{
    let mut r: Vec<char> = Vec::new();
    let mut after_space: bool = false;
    let mut i: usize = 0;
    assert(v@.take(0) == Seq::<char>::empty());
    while i < v.len()
        invariant
            i <= v.len(),
            r@ == collapsed(v@.take(i as int)),
            after_space == (i > 0 && is_space(v@[i - 1])),
        decreases v.len() - i,
    {
        let c: char = v[i];
        proof {
            let s = v@.take(i + 1);
            assert(s.drop_last() == v@.take(i as int));
            assert(s.last() == c);
            if i > 0 {
                assert(s[s.len() - 2] == v@[i - 1]);
            }
        }
        if !is_whitespace(c) {
            r.push(c);
            after_space = false;
        } else {
            if !after_space {
                r.push(' ');
            }
            after_space = true;
        }
        i += 1;
    }
    assert(v@.take(v.len() as int) == v@);
    r
}

/// Removes the white space around a text. An absent text gives the empty
/// string.
pub fn trim(value: Option<&str>) -> (r: String)
    ensures
        r@ == trimmed(text_of(value)),
{
    let chars = chars_of_option(value);
    let kept = trim_chars(&chars);
    string_of(&kept)
}

/// Normalizes the white space of a text: every run of spaces, tabs, line
/// breaks and the like becomes one space, and none is left at either end.
/// An absent text gives the empty string.
pub fn san_trim(value: Option<&str>) -> (r: String)
    ensures
        r@ == collapsed(trimmed(text_of(value))),
        r@ == trimmed(collapsed(text_of(value))),
{
    proof {
        lemma_collapse_and_trim_commute(text_of(value));
    }
    let chars = chars_of_option(value);
    let single = collapse_chars(&chars);
    let kept = trim_chars(&single);
    string_of(&kept)
}

} // verus!
