//! Markup stripping: tags are removed, stray angle brackets become
//! guillemets, and white space is normalized.

use vstd::prelude::*;
use crate::chars::{chars_of, is_ascii_letter, is_letter, is_whitespace, string_of, text_of};
use crate::text::{
    collapse_chars, collapsed, lemma_collapsed_chars, lemma_normalized_idempotent,
    lemma_skip_spaces, lemma_trimmed_chars, skip_spaces, trim_chars, trimmed,
};

verus! {

/// The guillemet that stands for a run of opening angle brackets.
pub const OPENING_GUILLEMET: char = '\u{ab}';

/// The guillemet that stands for a run of closing angle brackets.
pub const CLOSING_GUILLEMET: char = '\u{bb}';

/// The first index at or after `from` that holds `c`; the length of `s`
/// where none does.
pub open spec fn find_char(s: Seq<char>, from: int, c: char) -> int
    decreases s.len() - from,
{
    if 0 <= from < s.len() && s[from] != c {
        find_char(s, from + 1, c)
    } else {
        from
    }
}

/// Where the name of a tag would begin if a tag began at `at`: behind the
/// `<` and the `/` that may follow it.
pub open spec fn tag_name_index(s: Seq<char>, at: int) -> int {
    if at + 1 < s.len() && s[at + 1] == '/' {
        at + 2
    } else {
        at + 1
    }
}

/// The index just past the tag that begins at `at`; `at` itself where none
/// begins there. A tag is a `<`, a `/` or none, a letter, and all that
/// follows up to and with the next `>`.
pub open spec fn tag_end(s: Seq<char>, at: int) -> int {
    let name = tag_name_index(s, at);
    if 0 <= at < s.len() && s[at] == '<' && name < s.len() && is_letter(s[name]) {
        let close = find_char(s, name + 1, '>');
        if close < s.len() {
            close + 1
        } else {
            at
        }
    } else {
        at
    }
}

/// The characters of `s` from `from` on, without the tags among them. Tags
/// are found from left to right, and what a tag spans holds no further tag.
pub open spec fn without_tags_from(s: Seq<char>, from: int) -> Seq<char>
    decreases s.len() - from,
{
    if from < 0 || from >= s.len() {
        Seq::empty()
    } else if tag_end(s, from) > from {
        without_tags_from(s, tag_end(s, from))
    } else {
        seq![s[from]] + without_tags_from(s, from + 1)
    }
}

/// `s` without its tags.
pub open spec fn without_tags(s: Seq<char>) -> Seq<char> {
    without_tags_from(s, 0)
}

/// How far a run of the bracket `b` reaches beyond `from`, where a bracket
/// stands just before `from`: up to and with each further `b` that only
/// white space parts from the one before.
pub open spec fn run_rest(s: Seq<char>, from: int, b: char) -> nat
    decreases s.len() - from,
{
    let next = skip_spaces(s, from);
    if 0 <= from <= next < s.len() && s[next] == b {
        (next + 1 - from) as nat + run_rest(s, next + 1, b)
    } else {
        0
    }
}

/// The characters of `s` from `from` on, with each run of the bracket `b`
/// replaced by one `mark`. White space behind the last bracket of a run
/// stays.
pub open spec fn runs_marked_from(s: Seq<char>, from: int, b: char, mark: char) -> Seq<char>
    decreases s.len() - from,
    via runs_marked_from_terminates
{
    if from < 0 || from >= s.len() {
        Seq::empty()
    } else if s[from] == b {
        seq![mark] + runs_marked_from(s, from + 1 + run_rest(s, from + 1, b), b, mark)
    } else {
        seq![s[from]] + runs_marked_from(s, from + 1, b, mark)
    }
}

#[via_fn]
proof fn runs_marked_from_terminates(s: Seq<char>, from: int, b: char, mark: char) {
    if 0 <= from < s.len() {
        lemma_run_rest(s, from + 1, b);
    }
}

/// `s` with each run of the bracket `b` replaced by one `mark`.
pub open spec fn runs_marked(s: Seq<char>, b: char, mark: char) -> Seq<char> {
    runs_marked_from(s, 0, b, mark)
}

/// The sanitized form of a text: tags removed first, then each run of `<`
/// made one opening guillemet, then each run of `>` made one closing
/// guillemet, then white space collapsed and trimmed.
pub open spec fn stripped(s: Seq<char>) -> Seq<char> {
    trimmed(
        collapsed(
            runs_marked(
                runs_marked(without_tags(s), '<', OPENING_GUILLEMET),
                '>',
                CLOSING_GUILLEMET,
            ),
        ),
    )
}

/// `find_char` stops within the sequence, has passed no `c`, and stands on
/// a `c`, if on any character.
pub proof fn lemma_find_char(s: Seq<char>, from: int, c: char)
    requires
        0 <= from <= s.len(),
    ensures
        from <= find_char(s, from, c) <= s.len(),
        forall|i: int| from <= i < find_char(s, from, c) ==> #[trigger] s[i] != c,
        find_char(s, from, c) < s.len() ==> s[find_char(s, from, c)] == c,
    decreases s.len() - from,
{
    if from < s.len() && s[from] != c {
        lemma_find_char(s, from + 1, c);
    }
}

/// Where no `c` follows an index, none follows a later index.
pub proof fn lemma_find_char_none(s: Seq<char>, from: int, later: int, c: char)
    requires
        0 <= from <= later <= s.len(),
        find_char(s, from, c) == s.len(),
    ensures
        find_char(s, later, c) == s.len(),
{
    lemma_find_char(s, from, c);
    lemma_find_char(s, later, c);
}

/// A run ends within the sequence.
pub proof fn lemma_run_rest(s: Seq<char>, from: int, b: char)
    requires
        0 <= from <= s.len(),
    ensures
        from + run_rest(s, from, b) <= s.len(),
    decreases s.len() - from,
{
    lemma_skip_spaces(s, from);
    let next = skip_spaces(s, from);
    if next < s.len() && s[next] == b {
        lemma_run_rest(s, next + 1, b);
    }
}

/// Marking the runs of a bracket leaves none of that bracket, and brings in
/// no character but the mark.
pub proof fn lemma_runs_marked_chars(s: Seq<char>, from: int, b: char, mark: char)
    requires
        0 <= from <= s.len(),
    ensures
        forall|i: int|
            0 <= i < runs_marked_from(s, from, b, mark).len() ==> #[trigger] runs_marked_from(
                s,
                from,
                b,
                mark,
            )[i] == mark || (runs_marked_from(s, from, b, mark)[i] != b && s.contains(
                runs_marked_from(s, from, b, mark)[i],
            )),
    decreases s.len() - from,
{
    if from < s.len() {
        let next = if s[from] == b {
            from + 1 + run_rest(s, from + 1, b)
        } else {
            from + 1
        };
        lemma_run_rest(s, from + 1, b);
        lemma_runs_marked_chars(s, next, b, mark);
        let tail = runs_marked_from(s, next, b, mark);
        let all = runs_marked_from(s, from, b, mark);
        assert forall|i: int| 0 <= i < all.len() implies #[trigger] all[i] == mark || (all[i] != b
            && s.contains(all[i])) by {
            if i > 0 {
                assert(all[i] == tail[i - 1]);
            }
        }
    }
}

/// What is left of a text holds no angle bracket: nothing in it can be read
/// as markup.
pub proof fn lemma_stripped_has_no_angle_bracket(s: Seq<char>)
    ensures
        forall|i: int|
            0 <= i < stripped(s).len() ==> #[trigger] stripped(s)[i] != '<' && stripped(s)[i]
                != '>',
{
    let bare = without_tags(s);
    let opened = runs_marked(bare, '<', OPENING_GUILLEMET);
    let closed = runs_marked(opened, '>', CLOSING_GUILLEMET);
    let single = collapsed(closed);
    let r = stripped(s);
    lemma_runs_marked_chars(bare, 0, '<', OPENING_GUILLEMET);
    lemma_runs_marked_chars(opened, 0, '>', CLOSING_GUILLEMET);
    lemma_collapsed_chars(closed);
    lemma_trimmed_chars(single);
    assert forall|k: int| 0 <= k < closed.len() implies #[trigger] closed[k] != '<' && closed[k]
        != '>' by {
        if closed[k] != CLOSING_GUILLEMET {
            let j = choose|j: int| 0 <= j < opened.len() && opened[j] == closed[k];
            assert(opened[j] == OPENING_GUILLEMET || opened[j] != '<');
        }
    }
    assert forall|k: int| 0 <= k < single.len() implies #[trigger] single[k] != '<' && single[k]
        != '>' by {
        if single[k] != ' ' {
            let j = choose|j: int| 0 <= j < closed.len() && closed[j] == single[k];
            assert(closed[j] != '<' && closed[j] != '>');
        }
    }
    assert forall|i: int| 0 <= i < r.len() implies #[trigger] r[i] != '<' && r[i] != '>' by {
        let j = choose|j: int| 0 <= j < single.len() && single[j] == r[i];
        assert(single[j] != '<' && single[j] != '>');
    }
}

/// A text without `<` holds no tag.
pub proof fn lemma_without_tags_of_plain(s: Seq<char>, from: int)
    requires
        0 <= from <= s.len(),
        forall|i: int| 0 <= i < s.len() ==> #[trigger] s[i] != '<',
    ensures
        without_tags_from(s, from) == s.skip(from),
    decreases s.len() - from,
{
    if from < s.len() {
        assert(s[from] != '<');
        lemma_without_tags_of_plain(s, from + 1);
        assert(seq![s[from]] + s.skip(from + 1) =~= s.skip(from));
    } else {
        assert(s.skip(from) =~= Seq::<char>::empty());
    }
}

/// A text without the bracket `b` holds no run of it.
pub proof fn lemma_runs_marked_of_plain(s: Seq<char>, from: int, b: char, mark: char)
    requires
        0 <= from <= s.len(),
        forall|i: int| 0 <= i < s.len() ==> #[trigger] s[i] != b,
    ensures
        runs_marked_from(s, from, b, mark) == s.skip(from),
    decreases s.len() - from,
{
    if from < s.len() {
        assert(s[from] != b);
        lemma_runs_marked_of_plain(s, from + 1, b, mark);
        assert(seq![s[from]] + s.skip(from + 1) =~= s.skip(from));
    } else {
        assert(s.skip(from) =~= Seq::<char>::empty());
    }
}

/// A text without angle brackets keeps all its characters: only its white
/// space is normalized.
pub proof fn lemma_stripped_of_plain(s: Seq<char>)
    requires
        forall|i: int| 0 <= i < s.len() ==> #[trigger] s[i] != '<' && s[i] != '>',
    ensures
        stripped(s) == trimmed(collapsed(s)),
{
    lemma_without_tags_of_plain(s, 0);
    assert(s.skip(0) =~= s);
    lemma_runs_marked_of_plain(s, 0, '<', OPENING_GUILLEMET);
    lemma_runs_marked_of_plain(s, 0, '>', CLOSING_GUILLEMET);
}

/// A text that is one tag from end to end leaves nothing: the brackets of a
/// tag go with the tag and become no guillemets.
pub proof fn lemma_stripped_of_tag(s: Seq<char>)
    requires
        s.len() > 0,
        tag_end(s, 0) == s.len(),
    ensures
        stripped(s).len() == 0,
{
    let none = Seq::<char>::empty();
    assert(without_tags_from(s, s.len() as int) =~= none);
    assert(without_tags(s) =~= none);
    assert(runs_marked(none, '<', OPENING_GUILLEMET) =~= none);
    assert(runs_marked(none, '>', CLOSING_GUILLEMET) =~= none);
    assert(collapsed(none) =~= none);
    assert(trimmed(none) =~= none);
}

/// Sanitizing a text twice is sanitizing it once.
pub proof fn lemma_stripped_idempotent(s: Seq<char>)
    ensures
        stripped(stripped(s)) == stripped(s),
{
    let closed = runs_marked(
        runs_marked(without_tags(s), '<', OPENING_GUILLEMET),
        '>',
        CLOSING_GUILLEMET,
    );
    lemma_stripped_has_no_angle_bracket(s);
    lemma_stripped_of_plain(stripped(s));
    lemma_normalized_idempotent(closed);
}

/// The index of the first `c` at or after `from`, or the length of `v`.
fn find_from(v: &Vec<char>, from: usize, c: char) -> (r: usize)
    requires
        from <= v.len(),
    ensures
        r == find_char(v@, from as int, c),
        from <= r <= v.len(),
{
    let mut i: usize = from;
    while i < v.len() && v[i] != c
        invariant
            from <= i <= v.len(),
            find_char(v@, from as int, c) == find_char(v@, i as int, c),
        decreases v.len() - i,
    {
        i += 1;
    }
    i
}

/// The index of the first character at or after `from` that is no white
/// space, or the length of `v`.
fn skip_spaces_from(v: &Vec<char>, from: usize) -> (r: usize)
    requires
        from <= v.len(),
    ensures
        r == skip_spaces(v@, from as int),
        from <= r <= v.len(),
{
    let mut i: usize = from;
    while i < v.len() && is_whitespace(v[i])
        invariant
            from <= i <= v.len(),
            skip_spaces(v@, from as int) == skip_spaces(v@, i as int),
        decreases v.len() - i,
    {
        i += 1;
    }
    i
}

/// Removes the tags from `v`.
pub fn remove_tags(v: &Vec<char>) -> (r: Vec<char>)
    ensures
        r@ == without_tags(v@),
{
    let n: usize = v.len();
    let mut r: Vec<char> = Vec::new();
    let mut i: usize = 0;
    // Once no `>` is left ahead, no tag is.
    let mut open_ended: bool = false;
    while i < n
        invariant
            n == v.len(),
            i <= n,
            r@ + without_tags_from(v@, i as int) == without_tags(v@),
            open_ended ==> find_char(v@, i as int, '>') == n,
        decreases n - i,
    {
        let mut end: usize = i;
        if !open_ended && v[i] == '<' {
            let name: usize = if i + 1 < n && v[i + 1] == '/' {
                i + 2
            } else {
                i + 1
            };
            if name < n && is_ascii_letter(v[name]) {
                let close: usize = find_from(v, name + 1, '>');
                if close < n {
                    end = close + 1;
                } else {
                    open_ended = true;
                    proof {
                        lemma_find_char(v@, name as int + 1, '>');
                        lemma_find_char(v@, i as int, '>');
                        lemma_find_char(v@, i as int + 1, '>');
                        assert(v@[i as int] != '>');
                        if name == i + 2 {
                            assert(v@[i as int + 1] != '>');
                        }
                        assert(v@[name as int] != '>');
                    }
                }
            }
        }
        proof {
            if open_ended {
                lemma_find_char(v@, i as int, '>');
                lemma_find_char(v@, i as int + 1, '>');
                let name = tag_name_index(v@, i as int);
                if name + 1 <= n {
                    lemma_find_char_none(v@, i as int, name + 1, '>');
                }
                assert(tag_end(v@, i as int) == i);
            }
            assert(end == tag_end(v@, i as int));
        }
        if end > i {
            i = end;
        } else {
            let ghost before = r@;
            r.push(v[i]);
            assert(r@ + without_tags_from(v@, i as int + 1) =~= before + without_tags_from(
                v@,
                i as int,
            ));
            i += 1;
        }
    }
    assert(r@ + Seq::<char>::empty() =~= r@);
    r
}

/// Replaces each run of the bracket `b` in `v` by one `mark`.
pub fn mark_runs(v: &Vec<char>, b: char, mark: char) -> (r: Vec<char>)
    ensures
        r@ == runs_marked(v@, b, mark),
{
    let n: usize = v.len();
    let mut r: Vec<char> = Vec::new();
    let mut i: usize = 0;
    while i < n
        invariant
            n == v.len(),
            i <= n,
            r@ + runs_marked_from(v@, i as int, b, mark) == runs_marked(v@, b, mark),
        decreases n - i,
    {
        let ghost before = r@;
        if v[i] == b {
            r.push(mark);
            let mut end: usize = i + 1;
            loop
                invariant
                    n == v.len(),
                    i < end <= n,
                    i + 1 + run_rest(v@, i as int + 1, b) == end + run_rest(v@, end as int, b),
                ensures
                    i < end <= n,
                    end == i + 1 + run_rest(v@, i as int + 1, b),
                decreases n - end,
            {
                let next: usize = skip_spaces_from(v, end);
                if next < n && v[next] == b {
                    end = next + 1;
                } else {
                    break ;
                }
            }
            assert(r@ + runs_marked_from(v@, end as int, b, mark) =~= before + runs_marked_from(
                v@,
                i as int,
                b,
                mark,
            ));
            i = end;
        } else {
            r.push(v[i]);
            assert(r@ + runs_marked_from(v@, i as int + 1, b, mark) =~= before
                + runs_marked_from(v@, i as int, b, mark));
            i += 1;
        }
    }
    assert(r@ + Seq::<char>::empty() =~= r@);
    r
}

/// Sanitizes the characters of a text: see `stripped`.
pub fn strip_chars(v: &Vec<char>) -> (r: Vec<char>)
    ensures
        r@ == stripped(v@),
{
    let bare = remove_tags(v);
    let opened = mark_runs(&bare, '<', OPENING_GUILLEMET);
    let closed = mark_runs(&opened, '>', CLOSING_GUILLEMET);
    let single = collapse_chars(&closed);
    trim_chars(&single)
}

/// Strips the markup from a text so that it can stand inside a document
/// without being read as markup.
///
/// Every tag is removed with all it spans from `<` to `>`. Of the angle
/// brackets that are left, each run of `<` becomes one opening guillemet and
/// each run of `>` one closing guillemet. White space is then collapsed and
/// trimmed. An absent text gives the empty string.
pub fn strip_tags(value: Option<&str>) -> (r: String)
    ensures
        r@ == stripped(text_of(value)),
        value is None ==> r@.len() == 0,
        forall|i: int| 0 <= i < r@.len() ==> #[trigger] r@[i] != '<' && r@[i] != '>',
{
    proof {
        lemma_stripped_has_no_angle_bracket(text_of(value));
    }
    match value {
        Some(input) => {
            let chars = chars_of(input);
            let clean = strip_chars(&chars);
            string_of(&clean)
        },
        None => {
            assert(stripped(Seq::<char>::empty()) =~= Seq::<char>::empty()) by {
                reveal_with_fuel(collapsed, 2);
                reveal_with_fuel(without_tags_from, 2);
                reveal_with_fuel(runs_marked_from, 2);
                reveal_with_fuel(skip_spaces, 2);
            }
            String::new()
        },
    }
}

} // verus!
