//! Joining the parts of a name into one well-formed name.

use vstd::prelude::*;
use crate::casing::{to_uppercase, upper_first_of, uppercase_of};
use crate::chars::{chars_of, is_space, is_whitespace, string_of, token_of};

verus! {

/// The words of a text: its longest stretches without white space, in
/// their order.
pub open spec fn words_of(s: Seq<char>) -> Seq<Seq<char>>
    decreases s.len(),
{
    if s.len() == 0 {
        Seq::empty()
    } else if is_space(s.last()) {
        words_of(s.drop_last())
    } else if s.len() >= 2 && !is_space(s[s.len() - 2]) {
        let before = words_of(s.drop_last());
        before.drop_last().push(before.last().push(s.last()))
    } else {
        words_of(s.drop_last()).push(seq![s.last()])
    }
}

/// The words one after the other with one space between each two.
pub open spec fn joined(words: Seq<Seq<char>>) -> Seq<char>
    decreases words.len(),
{
    if words.len() == 0 {
        Seq::empty()
    } else if words.len() == 1 {
        words[0]
    } else {
        joined(words.drop_last()) + seq![' '] + words.last()
    }
}

/// The words, each with its first character in upper case.
pub open spec fn capitalized(words: Seq<Seq<char>>) -> Seq<Seq<char>> {
    words.map_values(|w: Seq<char>| upper_first_of(w))
}

/// The words of all the names that are present, in their order.
pub open spec fn all_words(names: Seq<Option<Seq<char>>>) -> Seq<Seq<char>>
    decreases names.len(),
{
    if names.len() == 0 {
        Seq::empty()
    } else {
        all_words(names.drop_last()) + match names.last() {
            Some(name) => words_of(name),
            None => Seq::empty(),
        }
    }
}

/// The full name made of the given parts: every word of every part with its
/// first character in upper case, and one space between each two words.
pub open spec fn full_name(names: Seq<Option<Seq<char>>>) -> Seq<char> {
    joined(capitalized(all_words(names)))
}

/// The texts of a list of optional strings.
pub open spec fn texts_of(names: Seq<Option<String>>) -> Seq<Option<Seq<char>>> {
    names.map_values(|name: Option<String>| token_of(name))
}

/// A text that does not end in white space ends in a word, and that word is
/// not empty.
pub proof fn lemma_last_word(s: Seq<char>)
    requires
        s.len() > 0,
        !is_space(s.last()),
    ensures
        words_of(s).len() > 0,
        words_of(s).last().len() > 0,
    decreases s.len(),
{
    if s.len() >= 2 && !is_space(s[s.len() - 2]) {
        lemma_last_word(s.drop_last());
    }
}

/// A further word is joined on with a space before it, unless it is the
/// first.
proof fn lemma_joined_push(words: Seq<Seq<char>>, word: Seq<char>)
    ensures
        joined(capitalized(words.push(word))) == if words.len() == 0 {
            upper_first_of(word)
        } else {
            joined(capitalized(words)) + seq![' '] + upper_first_of(word)
        },
{
    let all = capitalized(words.push(word));
    assert(all =~= capitalized(words).push(upper_first_of(word)));
    assert(all.drop_last() =~= capitalized(words));
}

/// A character more on the last word is a character more on the joined
/// text.
proof fn lemma_joined_extend(words: Seq<Seq<char>>, c: char)
    requires
        words.len() > 0,
        words.last().len() > 0,
    ensures
        joined(capitalized(words.drop_last().push(words.last().push(c)))) == joined(
            capitalized(words),
        ).push(c),
{
    let head = words.drop_last();
    let word = words.last();
    assert(words =~= head.push(word));
    lemma_joined_push(head, word);
    lemma_joined_push(head, word.push(c));
    assert(upper_first_of(word.push(c)) =~= upper_first_of(word).push(c));
    if head.len() > 0 {
        assert(joined(capitalized(head)) + seq![' '] + upper_first_of(word).push(c) =~= (joined(
            capitalized(head),
        ) + seq![' '] + upper_first_of(word)).push(c));
    }
}

/// Appends the words of `name` to `out`, each with its first character in
/// upper case and with a space before it unless it is the first word of
/// all. Returns whether `out` holds a word by now.
fn append_words(out: &mut Vec<char>, any_word: bool, name: &Vec<char>, Ghost(done): Ghost<
    Seq<Seq<char>>,
>) -> (any: bool)
    requires
        old(out)@ == joined(capitalized(done)),
        any_word == (done.len() > 0),
    ensures
        final(out)@ == joined(capitalized(done + words_of(name@))),
        any == ((done + words_of(name@)).len() > 0),
{
    let mut any: bool = any_word;
    let mut i: usize = 0;
    proof {
        assert(name@.take(0) =~= Seq::<char>::empty());
        assert(done + words_of(name@.take(0)) =~= done);
    }
    while i < name.len()
        invariant
            i <= name.len(),
            out@ == joined(capitalized(done + words_of(name@.take(i as int)))),
            any == ((done + words_of(name@.take(i as int))).len() > 0),
        decreases name.len() - i,
    {
        let c: char = name[i];
        let ghost before = name@.take(i as int);
        let ghost after = name@.take(i + 1);
        proof {
            assert(after.drop_last() =~= before);
            assert(after.last() == c);
            if i > 0 {
                assert(after[after.len() - 2] == name@[i - 1]);
                assert(before.last() == name@[i - 1]);
            }
        }
        if !is_whitespace(c) {
            if i > 0 && !is_whitespace(name[i - 1]) {
                proof {
                    lemma_last_word(before);
                    let all = done + words_of(before);
                    lemma_joined_extend(all, c);
                    assert(done + words_of(after) =~= all.drop_last().push(all.last().push(c)));
                }
                out.push(c);
            } else {
                proof {
                    lemma_joined_push(done + words_of(before), seq![c]);
                    assert(done + words_of(after) =~= (done + words_of(before)).push(seq![c]));
                    assert(upper_first_of(seq![c]) =~= uppercase_of(c));
                }
                if any {
                    out.push(' ');
                }
                let upper = to_uppercase(c);
                let ghost head = out@;
                let mut j: usize = 0;
                while j < upper.len()
                    invariant
                        j <= upper.len(),
                        out@ == head + upper@.take(j as int),
                    decreases upper.len() - j,
                {
                    out.push(upper[j]);
                    assert(out@ =~= head + upper@.take(j + 1));
                    j += 1;
                }
                assert(upper@.take(upper.len() as int) == upper@);
                any = true;
            }
        }
        i += 1;
    }
    assert(name@.take(name.len() as int) == name@);
    any
}

/// Joins the parts of a name into one name.
///
/// Parts that are absent or blank are passed over. Every word of every
/// other part gets its first character in upper case, and the words are
/// joined with one space between each two. No part at all gives the empty
/// string.
pub fn join_names_array(in_names: Vec<Option<String>>) -> (r: String)
    ensures
        r@ == full_name(texts_of(in_names@)),
{
    let ghost texts = texts_of(in_names@);
    let mut out: Vec<char> = Vec::new();
    let mut any: bool = false;
    let mut k: usize = 0;
    proof {
        assert(texts.take(0) =~= Seq::<Option<Seq<char>>>::empty());
    }
    while k < in_names.len()
        invariant
            k <= in_names.len(),
            texts == texts_of(in_names@),
            out@ == full_name(texts.take(k as int)),
            any == (all_words(texts.take(k as int)).len() > 0),
        decreases in_names.len() - k,
    {
        let ghost done = all_words(texts.take(k as int));
        proof {
            assert(texts.take(k + 1).drop_last() =~= texts.take(k as int));
            assert(texts.take(k + 1).last() == token_of(in_names@[k as int]));
        }
        match &in_names[k] {
            Some(name) => {
                let chars = chars_of(name.as_str());
                any = append_words(&mut out, any, &chars, Ghost(done));
            },
            None => {
                assert(done + Seq::<Seq<char>>::empty() =~= done);
            },
        }
        k += 1;
    }
    assert(texts.take(in_names.len() as int) == texts);
    string_of(&out)
}

} // verus!
