//! Splitting a text into candidate tokens and normalizing each of them.

use vstd::prelude::*;
use crate::chars::{is_whitespace_char, is_alphanumeric_char, lowercase_of, to_lowercase};

verus! {

/// Where the run of non-whitespace characters that covers position `from`
/// ends: the first position at or after `from` that holds whitespace, or the
/// end of the text.
pub open spec fn word_end(text: Seq<char>, from: int) -> int
    decreases text.len() - from,
{
    if from < 0 || from >= text.len() || is_whitespace_char(text[from]) {
        from
    } else {
        word_end(text, from + 1)
    }
}

/// A run ends inside the text, holds no whitespace, and is followed by
/// whitespace or by the end of the text.
pub proof fn word_end_bounds(text: Seq<char>, from: int)
    requires
        0 <= from <= text.len(),
    ensures
        from <= word_end(text, from) <= text.len(),
        from < text.len() && !is_whitespace_char(text[from]) ==> from < word_end(text, from),
        forall|k: int| from <= k < word_end(text, from) ==> !is_whitespace_char(#[trigger] text[k]),
        word_end(text, from) < text.len() ==> is_whitespace_char(text[word_end(text, from)]),
    decreases text.len() - from,
{
    if from < text.len() && !is_whitespace_char(text[from]) {
        word_end_bounds(text, from + 1);
    }
}

/// The candidate tokens of `text` that start at or after `from`: the maximal
/// runs of non-whitespace characters, in order.
pub open spec fn candidates_from(text: Seq<char>, from: int) -> Seq<Seq<char>>
    decreases text.len() - from,
    via candidates_from_decreases
{
    if from < 0 || from >= text.len() {
        Seq::empty()
    } else if is_whitespace_char(text[from]) {
        candidates_from(text, from + 1)
    } else {
        seq![text.subrange(from, word_end(text, from))] + candidates_from(
            text,
            word_end(text, from),
        )
    }
}

#[via_fn]
proof fn candidates_from_decreases(text: Seq<char>, from: int) {
    if 0 <= from < text.len() && !is_whitespace_char(text[from]) {
        word_end_bounds(text, from);
    }
}

/// The candidate tokens of a text.
pub open spec fn candidates(text: Seq<char>) -> Seq<Seq<char>> {
    candidates_from(text, 0)
}

/// A word is non-empty and holds no whitespace.
pub open spec fn is_word(w: Seq<char>) -> bool {
    w.len() > 0 && forall|k: int| 0 <= k < w.len() ==> !is_whitespace_char(#[trigger] w[k])
}

/// Every candidate token is non-empty and free of whitespace.
pub proof fn candidates_are_words(text: Seq<char>, from: int)
    requires
        0 <= from <= text.len(),
    ensures
        forall|i: int|
            0 <= i < candidates_from(text, from).len() ==> is_word(
                #[trigger] candidates_from(text, from)[i],
            ),
    decreases text.len() - from,
{
    if from >= text.len() {
        assert(candidates_from(text, from).len() == 0);
    } else {
        if is_whitespace_char(text[from]) {
            candidates_are_words(text, from + 1);
            assert(candidates_from(text, from) == candidates_from(text, from + 1));
        } else {
            word_end_bounds(text, from);
            candidates_are_words(text, word_end(text, from));
            let rest = candidates_from(text, word_end(text, from));
            let first = text.subrange(from, word_end(text, from));
            assert(candidates_from(text, from) =~= seq![first] + rest);
            assert forall|i: int| 0 <= i < candidates_from(text, from).len() implies is_word(
                #[trigger] candidates_from(text, from)[i],
            ) by {
                if i > 0 {
                    assert(candidates_from(text, from)[i] == rest[i - 1]);
                } else {
                    assert(candidates_from(text, from)[i] == first);
                    assert forall|k: int| 0 <= k < first.len() implies !is_whitespace_char(
                        #[trigger] first[k],
                    ) by {
                        assert(first[k] == text[from + k]);
                    }
                }
            }
        }
    }
}

/// The views of a vector of words.
pub open spec fn words_of(v: Seq<Vec<char>>) -> Seq<Seq<char>> {
    Seq::new(v.len(), |i: int| v[i]@)
}

/// Splits a text on runs of whitespace into its candidate tokens.
pub fn tokenize(text: &Vec<char>) -> (tokens: Vec<Vec<char>>)
    ensures
        words_of(tokens@) == candidates(text@),
        forall|i: int| 0 <= i < tokens@.len() ==> is_word(#[trigger] tokens@[i]@),
{
    let n: usize = text.len();
    let mut tokens: Vec<Vec<char>> = Vec::new();
    let mut i: usize = 0;
    while i < n
        invariant
            n == text@.len(),
            i <= n,
            words_of(tokens@) + candidates_from(text@, i as int) == candidates(text@),
        decreases n - i,
    {
        if text[i].is_whitespace() {
            i += 1;
        } else {
            let start: usize = i;
            let mut word: Vec<char> = Vec::new();
            while i < n && !text[i].is_whitespace()
                invariant
                    n == text@.len(),
                    start <= i <= n,
                    word@ == text@.subrange(start as int, i as int),
                    word_end(text@, i as int) == word_end(text@, start as int),
                decreases n - i,
            {
                word.push(text[i]);
                proof {
                    assert(word@ =~= text@.subrange(start as int, i + 1));
                }
                i += 1;
            }
            let ghost before = words_of(tokens@);
            tokens.push(word);
            proof {
                assert(word_end(text@, start as int) == i);
                assert(words_of(tokens@) =~= before.push(text@.subrange(start as int, i as int)));
                assert(words_of(tokens@) + candidates_from(text@, i as int) =~= before
                    + candidates_from(text@, start as int));
            }
        }
    }
    proof {
        assert(words_of(tokens@) + candidates_from(text@, i as int) =~= words_of(tokens@));
        candidates_are_words(text@, 0);
        assert forall|k: int| 0 <= k < tokens@.len() implies is_word(#[trigger] tokens@[k]@) by {
            assert(words_of(tokens@)[k] == tokens@[k]@);
        }
    }
    tokens
}

/// What one character contributes to a normalized token: its lowercase
/// mapping if it is alphanumeric, nothing otherwise.
pub open spec fn normal_form_of_char(c: char) -> Seq<char> {
    if is_alphanumeric_char(c) {
        lowercase_of(c)
    } else {
        Seq::empty()
    }
}

/// The normal form of a word: the lowercase mappings of its alphanumeric
/// characters, in order. A mapping may hold more than one character.
pub open spec fn normal_form(word: Seq<char>) -> Seq<char>
    decreases word.len(),
{
    if word.len() == 0 {
        Seq::empty()
    } else {
        normal_form(word.drop_last()) + normal_form_of_char(word.last())
    }
}

/// A word is in normal form when each of its characters is alphanumeric and
/// is its own lowercase mapping.
pub open spec fn is_normal(word: Seq<char>) -> bool {
    forall|i: int|
        0 <= i < word.len() ==> is_alphanumeric_char(#[trigger] word[i]) && lowercase_of(word[i])
            == seq![word[i]]
}

/// Normalizing is idempotent: a word that is in normal form is its own
/// normal form.
pub proof fn normal_form_idempotent(word: Seq<char>)
    requires
        is_normal(word),
    ensures
        normal_form(word) == word,
    decreases word.len(),
{
    if word.len() > 0 {
        normal_form_idempotent(word.drop_last());
        assert(normal_form(word) =~= word.drop_last() + seq![word.last()]);
        assert(word.drop_last() + seq![word.last()] =~= word);
    }
}

/// Normalizes a word: drops what is not alphanumeric and lowercases the rest.
pub fn normalize(word: &Vec<char>) -> (out: Vec<char>)
    ensures
        out@ == normal_form(word@),
{
    let mut out: Vec<char> = Vec::new();
    let mut i: usize = 0;
    while i < word.len()
        invariant
            i <= word@.len(),
            out@ == normal_form(word@.take(i as int)),
        decreases word@.len() - i,
    {
        let c: char = word[i];
        proof {
            assert(word@.take(i + 1).drop_last() =~= word@.take(i as int));
            assert(word@.take(i + 1).last() == c);
        }
        if c.is_alphanumeric() {
            let lower = to_lowercase(c);
            let ghost before = out@;
            let mut k: usize = 0;
            while k < lower.len()
                invariant
                    k <= lower@.len(),
                    out@ == before + lower@.take(k as int),
                decreases lower@.len() - k,
            {
                out.push(lower[k]);
                proof {
                    assert(out@ =~= before + lower@.take(k + 1));
                }
                k += 1;
            }
            proof {
                assert(lower@.take(k as int) =~= lower@);
            }
        } else {
            proof {
                assert(out@ + Seq::<char>::empty() =~= out@);
            }
        }
        i += 1;
    }
    proof {
        assert(word@.take(i as int) =~= word@);
    }
    out
}

} // verus!
