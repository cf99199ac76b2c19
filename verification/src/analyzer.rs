//! The analysis pipeline: a text is split into candidate tokens, each token
//! is normalized, the tokens that the configuration admits are counted, and
//! the counts are summarized.

use vstd::prelude::*;
use vstd::multiset::*;
use vstd::seq_lib::*;
use crate::chars::{chars_of, string_of};
use crate::filter::Configuration;
use crate::report::{Report, leads, report};
use crate::table::{
    FrequencyTable, aggregate, aggregate_is_tidy, as_map, count_in, count_of_present,
    keys_match_entries,
    record_counts, record_total, total_of, unique_within_total,
};
use crate::token::{candidates, normal_form, normalize, tokenize, words_of};

verus! {

/// Whether a normalized token is counted: it is not empty and the
/// configuration admits it.
pub open spec fn counted(config: Configuration, token: Seq<char>) -> bool {
    token.len() > 0 && config.admits(token)
}

/// The tokens among `tokens` that are counted, in order.
pub open spec fn kept(tokens: Seq<Seq<char>>, config: Configuration) -> Seq<Seq<char>>
    decreases tokens.len(),
{
    if tokens.len() == 0 {
        Seq::empty()
    } else if counted(config, tokens.last()) {
        kept(tokens.drop_last(), config).push(tokens.last())
    } else {
        kept(tokens.drop_last(), config)
    }
}

/// The normal form of each word, in order.
pub open spec fn normal_forms(words: Seq<Seq<char>>) -> Seq<Seq<char>> {
    Seq::new(words.len(), |i: int| normal_form(words[i]))
}

/// The tokens of a text that are counted under a configuration, in order.
pub open spec fn counted_tokens(text: Seq<char>, config: Configuration) -> Seq<Seq<char>> {
    kept(normal_forms(candidates(text)), config)
}

/// The count of a word after aggregation is the number of its occurrences.
pub proof fn aggregate_counts(words: Seq<Seq<char>>, word: Seq<char>)
    ensures
        count_in(aggregate(words), word) == words.to_multiset().count(word),
    decreases words.len(),
{
    broadcast use group_multiset_axioms;

    if words.len() == 0 {
        words.to_multiset_ensures();
        assert(words.to_multiset().len() == 0);
    } else {
        let rest = words.drop_last();
        aggregate_counts(rest, word);
        record_counts(aggregate(rest), words.last(), word);
        to_multiset_build(rest, words.last());
        assert(rest.push(words.last()) =~= words);
    }
}

/// The sum of the counts after aggregation is the number of words counted.
pub proof fn aggregate_total(words: Seq<Seq<char>>)
    ensures
        total_of(aggregate(words)) == words.len(),
    decreases words.len(),
{
    if words.len() > 0 {
        aggregate_total(words.drop_last());
        record_total(aggregate(words.drop_last()), words.last());
    }
}

/// After aggregation the sum of the counts is the number of words counted,
/// the table has one key for each entry, and there are at most as many
/// distinct words as occurrences.
pub proof fn aggregate_sizes(words: Seq<Seq<char>>)
    ensures
        total_of(aggregate(words)) == words.len(),
        as_map(aggregate(words)).dom().finite(),
        as_map(aggregate(words)).dom().len() == aggregate(words).len(),
        aggregate(words).len() <= total_of(aggregate(words)),
{
    aggregate_total(words);
    aggregate_is_tidy(words);
    keys_match_entries(aggregate(words));
    unique_within_total(aggregate(words));
}

/// Filtering keeps every occurrence of a counted token and none of the
/// others.
pub proof fn kept_occurrences(tokens: Seq<Seq<char>>, config: Configuration, token: Seq<char>)
    ensures
        kept(tokens, config).to_multiset().count(token) == if counted(config, token) {
            tokens.to_multiset().count(token)
        } else {
            0
        },
    decreases tokens.len(),
{
    broadcast use group_multiset_axioms;

    if tokens.len() == 0 {
        tokens.to_multiset_ensures();
        assert(tokens.to_multiset().len() == 0);
        assert(kept(tokens, config) =~= tokens);
    } else {
        let rest = tokens.drop_last();
        kept_occurrences(rest, config, token);
        to_multiset_build(rest, tokens.last());
        assert(rest.push(tokens.last()) =~= tokens);
        if counted(config, tokens.last()) {
            to_multiset_build(kept(rest, config), tokens.last());
        }
    }
}

/// Filtering and aggregating do not depend on the order of the tokens: two
/// sequences that hold the same tokens equally often give the same table as
/// a mapping, and so the same most frequent word.
pub proof fn aggregation_ignores_order(
    first: Seq<Seq<char>>,
    second: Seq<Seq<char>>,
    config: Configuration,
)
    requires
        first.to_multiset() == second.to_multiset(),
    ensures
        as_map(aggregate(kept(first, config))) == as_map(aggregate(kept(second, config))),
        forall|word: Seq<char>|
            leads(as_map(aggregate(kept(first, config))), word) <==> leads(
                as_map(aggregate(kept(second, config))),
                word,
            ),
{
    let a = aggregate(kept(first, config));
    let b = aggregate(kept(second, config));
    assert forall|word: Seq<char>| count_in(a, word) == count_in(b, word) by {
        aggregate_counts(kept(first, config), word);
        aggregate_counts(kept(second, config), word);
        kept_occurrences(first, config, word);
        kept_occurrences(second, config, word);
    }
    assert(as_map(a) =~= as_map(b));
}

/// Normalizes one candidate token: what is not alphanumeric is dropped, the
/// rest is lowercased in full.
pub fn clean_word(word: &str) -> (token: String)
    ensures
        token@ == normal_form(word@),
{
    let chars = chars_of(word);
    let token = normalize(&chars);
    string_of(&token)
}

/// Counts the tokens of a text: each candidate token is normalized, and
/// counted if it is not empty and the configuration admits it.
pub fn analyze_text(text: &str, config: &Configuration) -> (table: FrequencyTable)
    ensures
        table.wf(),
        table@ == aggregate(counted_tokens(text@, *config)),
        total_of(table@) == counted_tokens(text@, *config).len(),
        forall|word: Seq<char>|
            count_in(table@, word) == counted_tokens(text@, *config).to_multiset().count(word),
        forall|i: int| 0 <= i < table@.len() ==> counted(*config, (#[trigger] table@[i]).0),
{
    let chars = chars_of(text);
    let tokens = tokenize(&chars);
    let ghost forms = normal_forms(candidates(text@));
    let mut table = FrequencyTable::new();
    let mut i: usize = 0;
    proof {
        assert(forms.take(0) =~= Seq::empty());
    }
    while i < tokens.len()
        invariant
            i <= tokens@.len(),
            words_of(tokens@) == candidates(text@),
            forms == normal_forms(candidates(text@)),
            table.wf(),
            table@ == aggregate(kept(forms.take(i as int), *config)),
            total_of(table@) <= i,
        decreases tokens@.len() - i,
    {
        let token = normalize(&tokens[i]);
        proof {
            assert(words_of(tokens@)[i as int] == tokens@[i as int]@);
            assert(forms.take(i + 1).drop_last() =~= forms.take(i as int));
            assert(forms.take(i + 1).last() == token@);
        }
        if token.len() > 0 && config.accepts(&token) {
            proof {
                let before = kept(forms.take(i as int), *config);
                assert(before.push(token@).drop_last() =~= before);
                record_total(table@, token@);
            }
            table.add(token);
        }
        i += 1;
    }
    proof {
        assert(forms.take(i as int) =~= forms);
        aggregate_total(counted_tokens(text@, *config));
        assert forall|word: Seq<char>|
            count_in(table@, word) == counted_tokens(text@, *config).to_multiset().count(
                word,
            ) by {
            aggregate_counts(counted_tokens(text@, *config), word);
        }
        assert forall|k: int| 0 <= k < table@.len() implies counted(
            *config,
            (#[trigger] table@[k]).0,
        ) by {
            count_of_present(table@, k);
            kept_occurrences(forms, *config, table@[k].0);
        }
    }
    table
}

/// Analyzes a text under a configuration and summarizes the counts. A text
/// in which nothing is counted gives zero totals and no most frequent word.
pub fn analyze(text: &str, config: &Configuration) -> (summary: Report)
    ensures
        summary.describes(aggregate(counted_tokens(text@, *config))),
        summary.total_words == counted_tokens(text@, *config).len(),
        summary.unique_words <= summary.total_words,
        summary.most_common is None <==> counted_tokens(text@, *config).len() == 0,
        text@.len() == 0 ==> summary.total_words == 0 && summary.unique_words == 0
            && summary.most_common is None,
{
    let table = analyze_text(text, config);
    proof {
        if text@.len() == 0 {
            assert(candidates(text@) =~= Seq::empty());
            assert(normal_forms(candidates(text@)) =~= Seq::empty());
        }
    }
    report(&table)
}

} // verus!
