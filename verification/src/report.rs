//! The statistics drawn from a frequency table: how many occurrences, how
//! many distinct words, and the most frequent word.

use vstd::prelude::*;
use vstd::string::*;
use crate::chars::string_of;
use crate::order::{
    lex_le, lex_le_antisymmetric, lex_le_reflexive, lex_le_total, lex_le_transitive, word_le,
};
use crate::table::{
    Entries, FrequencyTable, as_map, count_in, count_of_present, counted_word_stands,
    keys_match_entries, total_of, unique_within_total,
};

verus! {

/// Whether `word` is the most frequent word of `counts`: no word is counted
/// more often, and among the words counted as often it is the first in
/// lexicographic order.
pub open spec fn leads(counts: Map<Seq<char>, nat>, word: Seq<char>) -> bool {
    &&& counts.dom().contains(word)
    &&& forall|other: Seq<char>| #[trigger]
        counts.dom().contains(other) ==> counts[other] < counts[word] || (counts[other]
            == counts[word] && lex_le(word, other))
}

/// At most one word leads: ties are broken the same way every time.
pub proof fn leader_is_unique(counts: Map<Seq<char>, nat>, a: Seq<char>, b: Seq<char>)
    requires
        leads(counts, a),
        leads(counts, b),
    ensures
        a == b,
{
    lex_le_antisymmetric(a, b);
}

/// Whether the entry `(word, count)` ranks at least as high as
/// `(other_word, other_count)`.
pub open spec fn outranks(
    word: Seq<char>,
    count: nat,
    other_word: Seq<char>,
    other_count: nat,
) -> bool {
    other_count < count || (other_count == count && lex_le(word, other_word))
}

/// The summary of a frequency table.
#[derive(Debug)]
pub struct Report {
    /// The sum of all counts.
    pub total_words: usize,
    /// The number of distinct words.
    pub unique_words: usize,
    /// The most frequent word with its count; absent when no word was counted.
    pub most_common: Option<(String, usize)>,
}

impl Report {
    /// Whether this report is the summary of `entries`.
    pub open spec fn describes(&self, entries: Entries) -> bool {
        &&& self.total_words == total_of(entries)
        &&& self.unique_words == entries.len()
        &&& match self.most_common {
            None => entries.len() == 0,
            Some(best) => entries.len() > 0 && leads(as_map(entries), best.0@) && best.1
                == count_in(entries, best.0@),
        }
    }
}

/// The position of the most frequent word of a table that is not empty.
pub fn leader(table: &FrequencyTable) -> (best: usize)
    requires
        table.wf(),
        table@.len() > 0,
    ensures
        best < table@.len(),
        leads(as_map(table@), table@[best as int].0),
        count_in(table@, table@[best as int].0) == table@[best as int].1,
{
    let ghost e = table@;
    let mut best: usize = 0;
    let mut i: usize = 1;
    proof {
        lex_le_reflexive(e[0].0);
    }
    while i < table.len()
        invariant
            e == table@,
            1 <= i <= e.len(),
            best < i,
            forall|j: int|
                0 <= j < i ==> outranks(
                    e[best as int].0,
                    e[best as int].1,
                    (#[trigger] e[j]).0,
                    e[j].1,
                ),
        decreases e.len() - i,
    {
        let count: usize = table.count_at(i);
        let best_count: usize = table.count_at(best);
        let ghost previous = best;
        let better: bool = if count > best_count {
            true
        } else if count == best_count {
            word_le(table.word_at(i), table.word_at(best))
        } else {
            false
        };
        proof {
            lex_le_total(e[i as int].0, e[best as int].0);
            lex_le_reflexive(e[i as int].0);
        }
        if better {
            best = i;
            proof {
                assert forall|j: int| 0 <= j < i + 1 implies outranks(
                    e[best as int].0,
                    e[best as int].1,
                    (#[trigger] e[j]).0,
                    e[j].1,
                ) by {
                    if j < i {
                        let was = e[previous as int];
                        assert(outranks(was.0, was.1, e[j].0, e[j].1));
                        if e[j].1 == e[i as int].1 {
                            lex_le_transitive(e[i as int].0, e[previous as int].0, e[j].0);
                        }
                    }
                }
            }
        }
        i += 1;
    }
    proof {
        count_of_present(e, best as int);
        let word = e[best as int].0;
        let counts = as_map(e);
        assert forall|other: Seq<char>| #[trigger]
            counts.dom().contains(other) implies counts[other] < counts[word] || (counts[other]
            == counts[word] && lex_le(word, other)) by {
            let k = counted_word_stands(e, other);
            count_of_present(e, k);
            assert(outranks(e[best as int].0, e[best as int].1, e[k].0, e[k].1));
        }
    }
    best
}

/// Summarizes a table: the sum of its counts, the number of its words, and
/// its most frequent word, ties going to the lexicographically first.
pub fn report(table: &FrequencyTable) -> (summary: Report)
    requires
        table.wf(),
    ensures
        summary.describes(table@),
        summary.unique_words == as_map(table@).dom().len(),
        summary.unique_words <= summary.total_words,
        summary.most_common is None <==> summary.total_words == 0,
{
    proof {
        unique_within_total(table@);
        keys_match_entries(table@);
    }
    let total_words: usize = table.total();
    let unique_words: usize = table.len();
    let most_common: Option<(String, usize)> = if unique_words == 0 {
        None
    } else {
        let best: usize = leader(table);
        Some((string_of(table.word_at(best)), table.count_at(best)))
    };
    Report { total_words, unique_words, most_common }
}

/// The character for a digit below ten.
pub open spec fn digit_char(d: nat) -> char {
    if d == 0 {
        '0'
    } else if d == 1 {
        '1'
    } else if d == 2 {
        '2'
    } else if d == 3 {
        '3'
    } else if d == 4 {
        '4'
    } else if d == 5 {
        '5'
    } else if d == 6 {
        '6'
    } else if d == 7 {
        '7'
    } else if d == 8 {
        '8'
    } else {
        '9'
    }
}

/// A number in base ten, without leading zeros.
pub open spec fn decimal_digits(n: nat) -> Seq<char>
    decreases n,
{
    if n < 10 {
        seq![digit_char(n)]
    } else {
        decimal_digits(n / 10).push(digit_char(n % 10))
    }
}

/// The line that gives the sum of the counts.
pub open spec fn total_line(total: nat) -> Seq<char> {
    "Total words: "@ + decimal_digits(total)
}

/// The line that gives the number of distinct words.
pub open spec fn unique_line(unique: nat) -> Seq<char> {
    "Unique words: "@ + decimal_digits(unique)
}

/// The line that gives the most frequent word, or says that there is none.
pub open spec fn most_common_line(most_common: Option<(Seq<char>, nat)>) -> Seq<char> {
    match most_common {
        Some(best) => "Most common word: '"@ + best.0 + "' ("@ + decimal_digits(best.1)
            + " occurrences)"@,
        None => "No words found after filtering."@,
    }
}

fn digit_of(d: usize) -> (c: char)
    requires
        d < 10,
    ensures
        c == digit_char(d as nat),
{
    if d == 0 {
        '0'
    } else if d == 1 {
        '1'
    } else if d == 2 {
        '2'
    } else if d == 3 {
        '3'
    } else if d == 4 {
        '4'
    } else if d == 5 {
        '5'
    } else if d == 6 {
        '6'
    } else if d == 7 {
        '7'
    } else if d == 8 {
        '8'
    } else {
        '9'
    }
}

/// Appends a number in base ten to a text.
pub fn push_decimal(text: &mut String, n: usize)
    ensures
        final(text)@ == old(text)@ + decimal_digits(n as nat),
    decreases n,
{
    let ghost before = text@;
    if n >= 10 {
        push_decimal(text, n / 10);
    }
    text.push(digit_of(n % 10));
    proof {
        assert(text@ =~= before + decimal_digits(n as nat));
    }
}

impl Report {
    /// The most frequent word and its count as plain values.
    pub open spec fn spec_most_common(&self) -> Option<(Seq<char>, nat)> {
        match self.most_common {
            Some(best) => Some((best.0@, best.1 as nat)),
            None => None,
        }
    }

    /// The three lines that present the report: the sum of the counts, the
    /// number of distinct words, and the most frequent word with its count
    /// or a note that no word was counted.
    pub fn lines(&self) -> (lines: Vec<String>)
        ensures
            lines@.len() == 3,
            lines@[0]@ == total_line(self.total_words as nat),
            lines@[1]@ == unique_line(self.unique_words as nat),
            lines@[2]@ == most_common_line(self.spec_most_common()),
    {
        let mut total = String::from_str("Total words: ");
        push_decimal(&mut total, self.total_words);
        let mut unique = String::from_str("Unique words: ");
        push_decimal(&mut unique, self.unique_words);
        let most_common = match &self.most_common {
            Some(best) => {
                let mut line = String::from_str("Most common word: '");
                line.append(best.0.as_str());
                line.append("' (");
                push_decimal(&mut line, best.1);
                line.append(" occurrences)");
                line
            },
            None => String::from_str("No words found after filtering."),
        };
        let mut lines: Vec<String> = Vec::new();
        lines.push(total);
        lines.push(unique);
        lines.push(most_common);
        lines
    }
}

} // verus!
