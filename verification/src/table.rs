//! The frequency table: each counted word with the number of its
//! occurrences, in the order in which the words first occurred.

use vstd::prelude::*;
use crate::order::same_word;

verus! {

/// A table as a sequence of words with their counts.
pub type Entries = Seq<(Seq<char>, nat)>;

/// The count that `entries` hold for `word`: zero if the word is absent.
pub open spec fn count_in(entries: Entries, word: Seq<char>) -> nat
    decreases entries.len(),
{
    if entries.len() == 0 {
        0
    } else {
        count_in(entries.drop_first(), word) + if entries[0].0 == word {
            entries[0].1
        } else {
            0
        }
    }
}

/// The sum of all counts.
pub open spec fn total_of(entries: Entries) -> nat
    decreases entries.len(),
{
    if entries.len() == 0 {
        0
    } else {
        entries[0].1 + total_of(entries.drop_first())
    }
}

/// The entries after one more occurrence of `word`: its count goes up by
/// one, or it joins at the end with count one.
pub open spec fn record(entries: Entries, word: Seq<char>) -> Entries
    decreases entries.len(),
{
    if entries.len() == 0 {
        seq![(word, 1nat)]
    } else if entries[0].0 == word {
        seq![(word, entries[0].1 + 1)] + entries.drop_first()
    } else {
        seq![entries[0]] + record(entries.drop_first(), word)
    }
}

/// The entries that counting `words` one by one, in order, leaves.
pub open spec fn aggregate(words: Seq<Seq<char>>) -> Entries
    decreases words.len(),
{
    if words.len() == 0 {
        Seq::empty()
    } else {
        record(aggregate(words.drop_last()), words.last())
    }
}

/// The table as a mapping from each word that it holds to its count.
pub open spec fn as_map(entries: Entries) -> Map<Seq<char>, nat> {
    Map::new(|w: Seq<char>| count_in(entries, w) > 0, |w: Seq<char>| count_in(entries, w))
}

/// No word stands twice and every count is at least one.
pub open spec fn tidy(entries: Entries) -> bool {
    &&& forall|i: int, j: int|
        0 <= i < entries.len() && 0 <= j < entries.len() && i != j ==> entries[i].0
            != entries[j].0
    &&& forall|i: int| 0 <= i < entries.len() ==> (#[trigger] entries[i]).1 >= 1
}

/// The entries are tidy and the sum of the counts fits in `usize`.
pub open spec fn well_formed(entries: Entries) -> bool {
    tidy(entries) && total_of(entries) <= usize::MAX
}

/// Recording a word raises its count by one and leaves the others.
pub proof fn record_counts(entries: Entries, word: Seq<char>, other: Seq<char>)
    ensures
        count_in(record(entries, word), other) == count_in(entries, other) + if other == word {
            1nat
        } else {
            0nat
        },
    decreases entries.len(),
{
    let r = record(entries, word);
    if entries.len() == 0 {
        assert(r.len() == 1 && r[0] == (word, 1nat));
        assert(r.drop_first() =~= Entries::empty());
        assert(count_in(r.drop_first(), other) == 0);
    } else if entries[0].0 == word {
        assert(r.len() > 0 && r[0] == (word, entries[0].1 + 1));
        assert(r.drop_first() =~= entries.drop_first());
    } else {
        record_counts(entries.drop_first(), word, other);
        assert(r.len() > 0 && r[0] == entries[0]);
        assert(r.drop_first() =~= record(entries.drop_first(), word));
    }
}

/// Recording a word raises the sum of the counts by one.
pub proof fn record_total(entries: Entries, word: Seq<char>)
    ensures
        total_of(record(entries, word)) == total_of(entries) + 1,
    decreases entries.len(),
{
    let r = record(entries, word);
    if entries.len() == 0 {
        assert(r.len() == 1 && r[0] == (word, 1nat));
        assert(r.drop_first() =~= Entries::empty());
        assert(total_of(r.drop_first()) == 0);
    } else if entries[0].0 == word {
        assert(r.len() > 0 && r[0] == (word, entries[0].1 + 1));
        assert(r.drop_first() =~= entries.drop_first());
    } else {
        record_total(entries.drop_first(), word);
        assert(r.len() > 0 && r[0] == entries[0]);
        assert(r.drop_first() =~= record(entries.drop_first(), word));
    }
}

/// Recording a word that stands at `at`, and nowhere before, raises the
/// count there.
pub proof fn record_present(entries: Entries, word: Seq<char>, at: int)
    requires
        0 <= at < entries.len(),
        entries[at].0 == word,
        forall|k: int| 0 <= k < at ==> (#[trigger] entries[k]).0 != word,
    ensures
        record(entries, word) == entries.update(at, (word, entries[at].1 + 1)),
    decreases entries.len(),
{
    if at == 0 {
        assert(record(entries, word) =~= entries.update(at, (word, entries[at].1 + 1)));
    } else {
        let rest = entries.drop_first();
        assert(entries[0].0 != word);
        assert forall|k: int| 0 <= k < at - 1 implies (#[trigger] rest[k]).0 != word by {
            assert(rest[k] == entries[k + 1]);
        }
        record_present(rest, word, at - 1);
        assert(record(entries, word) =~= entries.update(at, (word, entries[at].1 + 1)));
    }
}

/// Recording a word that stands nowhere appends it with count one.
pub proof fn record_absent(entries: Entries, word: Seq<char>)
    requires
        forall|k: int| 0 <= k < entries.len() ==> (#[trigger] entries[k]).0 != word,
    ensures
        record(entries, word) == entries.push((word, 1nat)),
    decreases entries.len(),
{
    if entries.len() == 0 {
        assert(record(entries, word) =~= entries.push((word, 1nat)));
    } else {
        let rest = entries.drop_first();
        assert(entries[0].0 != word);
        assert forall|k: int| 0 <= k < rest.len() implies (#[trigger] rest[k]).0 != word by {
            assert(rest[k] == entries[k + 1]);
        }
        record_absent(rest, word);
        assert(record(entries, word) =~= entries.push((word, 1nat)));
    }
}

/// No single count exceeds the sum of all counts.
pub proof fn count_within_total(entries: Entries, at: int)
    requires
        0 <= at < entries.len(),
    ensures
        entries[at].1 <= total_of(entries),
    decreases entries.len(),
{
    if at > 0 {
        count_within_total(entries.drop_first(), at - 1);
    }
}

/// There are at most as many distinct words as occurrences: every count is
/// at least one.
pub proof fn unique_within_total(entries: Entries)
    requires
        forall|i: int| 0 <= i < entries.len() ==> (#[trigger] entries[i]).1 >= 1,
    ensures
        entries.len() <= total_of(entries),
    decreases entries.len(),
{
    if entries.len() > 0 {
        let rest = entries.drop_first();
        assert forall|i: int| 0 <= i < rest.len() implies (#[trigger] rest[i]).1 >= 1 by {
            assert(rest[i] == entries[i + 1]);
        }
        unique_within_total(rest);
    }
}

/// A word that stands nowhere has count zero.
pub proof fn count_of_absent(entries: Entries, word: Seq<char>)
    requires
        forall|k: int| 0 <= k < entries.len() ==> (#[trigger] entries[k]).0 != word,
    ensures
        count_in(entries, word) == 0,
    decreases entries.len(),
{
    if entries.len() > 0 {
        let rest = entries.drop_first();
        assert(entries[0].0 != word);
        assert forall|k: int| 0 <= k < rest.len() implies (#[trigger] rest[k]).0 != word by {
            assert(rest[k] == entries[k + 1]);
        }
        count_of_absent(rest, word);
    }
}

/// Where no word stands twice, the count of a word is the count of the one
/// entry that holds it.
pub proof fn count_of_present(entries: Entries, at: int)
    requires
        0 <= at < entries.len(),
        forall|i: int, j: int|
            0 <= i < entries.len() && 0 <= j < entries.len() && i != j ==> entries[i].0
                != entries[j].0,
    ensures
        count_in(entries, entries[at].0) == entries[at].1,
    decreases entries.len(),
{
    let rest = entries.drop_first();
    let word = entries[at].0;
    if at == 0 {
        assert forall|k: int| 0 <= k < rest.len() implies (#[trigger] rest[k]).0 != word by {
            assert(rest[k] == entries[k + 1]);
        }
        count_of_absent(rest, word);
    } else {
        assert(entries[0].0 != word);
        assert forall|i: int, j: int|
            0 <= i < rest.len() && 0 <= j < rest.len() && i != j implies rest[i].0
            != rest[j].0 by {
            assert(rest[i] == entries[i + 1]);
            assert(rest[j] == entries[j + 1]);
        }
        assert(rest[at - 1] == entries[at]);
        count_of_present(rest, at - 1);
    }
}

/// A word with a count above zero stands somewhere in the table.
pub proof fn counted_word_stands(entries: Entries, word: Seq<char>) -> (at: int)
    requires
        count_in(entries, word) > 0,
    ensures
        0 <= at < entries.len(),
        entries[at].0 == word,
    decreases entries.len(),
{
    if entries[0].0 == word {
        0
    } else {
        let k = counted_word_stands(entries.drop_first(), word);
        assert(entries.drop_first()[k] == entries[k + 1]);
        k + 1
    }
}

/// The first position at which a word stands, given that it stands
/// somewhere.
pub proof fn first_position(entries: Entries, word: Seq<char>) -> (at: int)
    requires
        exists|k: int| 0 <= k < entries.len() && (#[trigger] entries[k]).0 == word,
    ensures
        0 <= at < entries.len(),
        entries[at].0 == word,
        forall|k: int| 0 <= k < at ==> (#[trigger] entries[k]).0 != word,
    decreases entries.len(),
{
    if entries[0].0 == word {
        0
    } else {
        let rest = entries.drop_first();
        let k = choose|k: int| 0 <= k < entries.len() && (#[trigger] entries[k]).0 == word;
        assert(rest[k - 1] == entries[k]);
        let at = first_position(rest, word);
        assert forall|j: int| 0 <= j < at + 1 implies (#[trigger] entries[j]).0 != word by {
            if j > 0 {
                assert(rest[j - 1] == entries[j]);
            }
        }
        assert(rest[at] == entries[at + 1]);
        at + 1
    }
}

/// Recording a word keeps the entries tidy.
pub proof fn record_keeps_tidy(entries: Entries, word: Seq<char>)
    requires
        tidy(entries),
    ensures
        tidy(record(entries, word)),
{
    if exists|k: int| 0 <= k < entries.len() && (#[trigger] entries[k]).0 == word {
        let at = first_position(entries, word);
        record_present(entries, word, at);
    } else {
        record_absent(entries, word);
    }
}

/// Aggregation leaves tidy entries: each word once, each count at least one.
pub proof fn aggregate_is_tidy(words: Seq<Seq<char>>)
    ensures
        tidy(aggregate(words)),
    decreases words.len(),
{
    if words.len() > 0 {
        aggregate_is_tidy(words.drop_last());
        record_keeps_tidy(aggregate(words.drop_last()), words.last());
    }
}

/// Tidy entries hold as many words as their mapping has keys.
pub proof fn keys_match_entries(entries: Entries)
    requires
        tidy(entries),
    ensures
        as_map(entries).dom().finite(),
        as_map(entries).dom().len() == entries.len(),
    decreases entries.len(),
{
    if entries.len() == 0 {
        assert(as_map(entries).dom() =~= Set::<Seq<char>>::empty());
    } else {
        let rest = entries.drop_first();
        let word = entries[0].0;
        assert(tidy(rest)) by {
            assert forall|i: int, j: int|
                0 <= i < rest.len() && 0 <= j < rest.len() && i != j implies rest[i].0
                != rest[j].0 by {
                assert(rest[i] == entries[i + 1]);
                assert(rest[j] == entries[j + 1]);
            }
        }
        keys_match_entries(rest);
        assert forall|k: int| 0 <= k < rest.len() implies (#[trigger] rest[k]).0 != word by {
            assert(rest[k] == entries[k + 1]);
        }
        count_of_absent(rest, word);
        assert(as_map(entries).dom() =~= as_map(rest).dom().insert(word));
    }
}

/// One word of the table with its count.
#[derive(Debug)]
pub struct Entry {
    word: Vec<char>,
    count: usize,
}

impl Entry {
    /// The entry as a word and its count.
    pub closed spec fn view(&self) -> (Seq<char>, nat) {
        (self.word@, self.count as nat)
    }
}

/// The occurrences counted so far.
#[derive(Debug)]
pub struct FrequencyTable {
    entries: Vec<Entry>,
}

impl FrequencyTable {
    /// The table as a sequence of words with their counts, in the order in
    /// which the words first occurred.
    pub closed spec fn view(&self) -> Entries {
        Seq::new(self.entries@.len(), |i: int| self.entries@[i]@)
    }

    /// The table's invariant: see `well_formed`.
    pub open spec fn wf(&self) -> bool {
        well_formed(self@)
    }

    /// The empty table.
    pub fn new() -> (table: Self)
        ensures
            table@ == Entries::empty(),
            table.wf(),
    {
        let table = FrequencyTable { entries: Vec::new() };
        proof {
            assert(table@ =~= Entries::empty());
        }
        table
    }

    /// The number of distinct words.
    pub fn len(&self) -> (n: usize)
        ensures
            n == self@.len(),
    {
        self.entries.len()
    }

    /// The word at a position, in order of first occurrence.
    pub fn word_at(&self, at: usize) -> (word: &Vec<char>)
        requires
            at < self@.len(),
        ensures
            word@ == self@[at as int].0,
    {
        &self.entries[at].word
    }

    /// The count at a position, in order of first occurrence.
    pub fn count_at(&self, at: usize) -> (count: usize)
        requires
            at < self@.len(),
        ensures
            count == self@[at as int].1,
    {
        self.entries[at].count
    }

    /// The position of a word, if the table holds it.
    pub fn position(&self, word: &Vec<char>) -> (found: Option<usize>)
        ensures
            match found {
                Some(at) => at < self@.len() && self@[at as int].0 == word@ && forall|k: int|
                    0 <= k < at ==> (#[trigger] self@[k]).0 != word@,
                None => forall|k: int| 0 <= k < self@.len() ==> (#[trigger] self@[k]).0 != word@,
            },
    {
        let mut i: usize = 0;
        while i < self.entries.len()
            invariant
                i <= self@.len(),
                self@.len() == self.entries@.len(),
                forall|k: int| 0 <= k < i ==> (#[trigger] self@[k]).0 != word@,
            decreases self.entries@.len() - i,
        {
            if same_word(&self.entries[i].word, word) {
                return Some(i);
            }
            i += 1;
        }
        None
    }

    /// The count of a word: zero if the table does not hold it.
    pub fn count(&self, word: &Vec<char>) -> (count: usize)
        requires
            self.wf(),
        ensures
            count == count_in(self@, word@),
    {
        match self.position(word) {
            Some(at) => {
                proof {
                    count_of_present(self@, at as int);
                }
                self.entries[at].count
            },
            None => {
                proof {
                    count_of_absent(self@, word@);
                }
                0
            },
        }
    }

    /// Counts one more occurrence of `word`. The sum of the counts must stay
    /// within `usize`.
    pub fn add(&mut self, word: Vec<char>)
        requires
            old(self).wf(),
            total_of(old(self)@) < usize::MAX,
        ensures
            final(self).wf(),
            final(self)@ == record(old(self)@, word@),
    {
        let ghost before = self@;
        proof {
            record_total(before, word@);
        }
        match self.position(&word) {
            Some(at) => {
                proof {
                    record_present(before, word@, at as int);
                    count_within_total(before, at as int);
                }
                let count: usize = self.entries[at].count;
                self.entries.set(at, Entry { word, count: count + 1 });
                proof {
                    assert(self@ =~= before.update(at as int, (word@, before[at as int].1 + 1)));
                }
            },
            None => {
                proof {
                    record_absent(before, word@);
                }
                self.entries.push(Entry { word, count: 1 });
                proof {
                    assert(self@ =~= before.push((word@, 1nat)));
                }
            },
        }
    }

    /// The sum of all counts.
    pub fn total(&self) -> (total: usize)
        requires
            self.wf(),
        ensures
            total == total_of(self@),
    {
        let mut total: usize = 0;
        let mut i: usize = 0;
        proof {
            assert(self@.skip(0) =~= self@);
        }
        while i < self.entries.len()
            invariant
                i <= self@.len(),
                self@.len() == self.entries@.len(),
                total + total_of(self@.skip(i as int)) == total_of(self@),
                total_of(self@) <= usize::MAX,
            decreases self.entries@.len() - i,
        {
            proof {
                assert(self@.skip(i as int).drop_first() =~= self@.skip(i + 1));
                assert(self@.skip(i as int)[0] == self@[i as int]);
            }
            total = total + self.entries[i].count;
            i += 1;
        }
        total
    }
}

} // verus!
