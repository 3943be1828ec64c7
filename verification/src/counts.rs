//! The record of counts and the operations on it.

use vstd::prelude::*;
use crate::error::CounterError;
use crate::json::{decode_counts, encode_counts, json_counts, json_text};
use crate::keys::{keys_ascend, lemma_ascending_is_distinct};
use crate::model::{
    count_in, counted, counts_nonnegative, distinct_keys, holds_place, lemma_counted_total,
    lemma_listing_nonnegative, lemma_listing_total, lemma_map_of_lists, lemma_map_of_update,
    lemma_permutation_lists, lists, map_of, ordered_by_count, pairs_of, total, total_of,
};
use crate::order::{rows_of, sort_by_count};

verus! {

/// How often each sentence was added.
///
/// No sentence has two entries and no count is negative. A sentence that was
/// never added has no entry.
pub struct SentenceCountsData {
    counts: Vec<(String, i32)>,
}

impl View for SentenceCountsData {
    type V = Map<Seq<char>, int>;

    closed spec fn view(&self) -> Map<Seq<char>, int> {
        map_of(pairs_of(self.counts@))
    }
}

/// `loaded` is a record, and its mapping is `m`.
pub open spec fn holds(loaded: Result<SentenceCountsData, CounterError>, m: Map<Seq<char>, int>)
    -> bool {
    loaded matches Ok(data) && data@ == m
}

/// `loaded` is the report that the file at `path` is invalid.
pub open spec fn rejects(loaded: Result<SentenceCountsData, CounterError>, path: Seq<char>)
    -> bool {
    loaded matches Err(e) && e is Parse && e.path() == path
}

/// The place of `sentence` among `counts`, if it has one.
fn position(counts: &Vec<(String, i32)>, sentence: &String) -> (place: Option<usize>)
    ensures
        holds_place(pairs_of(counts@), sentence@, place),
{
    let mut i: usize = 0;
    while i < counts.len()
        invariant
            i <= counts@.len(),
            forall|j: int| 0 <= j < i ==> (#[trigger] pairs_of(counts@)[j]).0 != sentence@,
        decreases counts@.len() - i,
    {
        if counts[i].0 == *sentence {
            assert(pairs_of(counts@)[i as int].0 == sentence@);
            return Some(i);
        }
        i += 1;
    }
    None
}

/// Gives `sentence` the count `n`: in its place where it has one, else in a
/// new entry behind the others.
fn put_at(counts: &mut Vec<(String, i32)>, place: Option<usize>, sentence: String, n: i32)
    requires
        distinct_keys(pairs_of(old(counts)@)),
        holds_place(pairs_of(old(counts)@), sentence@, place),
    ensures
        distinct_keys(pairs_of(final(counts)@)),
        map_of(pairs_of(final(counts)@)) == map_of(pairs_of(old(counts)@)).insert(
            sentence@,
            n as int,
        ),
        counts_nonnegative(pairs_of(old(counts)@)) && n >= 0 ==> counts_nonnegative(
            pairs_of(final(counts)@),
        ),
{
    let ghost before = pairs_of(counts@);
    match place {
        Some(i) => {
            proof {
                lemma_map_of_update(before, i as int, n as int);
                assert(pairs_of(counts@.update(i as int, (sentence, n))) =~= before.update(
                    i as int,
                    (sentence@, n as int),
                ));
            }
            counts.set(i, (sentence, n));
        },
        None => {
            proof {
                assert(pairs_of(counts@.push((sentence, n))) =~= before.push(
                    (sentence@, n as int),
                ));
                assert(before.push((sentence@, n as int)).drop_last() =~= before);
            }
            counts.push((sentence, n));
        },
    }
}

/// The entries of `counts` with each sentence once: where a sentence occurs
/// more than once, its last count stays.
fn merged(counts: &Vec<(String, i32)>) -> (out: Vec<(String, i32)>)
    requires
        counts_nonnegative(pairs_of(counts@)),
    ensures
        distinct_keys(pairs_of(out@)),
        counts_nonnegative(pairs_of(out@)),
        map_of(pairs_of(out@)) == map_of(pairs_of(counts@)),
{
    let ghost all = pairs_of(counts@);
    let mut out: Vec<(String, i32)> = Vec::new();
    let mut i: usize = 0;
    assert(pairs_of(out@) =~= all.take(0));
    while i < counts.len()
        invariant
            i <= counts@.len(),
            all == pairs_of(counts@),
            counts_nonnegative(all),
            distinct_keys(pairs_of(out@)),
            counts_nonnegative(pairs_of(out@)),
            map_of(pairs_of(out@)) == map_of(all.take(i as int)),
        decreases counts@.len() - i,
    {
        let sentence = counts[i].0.clone();
        let n: i32 = counts[i].1;
        proof {
            assert(all[i as int] == (sentence@, n as int));
            assert(all.take(i + 1).drop_last() =~= all.take(i as int));
        }
        let place = position(&out, &sentence);
        put_at(&mut out, place, sentence, n);
        i += 1;
    }
    assert(all.take(i as int) =~= all);
    out
}

/// Whether no count among `counts` is negative.
fn all_nonnegative(counts: &Vec<(String, i32)>) -> (yes: bool)
    ensures
        yes == counts_nonnegative(pairs_of(counts@)),
{
    let mut i: usize = 0;
    while i < counts.len()
        invariant
            i <= counts@.len(),
            forall|j: int| 0 <= j < i ==> (#[trigger] pairs_of(counts@)[j]).1 >= 0,
        decreases counts@.len() - i,
    {
        if counts[i].1 < 0 {
            assert(pairs_of(counts@)[i as int].1 < 0);
            return false;
        }
        i += 1;
    }
    true
}

impl SentenceCountsData {
    #[verifier::type_invariant]
    spec fn well_formed(&self) -> bool {
        &&& distinct_keys(pairs_of(self.counts@))
        &&& counts_nonnegative(pairs_of(self.counts@))
    }

    /// A record without entries.
    pub fn new() -> (data: SentenceCountsData)
        ensures
            data@ == Map::<Seq<char>, int>::empty(),
    {
        let data = SentenceCountsData { counts: Vec::new() };
        assert(pairs_of(data.counts@).len() == 0);
        data
    }

    /// The record that the text of a file holds.
    ///
    /// An empty text holds the record without entries. Any other text holds
    /// the mapping that the entries build which the JSON decoder reads from
    /// it, given that it reads any and that no count among them is negative;
    /// else the file at `sentences_file_path` is reported as invalid.
    pub fn load(sentences_file_path: &str, str_contents: &str) -> (loaded: Result<
        SentenceCountsData,
        CounterError,
    >)
        ensures
            str_contents@.len() == 0 ==> holds(loaded, Map::empty()),
            str_contents@.len() > 0 ==> match json_counts(str_contents@) {
                Some(pairs) => if counts_nonnegative(pairs) {
                    holds(loaded, map_of(pairs))
                } else {
                    rejects(loaded, sentences_file_path@)
                },
                None => rejects(loaded, sentences_file_path@),
            },
    {
        if str_contents.is_empty() {
            return Ok(Self::new());
        }
        let decoded = match decode_counts(str_contents) {
            Ok(counts) => Some(counts),
            Err(_) => None,
        };
        Self::from_decoded(sentences_file_path, decoded)
    }

    /// The record for what the decoder read from the file at
    /// `sentences_file_path`: the mapping that `decoded` builds where there
    /// is one and none of its counts is negative, else the report that the
    /// file is invalid.
    ///
    /// The decoder hands the entries out with each sentence before the next in
    /// the order of their bytes. Entries that come so hold no sentence twice
    /// and are taken as they are; any others are gone through one by one.
    pub fn from_decoded(sentences_file_path: &str, decoded: Option<Vec<(String, i32)>>) -> (loaded:
        Result<SentenceCountsData, CounterError>)
        ensures
            match decoded {
                Some(counts) => if counts_nonnegative(pairs_of(counts@)) {
                    holds(loaded, map_of(pairs_of(counts@)))
                } else {
                    rejects(loaded, sentences_file_path@)
                },
                None => rejects(loaded, sentences_file_path@),
            },
    {
        match decoded {
            Some(counts) => {
                if !all_nonnegative(&counts) {
                    Err(CounterError::Parse(sentences_file_path.to_owned()))
                } else if keys_ascend(&counts) {
                    proof {
                        lemma_ascending_is_distinct(pairs_of(counts@));
                    }
                    Ok(SentenceCountsData { counts })
                } else {
                    Ok(SentenceCountsData { counts: merged(&counts) })
                }
            },
            None => Err(CounterError::Parse(sentences_file_path.to_owned())),
        }
    }

    /// The JSON text of the record, as the encoder writes it.
    pub fn encode(&self) -> (encoded: Result<String, CounterError>)
        ensures
            match encoded {
                Ok(text) => json_text(self@) == Some(text@),
                Err(e) => e is Encode && json_text(self@) is None,
            },
    {
        proof {
            use_type_invariant(self);
        }
        match encode_counts(&self.counts) {
            Ok(text) => Ok(text),
            Err(error) => Err(CounterError::Encode(error)),
        }
    }

    /// The count of `sentence`: 0 where it was never added.
    pub fn count(&self, sentence: &str) -> (n: i32)
        ensures
            n == count_in(self@, sentence@),
            n >= 0,
    {
        proof {
            use_type_invariant(self);
            lemma_map_of_lists(pairs_of(self.counts@));
        }
        let key = sentence.to_owned();
        match position(&self.counts, &key) {
            Some(i) => self.counts[i].1,
            None => 0,
        }
    }

    /// Counts one more occurrence of `sentence`: its count rises by exactly 1,
    /// from 0 where it had no entry, and no other count changes.
    pub fn add_sentence(&mut self, sentence: String)
        requires
            count_in(old(self)@, sentence@) < i32::MAX,
        ensures
            final(self)@ == counted(old(self)@, sentence@),
            total_of(final(self)@) == total_of(old(self)@) + 1,
    {
        proof {
            use_type_invariant(&*self);
            lemma_map_of_lists(pairs_of(self.counts@));
            lemma_counted_total(pairs_of(self.counts@), self@, sentence@);
        }
        let place = position(&self.counts, &sentence);
        let n: i32 = match place {
            Some(i) => self.counts[i].1 + 1,
            None => 1,
        };
        // The entries leave the record while one of them changes, and come back
        // when they are in order again.
        let mut counts: Vec<(String, i32)> = Vec::new();
        core::mem::swap(&mut self.counts, &mut counts);
        put_at(&mut counts, place, sentence, n);
        self.counts = counts;
    }

    /// Every entry once, ordered by count: the lowest first, or with `rev` the
    /// highest first. Entries with the same count come in no promised order.
    pub fn sorted_vec(&self, rev: bool) -> (rows: Vec<(&String, &i32)>)
        ensures
            lists(rows_of(rows@), self@),
            ordered_by_count(rows_of(rows@), rev),
            counts_nonnegative(rows_of(rows@)),
            total(rows_of(rows@)) == total_of(self@),
    {
        let mut rows: Vec<(&String, &i32)> = Vec::new();
        let mut i: usize = 0;
        while i < self.counts.len()
            invariant
                i <= self.counts@.len(),
                rows_of(rows@) == pairs_of(self.counts@).take(i as int),
            decreases self.counts@.len() - i,
        {
            let ghost before = rows_of(rows@);
            rows.push((&self.counts[i].0, &self.counts[i].1));
            assert(rows_of(rows@) =~= before.push(pairs_of(self.counts@)[i as int]));
            assert(rows_of(rows@) =~= pairs_of(self.counts@).take(i + 1));
            i += 1;
        }
        let sorted = sort_by_count(rows, rev);
        proof {
            use_type_invariant(self);
            assert(pairs_of(self.counts@).take(i as int) =~= pairs_of(self.counts@));
            lemma_map_of_lists(pairs_of(self.counts@));
            lemma_permutation_lists(pairs_of(self.counts@), rows_of(sorted@), self@);
            lemma_listing_total(rows_of(sorted@), self@);
            lemma_listing_nonnegative(pairs_of(self.counts@), self@);
            lemma_listing_nonnegative(rows_of(sorted@), self@);
        }
        sorted
    }
}

} // verus!
