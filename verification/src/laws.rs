//! What holds of every run of additions.

use vstd::prelude::*;
use crate::model::{
    count_in, counted, lemma_counted_total, lemma_listing_total, lists, nonnegative, total_of, Pair,
};

verus! {

/// The mapping after the sentences of `added` were counted in `m`, one after
/// the other.
pub open spec fn counted_all(m: Map<Seq<char>, int>, added: Seq<Seq<char>>) -> Map<Seq<char>, int>
    decreases added.len(),
{
    if added.len() == 0 {
        m
    } else {
        counted(counted_all(m, added.drop_last()), added.last())
    }
}

/// How often the sentence `k` stands in `added`.
pub open spec fn occurrences(added: Seq<Seq<char>>, k: Seq<char>) -> nat
    decreases added.len(),
{
    if added.len() == 0 {
        0
    } else if added.last() == k {
        occurrences(added.drop_last(), k) + 1
    } else {
        occurrences(added.drop_last(), k)
    }
}

/// After any run of additions, in any order, the count of a sentence is its
/// count before the run plus the number of times it was added.
pub proof fn law_count_is_number_of_additions(
    m: Map<Seq<char>, int>,
    added: Seq<Seq<char>>,
    k: Seq<char>,
)
    ensures
        count_in(counted_all(m, added), k) == count_in(m, k) + occurrences(added, k),
    decreases added.len(),
{
    if added.len() > 0 {
        law_count_is_number_of_additions(m, added.drop_last(), k);
    }
}

/// Starting from the record without entries, the count of a sentence is the
/// number of times it was added, and a sentence has an entry exactly where it
/// was added at least once.
pub proof fn law_count_from_empty(added: Seq<Seq<char>>, k: Seq<char>)
    ensures
        count_in(counted_all(Map::empty(), added), k) == occurrences(added, k),
        counted_all(Map::empty(), added).contains_key(k) <==> occurrences(added, k) > 0,
    decreases added.len(),
{
    law_count_is_number_of_additions(Map::empty(), added, k);
    if added.len() > 0 {
        law_count_from_empty(added.drop_last(), k);
    }
}

/// Additions never make a count negative.
pub proof fn law_additions_keep_counts_nonnegative(m: Map<Seq<char>, int>, added: Seq<Seq<char>>)
    requires
        nonnegative(m),
    ensures
        nonnegative(counted_all(m, added)),
    decreases added.len(),
{
    if added.len() > 0 {
        law_additions_keep_counts_nonnegative(m, added.drop_last());
    }
}

/// After any run of additions the counts sum to their sum before the run plus
/// the length of the run. `s` is any listing of `m`: it says that `m` has
/// finitely many entries.
pub proof fn law_total_is_number_of_additions(
    s: Seq<Pair>,
    m: Map<Seq<char>, int>,
    added: Seq<Seq<char>>,
)
    requires
        lists(s, m),
    ensures
        total_of(counted_all(m, added)) == total_of(m) + added.len(),
        exists|u: Seq<Pair>| lists(u, counted_all(m, added)),
    decreases added.len(),
{
    if added.len() > 0 {
        let shorter = added.drop_last();
        law_total_is_number_of_additions(s, m, shorter);
        let u = choose|u: Seq<Pair>| lists(u, counted_all(m, shorter));
        lemma_counted_total(u, counted_all(m, shorter), added.last());
    }
}

/// Starting from the record without entries, the counts sum to the number of
/// additions.
pub proof fn law_total_from_empty(added: Seq<Seq<char>>)
    ensures
        total_of(counted_all(Map::empty(), added)) == added.len(),
{
    let none = Seq::<Pair>::empty();
    assert(lists(none, Map::empty()));
    lemma_listing_total(none, Map::empty());
    law_total_is_number_of_additions(none, Map::empty(), added);
}

} // verus!
