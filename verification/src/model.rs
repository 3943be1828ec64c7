//! The mathematical model of a record: a finite mapping from a sentence to its
//! count, and the sequences of pairs that list such a mapping.

use vstd::prelude::*;
use vstd::seq_lib::{lemma_fold_left_permutation, to_multiset_contains};

verus! {

/// A sentence as a sequence of characters, with its count.
pub type Pair = (Seq<char>, int);

/// The pairs that `v` holds, as mathematical values.
pub open spec fn pairs_of(v: Seq<(String, i32)>) -> Seq<Pair> {
    v.map_values(|e: (String, i32)| (e.0@, e.1 as int))
}

/// The count that `m` gives to `k`: a sentence without an entry counts 0.
pub open spec fn count_in(m: Map<Seq<char>, int>, k: Seq<char>) -> int {
    if m.contains_key(k) {
        m[k]
    } else {
        0
    }
}

/// The mapping after one more occurrence of `k` was counted.
pub open spec fn counted(m: Map<Seq<char>, int>, k: Seq<char>) -> Map<Seq<char>, int> {
    m.insert(k, count_in(m, k) + 1)
}

/// No sentence occurs in two places of `s`.
pub open spec fn distinct_keys(s: Seq<Pair>) -> bool {
    forall|i: int, j: int| 0 <= i < j < s.len() ==> (#[trigger] s[i]).0 != (#[trigger] s[j]).0
}

/// No count of `s` is negative.
pub open spec fn counts_nonnegative(s: Seq<Pair>) -> bool {
    forall|i: int| 0 <= i < s.len() ==> (#[trigger] s[i]).1 >= 0
}

/// No count of `m` is negative.
pub open spec fn nonnegative(m: Map<Seq<char>, int>) -> bool {
    forall|k: Seq<char>| m.contains_key(k) ==> #[trigger] m[k] >= 0
}

/// The sentence `k` occurs in `s`.
pub open spec fn has_key(s: Seq<Pair>, k: Seq<char>) -> bool {
    exists|i: int| 0 <= i < s.len() && (#[trigger] s[i]).0 == k
}

/// `place` is where `k` stands in `s`, or `None` where `k` does not occur.
pub open spec fn holds_place(s: Seq<Pair>, k: Seq<char>, place: Option<usize>) -> bool {
    match place {
        Some(i) => i < s.len() && s[i as int].0 == k,
        None => !has_key(s, k),
    }
}

/// `s` lists `m`: every pair of `s` is an entry of `m`, every entry of `m`
/// occurs in `s`, and none occurs twice.
pub open spec fn lists(s: Seq<Pair>, m: Map<Seq<char>, int>) -> bool {
    &&& distinct_keys(s)
    &&& forall|i: int| 0 <= i < s.len() ==> m.contains_pair((#[trigger] s[i]).0, s[i].1)
    &&& forall|k: Seq<char>| #[trigger] m.contains_key(k) ==> has_key(s, k)
}

/// The mapping that the pairs of `s` build, taken from the first to the last.
pub open spec fn map_of(s: Seq<Pair>) -> Map<Seq<char>, int>
    decreases s.len(),
{
    if s.len() == 0 {
        Map::empty()
    } else {
        map_of(s.drop_last()).insert(s.last().0, s.last().1)
    }
}

/// The sum of the counts of `s`.
pub open spec fn total(s: Seq<Pair>) -> int {
    s.fold_left(0int, |sum: int, p: Pair| sum + p.1)
}

/// The sum of the counts of `m`: that of any sequence that lists `m`.
pub open spec fn total_of(m: Map<Seq<char>, int>) -> int {
    total(choose|s: Seq<Pair>| lists(s, m))
}

/// A count `a` may stand before a count `b`: `a` is at most `b`, or with `rev`
/// at least `b`.
pub open spec fn precedes(a: int, b: int, rev: bool) -> bool {
    if rev {
        a >= b
    } else {
        a <= b
    }
}

/// The counts of `s` never fall (`rev` false) or never rise (`rev` true) from
/// one place to a later one.
pub open spec fn ordered_by_count(s: Seq<Pair>, rev: bool) -> bool {
    forall|i: int, j: int|
        0 <= i < j < s.len() ==> precedes((#[trigger] s[i]).1, (#[trigger] s[j]).1, rev)
}

/// A sequence with distinct sentences lists the mapping that it builds.
pub proof fn lemma_map_of_lists(s: Seq<Pair>)
    requires
        distinct_keys(s),
    ensures
        lists(s, map_of(s)),
        map_of(s).dom().finite(),
    decreases s.len(),
{
    if s.len() > 0 {
        let t = s.drop_last();
        let m = map_of(t);
        assert forall|i: int, j: int| 0 <= i < j < t.len() implies (#[trigger] t[i]).0 != (
        #[trigger] t[j]).0 by {
            assert(t[i] == s[i] && t[j] == s[j]);
        }
        lemma_map_of_lists(t);
        let n = map_of(s);
        assert forall|i: int| 0 <= i < s.len() implies n.contains_pair((#[trigger] s[i]).0, s[i].1) by {
            if i < t.len() {
                assert(t[i] == s[i]);
                assert(s[i].0 != s[s.len() - 1].0);
            }
        }
        assert forall|k: Seq<char>| #[trigger] n.contains_key(k) implies has_key(s, k) by {
            if k == s.last().0 {
                assert(s[s.len() - 1].0 == k);
            } else {
                assert(m.contains_key(k));
                let i = choose|i: int| 0 <= i < t.len() && (#[trigger] t[i]).0 == k;
                assert(s[i].0 == k);
            }
        }
    }
}

/// With distinct sentences, a new count in one place is a new count for that
/// place's sentence in the mapping, and the sentences stay distinct.
pub proof fn lemma_map_of_update(s: Seq<Pair>, i: int, c: int)
    requires
        distinct_keys(s),
        0 <= i < s.len(),
    ensures
        distinct_keys(s.update(i, (s[i].0, c))),
        map_of(s.update(i, (s[i].0, c))) == map_of(s).insert(s[i].0, c),
    decreases s.len(),
{
    let u = s.update(i, (s[i].0, c));
    assert forall|a: int, b: int| 0 <= a < b < u.len() implies (#[trigger] u[a]).0 != (
    #[trigger] u[b]).0 by {
        assert(u[a].0 == s[a].0 && u[b].0 == s[b].0);
    }
    let t = s.drop_last();
    if i == s.len() - 1 {
        assert(u.drop_last() == t);
        assert(map_of(u) == map_of(s).insert(s[i].0, c));
    } else {
        assert forall|a: int, b: int| 0 <= a < b < t.len() implies (#[trigger] t[a]).0 != (
        #[trigger] t[b]).0 by {
            assert(t[a] == s[a] && t[b] == s[b]);
        }
        lemma_map_of_update(t, i, c);
        assert(t[i] == s[i]);
        assert(u.drop_last() == t.update(i, (s[i].0, c)));
        assert(u.last() == s.last());
        assert(s[i].0 != s[s.len() - 1].0);
        assert(map_of(u) == map_of(s).insert(s[i].0, c));
    }
}

/// A sequence that holds the pairs of a listing of `m`, each as often, lists
/// `m` too.
pub proof fn lemma_permutation_lists(s: Seq<Pair>, t: Seq<Pair>, m: Map<Seq<char>, int>)
    requires
        lists(s, m),
        s.to_multiset() == t.to_multiset(),
    ensures
        lists(t, m),
{
    assert(s.no_duplicates());
    s.lemma_multiset_has_no_duplicates();
    t.lemma_multiset_has_no_duplicates_conv();
    assert forall|i: int| 0 <= i < t.len() implies m.contains_pair((#[trigger] t[i]).0, t[i].1) by {
        assert(t.contains(t[i]));
        to_multiset_contains(t, t[i]);
        to_multiset_contains(s, t[i]);
        let p = choose|p: int| 0 <= p < s.len() && s[p] == t[i];
        assert(m.contains_pair(s[p].0, s[p].1));
    }
    assert forall|i: int, j: int| 0 <= i < j < t.len() implies (#[trigger] t[i]).0 != (
    #[trigger] t[j]).0 by {
        if t[i].0 == t[j].0 {
            assert(m.contains_pair(t[i].0, t[i].1));
            assert(m.contains_pair(t[j].0, t[j].1));
            assert(t[i] == t[j]);
        }
    }
    assert forall|k: Seq<char>| #[trigger] m.contains_key(k) implies has_key(t, k) by {
        let p = choose|p: int| 0 <= p < s.len() && (#[trigger] s[p]).0 == k;
        assert(s.contains(s[p]));
        to_multiset_contains(s, s[p]);
        to_multiset_contains(t, s[p]);
        let q = choose|q: int| 0 <= q < t.len() && t[q] == s[p];
        assert(t[q].0 == k);
    }
}

/// Every pair of a listing of `m` occurs in every other listing of `m`.
proof fn lemma_listing_holds(s: Seq<Pair>, t: Seq<Pair>, m: Map<Seq<char>, int>, x: Pair)
    requires
        lists(s, m),
        lists(t, m),
        s.contains(x),
    ensures
        t.contains(x),
{
    let p = choose|p: int| 0 <= p < s.len() && s[p] == x;
    assert(m.contains_pair(s[p].0, s[p].1));
    let q = choose|q: int| 0 <= q < t.len() && (#[trigger] t[q]).0 == x.0;
    assert(m.contains_pair(t[q].0, t[q].1));
    assert(t[q] == x);
}

/// Two listings of one mapping hold the same pairs, each once.
pub proof fn lemma_listings_agree(s: Seq<Pair>, t: Seq<Pair>, m: Map<Seq<char>, int>)
    requires
        lists(s, m),
        lists(t, m),
    ensures
        s.to_multiset() == t.to_multiset(),
{
    assert(s.no_duplicates());
    assert(t.no_duplicates());
    s.lemma_multiset_has_no_duplicates();
    t.lemma_multiset_has_no_duplicates();
    assert forall|x: Pair| s.to_multiset().count(x) == t.to_multiset().count(x) by {
        to_multiset_contains(s, x);
        to_multiset_contains(t, x);
        if s.contains(x) {
            lemma_listing_holds(s, t, m, x);
        }
        if t.contains(x) {
            lemma_listing_holds(t, s, m, x);
        }
    }
    assert(s.to_multiset() =~= t.to_multiset());
}

/// The counts of any listing of `m` sum to the total of `m`.
pub proof fn lemma_listing_total(s: Seq<Pair>, m: Map<Seq<char>, int>)
    requires
        lists(s, m),
    ensures
        total(s) == total_of(m),
{
    let c = choose|c: Seq<Pair>| lists(c, m);
    lemma_listings_agree(s, c, m);
    lemma_fold_left_permutation(s, c, |sum: int, p: Pair| sum + p.1, 0int);
}

/// A listing has a negative count exactly where its mapping has one.
pub proof fn lemma_listing_nonnegative(s: Seq<Pair>, m: Map<Seq<char>, int>)
    requires
        lists(s, m),
    ensures
        counts_nonnegative(s) == nonnegative(m),
{
    if counts_nonnegative(s) {
        assert forall|k: Seq<char>| m.contains_key(k) implies #[trigger] m[k] >= 0 by {
            let i = choose|i: int| 0 <= i < s.len() && (#[trigger] s[i]).0 == k;
            assert(m.contains_pair(s[i].0, s[i].1));
        }
    }
    if nonnegative(m) {
        assert forall|i: int| 0 <= i < s.len() implies (#[trigger] s[i]).1 >= 0 by {
            assert(m.contains_pair(s[i].0, s[i].1));
            assert(m[s[i].0] >= 0);
        }
    }
}

/// A count changed in one place changes the sum by as much.
pub proof fn lemma_total_update(s: Seq<Pair>, i: int, c: int)
    requires
        0 <= i < s.len(),
    ensures
        total(s.update(i, (s[i].0, c))) == total(s) - s[i].1 + c,
    decreases s.len(),
{
    let u = s.update(i, (s[i].0, c));
    if i == s.len() - 1 {
        assert(u.drop_last() =~= s.drop_last());
    } else {
        lemma_total_update(s.drop_last(), i, c);
        assert(u.drop_last() =~= s.drop_last().update(i, (s[i].0, c)));
    }
}

/// Counting one more occurrence raises the total of a mapping by exactly 1,
/// and the new mapping can be listed as the old one could.
pub proof fn lemma_counted_total(s: Seq<Pair>, m: Map<Seq<char>, int>, k: Seq<char>)
    requires
        lists(s, m),
    ensures
        total_of(counted(m, k)) == total_of(m) + 1,
        exists|u: Seq<Pair>| lists(u, counted(m, k)),
{
    lemma_listing_total(s, m);
    let n = counted(m, k);
    if has_key(s, k) {
        let i = choose|i: int| 0 <= i < s.len() && (#[trigger] s[i]).0 == k;
        assert(m.contains_pair(s[i].0, s[i].1));
        let u = s.update(i, (k, s[i].1 + 1));
        assert forall|a: int, b: int| 0 <= a < b < u.len() implies (#[trigger] u[a]).0 != (
        #[trigger] u[b]).0 by {
            assert(u[a].0 == s[a].0 && u[b].0 == s[b].0);
        }
        assert forall|j: int| 0 <= j < u.len() implies n.contains_pair((#[trigger] u[j]).0, u[j].1) by {
            assert(m.contains_pair(s[j].0, s[j].1));
            if j != i {
                assert(u[j] == s[j]);
                if j < i {
                    assert(s[j].0 != s[i].0);
                } else {
                    assert(s[i].0 != s[j].0);
                }
            }
        }
        assert forall|q: Seq<char>| #[trigger] n.contains_key(q) implies has_key(u, q) by {
            let j = choose|j: int| 0 <= j < s.len() && (#[trigger] s[j]).0 == q;
            assert(u[j].0 == q);
        }
        lemma_total_update(s, i, s[i].1 + 1);
        assert(lists(u, n));
        lemma_listing_total(u, n);
    } else {
        let u = s.push((k, 1int));
        assert(u.drop_last() =~= s);
        assert forall|a: int, b: int| 0 <= a < b < u.len() implies (#[trigger] u[a]).0 != (
        #[trigger] u[b]).0 by {
            assert(u[a] == s[a]);
            if b < s.len() {
                assert(u[b] == s[b]);
            }
        }
        assert forall|j: int| 0 <= j < u.len() implies n.contains_pair((#[trigger] u[j]).0, u[j].1) by {
            if j < s.len() {
                assert(u[j] == s[j]);
                assert(m.contains_pair(s[j].0, s[j].1));
            }
        }
        assert forall|q: Seq<char>| #[trigger] n.contains_key(q) implies has_key(u, q) by {
            if q == k {
                assert(u[s.len() as int].0 == q);
            } else {
                let j = choose|j: int| 0 <= j < s.len() && (#[trigger] s[j]).0 == q;
                assert(u[j].0 == q);
            }
        }
        assert(lists(u, n));
        lemma_listing_total(u, n);
    }
}

} // verus!
