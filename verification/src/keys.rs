//! The order of sentences by their bytes, by which a run of entries is seen to
//! hold no sentence twice.

use vstd::prelude::*;
use vstd::utf8::encode_utf8;
use crate::model::{distinct_keys, pairs_of, Pair};

verus! {

/// `a` and `b` are the same up to the place `i`, where `a` ends or has the
/// smaller byte, and `b` goes on.
pub open spec fn parts_at(a: Seq<u8>, b: Seq<u8>, i: int) -> bool {
    &&& 0 <= i <= a.len()
    &&& i < b.len()
    &&& forall|j: int| 0 <= j < i ==> a[j] == b[j]
    &&& (i == a.len() || a[i] < b[i])
}

/// `a` stands before `b` in the order of the dictionary, byte by byte.
pub open spec fn bytes_before(a: Seq<u8>, b: Seq<u8>) -> bool {
    exists|i: int| parts_at(a, b, i)
}

/// The bytes of the sentence of `p`.
pub open spec fn key_bytes(p: Pair) -> Seq<u8> {
    encode_utf8(p.0)
}

/// Each sentence of `s` stands before the next one.
pub open spec fn ascending_keys(s: Seq<Pair>) -> bool {
    forall|i: int| 0 <= i < s.len() - 1 ==> bytes_before(#[trigger] key_bytes(s[i]), key_bytes(s[i + 1]))
}

/// What stands before something that stands before `c` stands before `c`.
pub proof fn lemma_before_is_transitive(a: Seq<u8>, b: Seq<u8>, c: Seq<u8>)
    requires
        bytes_before(a, b),
        bytes_before(b, c),
    ensures
        bytes_before(a, c),
{
    let i = choose|i: int| parts_at(a, b, i);
    let j = choose|j: int| parts_at(b, c, j);
    if i <= j {
        assert(parts_at(a, c, i));
    } else {
        assert(parts_at(a, c, j));
    }
}

/// In an ascending run every sentence stands before every later one.
pub proof fn lemma_ascending_all(s: Seq<Pair>, i: int, j: int)
    requires
        ascending_keys(s),
        0 <= i < j < s.len(),
    ensures
        bytes_before(key_bytes(s[i]), key_bytes(s[j])),
    decreases j - i,
{
    if i + 1 < j {
        lemma_ascending_all(s, i, j - 1);
        assert(bytes_before(key_bytes(s[j - 1]), key_bytes(s[j - 1 + 1])));
        lemma_before_is_transitive(key_bytes(s[i]), key_bytes(s[j - 1]), key_bytes(s[j]));
    }
}

/// An ascending run holds no sentence twice.
pub proof fn lemma_ascending_is_distinct(s: Seq<Pair>)
    requires
        ascending_keys(s),
    ensures
        distinct_keys(s),
{
    assert forall|i: int, j: int| 0 <= i < j < s.len() implies (#[trigger] s[i]).0 != (
    #[trigger] s[j]).0 by {
        lemma_ascending_all(s, i, j);
        let k = choose|k: int| parts_at(key_bytes(s[i]), key_bytes(s[j]), k);
        assert(key_bytes(s[i]) != key_bytes(s[j]));
    }
}

/// Whether `a` stands before `b`.
pub fn stands_before(a: &[u8], b: &[u8]) -> (yes: bool)
    ensures
        yes == bytes_before(a@, b@),
{
    let mut i: usize = 0;
    while i < a.len() && i < b.len()
        invariant
            i <= a@.len(),
            i <= b@.len(),
            forall|j: int| 0 <= j < i ==> a@[j] == b@[j],
        decreases a@.len() - i,
    {
        if a[i] != b[i] {
            let yes = a[i] < b[i];
            proof {
                if yes {
                    assert(parts_at(a@, b@, i as int));
                } else {
                    assert forall|k: int| !parts_at(a@, b@, k) by {
                        if parts_at(a@, b@, k) {
                            if k > i {
                                assert(a@[i as int] == b@[i as int]);
                            }
                        }
                    }
                }
            }
            return yes;
        }
        i += 1;
    }
    let yes = a.len() < b.len();
    proof {
        if yes {
            assert(parts_at(a@, b@, i as int));
        } else {
            assert forall|k: int| !parts_at(a@, b@, k) by {
                if parts_at(a@, b@, k) {
                    if k < a@.len() {
                        assert(a@[k] == b@[k]);
                    }
                }
            }
        }
    }
    yes
}

/// Whether each sentence among `counts` stands before the next one.
pub fn keys_ascend(counts: &Vec<(String, i32)>) -> (yes: bool)
    ensures
        yes == ascending_keys(pairs_of(counts@)),
{
    if counts.len() < 2 {
        return true;
    }
    let mut i: usize = 0;
    while i < counts.len() - 1
        invariant
            2 <= counts@.len(),
            i <= counts@.len() - 1,
            forall|j: int|
                0 <= j < i ==> bytes_before(
                    #[trigger] key_bytes(pairs_of(counts@)[j]),
                    key_bytes(pairs_of(counts@)[j + 1]),
                ),
        decreases counts@.len() - i,
    {
        let here = counts[i].0.as_str().as_bytes();
        let next = counts[i + 1].0.as_str().as_bytes();
        assert(here@ == key_bytes(pairs_of(counts@)[i as int]));
        assert(next@ == key_bytes(pairs_of(counts@)[i + 1]));
        if !stands_before(here, next) {
            return false;
        }
        i += 1;
    }
    true
}

} // verus!
