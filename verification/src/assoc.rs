//! Specification helpers for ordered key/value sequences: lookup by first
//! matching key, and insert-or-overwrite.

use vstd::prelude::*;

verus! {

/// The position of the first pair whose key is `key`, or `-1` if absent.
pub open spec fn assoc_first_index<V>(m: Seq<(Seq<char>, V)>, key: Seq<char>) -> int
    decreases m.len(),
{
    if m.len() == 0 {
        -1
    } else if m[0].0 == key {
        0
    } else {
        let r = assoc_first_index(m.skip(1), key);
        if r < 0 {
            -1
        } else {
            r + 1
        }
    }
}

/// True when some pair holds the key `key`.
pub open spec fn assoc_has<V>(m: Seq<(Seq<char>, V)>, key: Seq<char>) -> bool {
    assoc_first_index(m, key) >= 0
}

/// The value of the first pair whose key is `key`.
pub open spec fn assoc_get<V>(m: Seq<(Seq<char>, V)>, key: Seq<char>) -> Option<V> {
    let i = assoc_first_index(m, key);
    if i < 0 {
        None
    } else {
        Some(m[i].1)
    }
}

/// `m` with the value for `key` replaced in place, or appended when absent.
pub open spec fn assoc_set<V>(m: Seq<(Seq<char>, V)>, key: Seq<char>, val: V) -> Seq<
    (Seq<char>, V),
> {
    let i = assoc_first_index(m, key);
    if i < 0 {
        m.push((key, val))
    } else {
        m.update(i, (key, val))
    }
}

pub proof fn lemma_assoc_first_index_range<V>(m: Seq<(Seq<char>, V)>, key: Seq<char>)
    ensures
        assoc_first_index(m, key) == -1 || (0 <= assoc_first_index(m, key) < m.len()
            && m[assoc_first_index(m, key)].0 == key),
    decreases m.len(),
{
    if m.len() > 0 && m[0].0 != key {
        lemma_assoc_first_index_range(m.skip(1), key);
    }
}

pub proof fn lemma_assoc_first_index_found<V>(m: Seq<(Seq<char>, V)>, key: Seq<char>, k: int)
    requires
        0 <= k < m.len(),
        m[k].0 == key,
        forall|j: int| 0 <= j < k ==> (#[trigger] m[j]).0 != key,
    ensures
        assoc_first_index(m, key) == k,
    decreases m.len(),
{
    if m[0].0 != key {
        assert(k > 0);
        lemma_assoc_first_index_found(m.skip(1), key, k - 1);
    }
}

pub proof fn lemma_assoc_first_index_absent<V>(m: Seq<(Seq<char>, V)>, key: Seq<char>)
    requires
        forall|j: int| 0 <= j < m.len() ==> (#[trigger] m[j]).0 != key,
    ensures
        assoc_first_index(m, key) == -1,
    decreases m.len(),
{
    if m.len() > 0 {
        lemma_assoc_first_index_absent(m.skip(1), key);
    }
}

pub proof fn lemma_assoc_first_index_neg<V>(m: Seq<(Seq<char>, V)>, key: Seq<char>)
    requires
        assoc_first_index(m, key) == -1,
    ensures
        forall|j: int| 0 <= j < m.len() ==> (#[trigger] m[j]).0 != key,
    decreases m.len(),
{
    if m.len() > 0 {
        lemma_assoc_first_index_neg(m.skip(1), key);
        assert(forall|j: int| 1 <= j < m.len() ==> #[trigger] m[j] == m.skip(1)[j - 1]);
    }
}

/// After `assoc_set`, the set key resolves to the new value and every other
/// key resolves as before.
pub proof fn lemma_assoc_set_get<V>(m: Seq<(Seq<char>, V)>, key: Seq<char>, val: V, other: Seq<
    char,
>)
    ensures
        assoc_get(assoc_set(m, key, val), key) == Some(val),
        other != key ==> assoc_get(assoc_set(m, key, val), other) == assoc_get(m, other),
{
    let i = assoc_first_index(m, key);
    lemma_assoc_first_index_range(m, key);
    let m2 = assoc_set(m, key, val);
    if i < 0 {
        lemma_assoc_first_index_neg(m, key);
        lemma_assoc_first_index_found(m2, key, m.len() as int);
        if other != key {
            lemma_assoc_first_index_range(m, other);
            let j = assoc_first_index(m, other);
            if j < 0 {
                lemma_assoc_first_index_neg(m, other);
                lemma_assoc_first_index_absent(m2, other);
            } else {
                lemma_assoc_first_index_neg_prefix(m, other, j);
                lemma_assoc_first_index_found(m2, other, j);
            }
        }
    } else {
        lemma_assoc_first_index_neg_prefix(m, key, i);
        lemma_assoc_first_index_found(m2, key, i);
        if other != key {
            lemma_assoc_first_index_range(m, other);
            let j = assoc_first_index(m, other);
            if j < 0 {
                lemma_assoc_first_index_neg(m, other);
                lemma_assoc_first_index_absent(m2, other);
            } else {
                lemma_assoc_first_index_neg_prefix(m, other, j);
                assert(m2[j].0 == other);
                lemma_assoc_first_index_found(m2, other, j);
            }
        }
    }
}

/// Every position before the first index of `key` holds another key.
pub proof fn lemma_assoc_first_index_neg_prefix<V>(m: Seq<(Seq<char>, V)>, key: Seq<char>, k: int)
    requires
        assoc_first_index(m, key) == k,
        0 <= k < m.len(),
    ensures
        forall|j: int| 0 <= j < k ==> (#[trigger] m[j]).0 != key,
    decreases m.len(),
{
    if m.len() > 0 && m[0].0 != key {
        lemma_assoc_first_index_neg_prefix(m.skip(1), key, k - 1);
        assert(forall|j: int| 1 <= j < m.len() ==> #[trigger] m[j] == m.skip(1)[j - 1]);
    }
}

} // verus!
