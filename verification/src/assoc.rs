//! Sequences of named values, and what is found in them under a name.

use vstd::prelude::*;

verus! {

/// The index of the first pair named `key`.
pub open spec fn position<V>(pairs: Seq<(Seq<char>, V)>, key: Seq<char>) -> Option<int>
    decreases pairs.len(),
{
    if pairs.len() == 0 {
        None
    } else {
        match position(pairs.drop_last(), key) {
            Some(i) => Some(i),
            None => if pairs.last().0 == key {
                Some(pairs.len() - 1)
            } else {
                None
            },
        }
    }
}

/// The value of the first pair named `key`.
pub open spec fn lookup<V>(pairs: Seq<(Seq<char>, V)>, key: Seq<char>) -> Option<V> {
    match position(pairs, key) {
        Some(i) => Some(pairs[i].1),
        None => None,
    }
}

/// No two pairs share a name.
pub open spec fn distinct_keys<V>(pairs: Seq<(Seq<char>, V)>) -> bool {
    forall|i: int, j: int| 0 <= i < j < pairs.len() ==> pairs[i].0 != pairs[j].0
}

/// What `position` finds: the first index that carries the key, if any does.
pub proof fn lemma_position<V>(pairs: Seq<(Seq<char>, V)>, key: Seq<char>)
    ensures
        match position(pairs, key) {
            Some(i) => 0 <= i < pairs.len() && pairs[i].0 == key && forall|j: int|
                0 <= j < i ==> pairs[j].0 != key,
            None => forall|j: int| 0 <= j < pairs.len() ==> pairs[j].0 != key,
        },
    decreases pairs.len(),
{
    if pairs.len() > 0 {
        let init = pairs.drop_last();
        lemma_position(init, key);
        assert(forall|j: int| 0 <= j < init.len() ==> init[j] == pairs[j]);
    }
}

/// The first index that carries the key is what `position` finds.
pub proof fn lemma_position_is<V>(pairs: Seq<(Seq<char>, V)>, key: Seq<char>, i: int)
    requires
        0 <= i < pairs.len(),
        pairs[i].0 == key,
        forall|j: int| 0 <= j < i ==> pairs[j].0 != key,
    ensures
        position(pairs, key) == Some(i),
{
    lemma_position(pairs, key);
}

/// The first pair of a name in two sequences put together is the first in
/// the first sequence, or else the first in the second.
pub proof fn lemma_position_concat<V>(
    a: Seq<(Seq<char>, V)>,
    b: Seq<(Seq<char>, V)>,
    key: Seq<char>,
)
    ensures
        position(a + b, key) == match position(a, key) {
            Some(i) => Some(i),
            None => match position(b, key) {
                Some(j) => Some(a.len() + j),
                None => None,
            },
        },
        lookup(a + b, key) == match lookup(a, key) {
            Some(v) => Some(v),
            None => lookup(b, key),
        },
{
    lemma_position(a, key);
    lemma_position(b, key);
    lemma_position(a + b, key);
    let ab = a + b;
    match position(a, key) {
        Some(i) => {
            assert(ab[i] == a[i]);
            assert forall|j: int| 0 <= j < i implies ab[j].0 != key by {
                assert(ab[j] == a[j]);
            }
            lemma_position_is(ab, key, i);
        },
        None => {
            match position(b, key) {
                Some(j) => {
                    assert(ab[a.len() + j] == b[j]);
                    assert forall|k: int| 0 <= k < a.len() + j implies ab[k].0 != key by {
                        if k < a.len() {
                            assert(ab[k] == a[k]);
                        } else {
                            assert(ab[k] == b[k - a.len()]);
                        }
                    }
                    lemma_position_is(ab, key, a.len() + j);
                },
                None => {
                    assert forall|k: int| 0 <= k < ab.len() implies ab[k].0 != key by {
                        if k < a.len() {
                            assert(ab[k] == a[k]);
                        } else {
                            assert(ab[k] == b[k - a.len()]);
                        }
                    }
                },
            }
        },
    }
}

/// Where two sequences carry the same names in the same places, a name has
/// the same first place in both.
pub proof fn lemma_position_names<V, W>(
    a: Seq<(Seq<char>, V)>,
    b: Seq<(Seq<char>, W)>,
    key: Seq<char>,
)
    requires
        a.len() == b.len(),
        forall|i: int| 0 <= i < a.len() ==> a[i].0 == b[i].0,
    ensures
        position(a, key) == position(b, key),
{
    lemma_position(a, key);
    lemma_position(b, key);
    match position(a, key) {
        Some(i) => {
            lemma_position_is(b, key, i);
        },
        None => {},
    }
}

/// What is found in a sequence of one pair.
pub proof fn lemma_lookup_one<V>(pair: (Seq<char>, V), key: Seq<char>)
    ensures
        lookup(seq![pair], key) == if pair.0 == key {
            Some(pair.1)
        } else {
            None
        },
{
    lemma_position(seq![pair], key);
}

/// What is found in a sequence with one more pair at its end.
pub proof fn lemma_lookup_push<V>(pairs: Seq<(Seq<char>, V)>, pair: (Seq<char>, V), key: Seq<char>)
    ensures
        lookup(pairs.push(pair), key) == match lookup(pairs, key) {
            Some(v) => Some(v),
            None => if pair.0 == key {
                Some(pair.1)
            } else {
                None
            },
        },
{
    assert(pairs.push(pair) =~= pairs + seq![pair]);
    lemma_position_concat(pairs, seq![pair], key);
    lemma_lookup_one(pair, key);
}

/// A name that no pair carries is not found.
pub proof fn lemma_position_none<V>(pairs: Seq<(Seq<char>, V)>, key: Seq<char>)
    requires
        forall|i: int| 0 <= i < pairs.len() ==> pairs[i].0 != key,
    ensures
        position(pairs, key) is None,
        lookup(pairs, key) is None,
{
    lemma_position(pairs, key);
}

} // verus!
