//! What is kept of a sequence of which some elements are kept.

use crate::assoc::{lemma_lookup_push, lemma_position_none, lookup};
use vstd::prelude::*;

verus! {

/// What is kept of two sequences put together is what is kept of each.
pub proof fn lemma_filter_map_concat<A, B>(a: Seq<A>, b: Seq<A>, f: spec_fn(A) -> Option<B>)
    ensures
        (a + b).filter_map(f) == a.filter_map(f) + b.filter_map(f),
    decreases b.len(),
{
    if b.len() == 0 {
        assert(a + b =~= a);
        assert(a.filter_map(f) + b.filter_map(f) =~= a.filter_map(f));
    } else {
        let init = b.drop_last();
        assert((a + b).drop_last() =~= a + init);
        assert((a + b).last() == b.last());
        lemma_filter_map_concat(a, init, f);
        match f(b.last()) {
            Some(x) => {
                assert((a.filter_map(f) + init.filter_map(f)) + seq![x] =~= a.filter_map(f) + (
                init.filter_map(f) + seq![x]));
            },
            None => {},
        }
    }
}

/// Nothing is kept of a sequence of which nothing is to be kept.
pub proof fn lemma_filter_map_none<A, B>(a: Seq<A>, f: spec_fn(A) -> Option<B>)
    requires
        forall|i: int| 0 <= i < a.len() ==> f(#[trigger] a[i]) is None,
    ensures
        a.filter_map(f) == Seq::<B>::empty(),
    decreases a.len(),
{
    if a.len() > 0 {
        let init = a.drop_last();
        assert(forall|i: int| 0 <= i < init.len() ==> init[i] == a[i]);
        lemma_filter_map_none(init, f);
        assert(f(a[a.len() - 1]) is None);
    }
}

/// What is kept of a sequence of which everything is to be kept.
pub proof fn lemma_filter_map_all<A, B>(a: Seq<A>, f: spec_fn(A) -> Option<B>, g: spec_fn(A) -> B)
    requires
        forall|i: int| 0 <= i < a.len() ==> f(#[trigger] a[i]) == Some(g(a[i])),
    ensures
        a.filter_map(f) == a.map_values(g),
    decreases a.len(),
{
    if a.len() == 0 {
        assert(a.filter_map(f) =~= a.map_values(g));
    } else {
        let init = a.drop_last();
        assert(forall|i: int| 0 <= i < init.len() ==> init[i] == a[i]);
        lemma_filter_map_all(init, f, g);
        assert(f(a[a.len() - 1]) == Some(g(a.last())));
        assert(init.map_values(g) + seq![g(a.last())] =~= a.map_values(g));
    }
}

/// Whether an element tells of a name.
pub open spec fn tells_of<A, V>(
    f: spec_fn(A) -> Option<(Seq<char>, V)>,
    x: A,
    key: Seq<char>,
) -> bool {
    f(x) matches Some(p) && p.0 == key
}

/// Nothing is found under a name of which no element tells.
pub proof fn lemma_none_kept<A, V>(
    a: Seq<A>,
    f: spec_fn(A) -> Option<(Seq<char>, V)>,
    key: Seq<char>,
)
    requires
        forall|k: int| 0 <= k < a.len() ==> !tells_of(f, #[trigger] a[k], key),
    ensures
        lookup(a.filter_map(f), key) is None,
    decreases a.len(),
{
    if a.len() == 0 {
        lemma_position_none(a.filter_map(f), key);
    } else {
        let init = a.drop_last();
        assert(forall|k: int| 0 <= k < init.len() ==> init[k] == a[k]);
        lemma_none_kept(init, f, key);
        assert(!tells_of(f, a[a.len() - 1], key));
        match f(a.last()) {
            Some(p) => {
                assert(a.filter_map(f) =~= init.filter_map(f).push(p));
                lemma_lookup_push(init.filter_map(f), p, key);
            },
            None => {},
        }
    }
}

/// What is found under a name is what the first element that tells of the
/// name tells.
pub proof fn lemma_first_kept<A, V>(
    a: Seq<A>,
    f: spec_fn(A) -> Option<(Seq<char>, V)>,
    key: Seq<char>,
    j: int,
)
    requires
        0 <= j < a.len(),
        tells_of(f, a[j], key),
        forall|k: int| 0 <= k < j ==> !tells_of(f, #[trigger] a[k], key),
    ensures
        lookup(a.filter_map(f), key) == Some(f(a[j])->Some_0.1),
    decreases a.len(),
{
    let init = a.drop_last();
    assert(forall|k: int| 0 <= k < init.len() ==> init[k] == a[k]);
    if j < init.len() {
        lemma_first_kept(init, f, key, j);
        match f(a.last()) {
            Some(p) => {
                assert(a.filter_map(f) =~= init.filter_map(f).push(p));
                lemma_lookup_push(init.filter_map(f), p, key);
            },
            None => {},
        }
    } else {
        lemma_none_kept(init, f, key);
        let p = f(a.last())->Some_0;
        assert(a.filter_map(f) =~= init.filter_map(f).push(p));
        lemma_lookup_push(init.filter_map(f), p, key);
    }
}

} // verus!
