//! First match in a sequence, the lookup that every keyed list of the engine rests on.

use vstd::prelude::*;

verus! {

/// Whether `i` is the first index of `s` whose element satisfies `pred`.
pub open spec fn is_first<A>(s: Seq<A>, pred: spec_fn(A) -> bool, i: int) -> bool {
    &&& 0 <= i < s.len()
    &&& pred(s[i])
    &&& forall|j: int| 0 <= j < i ==> !pred(#[trigger] s[j])
}

/// The first index of `s` whose element satisfies `pred`, if there is one.
pub open spec fn first_index<A>(s: Seq<A>, pred: spec_fn(A) -> bool) -> Option<int> {
    if exists|i: int| is_first(s, pred, i) {
        Some(choose|i: int| is_first(s, pred, i))
    } else {
        None
    }
}

/// A first match is the first index.
pub proof fn lemma_first_index_found<A>(s: Seq<A>, pred: spec_fn(A) -> bool, i: int)
    requires
        is_first(s, pred, i),
    ensures
        first_index(s, pred) == Some(i),
{
    let k = choose|k: int| is_first(s, pred, k);
    assert(is_first(s, pred, k));
    if k < i {
        assert(!pred(s[k]));
    } else if i < k {
        assert(!pred(s[i]));
    }
}

/// Without a match there is no first index.
pub proof fn lemma_first_index_none<A>(s: Seq<A>, pred: spec_fn(A) -> bool)
    requires
        forall|j: int| 0 <= j < s.len() ==> !pred(#[trigger] s[j]),
    ensures
        first_index(s, pred) is None,
{
    if exists|i: int| is_first(s, pred, i) {
        let k = choose|k: int| is_first(s, pred, k);
        assert(pred(s[k]));
    }
}

/// What the first index says of the sequence.
pub proof fn lemma_first_index_spec<A>(s: Seq<A>, pred: spec_fn(A) -> bool)
    ensures
        match first_index(s, pred) {
            Some(i) => is_first(s, pred, i),
            None => forall|j: int| 0 <= j < s.len() ==> !pred(#[trigger] s[j]),
        },
{
    if exists|i: int| is_first(s, pred, i) {
    } else {
        assert forall|j: int| 0 <= j < s.len() implies !pred(#[trigger] s[j]) by {
            if pred(s[j]) {
                lemma_some_first(s, pred, j);
            }
        }
    }
}

/// Where some element up to `bound` matches, one of them is the first.
proof fn lemma_some_first<A>(s: Seq<A>, pred: spec_fn(A) -> bool, bound: int)
    requires
        0 <= bound < s.len(),
        pred(s[bound]),
    ensures
        exists|i: int| is_first(s, pred, i),
    decreases bound,
{
    if exists|j: int| 0 <= j < bound && pred(s[j]) {
        let j = choose|j: int| 0 <= j < bound && pred(s[j]);
        lemma_some_first(s, pred, j);
    } else {
        assert(is_first(s, pred, bound));
    }
}

} // verus!
