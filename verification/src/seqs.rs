//! Facts about sequences that are built one element at a time.

use vstd::prelude::*;

verus! {

/// Filtering one element more.
pub proof fn lemma_filter_next<A>(s: Seq<A>, n: int, pred: spec_fn(A) -> bool)
    requires
        0 <= n < s.len(),
    ensures
        s.take(n + 1).filter(pred) == if pred(s[n]) {
            s.take(n).filter(pred).push(s[n])
        } else {
            s.take(n).filter(pred)
        },
{
    reveal(Seq::filter);
    assert(s.take(n + 1).drop_last() =~= s.take(n));
    assert(s.take(n + 1).last() == s[n]);
}

pub proof fn lemma_filter_none<A>(s: Seq<A>, pred: spec_fn(A) -> bool)
    ensures
        s.take(0).filter(pred) == Seq::<A>::empty(),
{
    reveal(Seq::filter);
    assert(s.take(0) =~= Seq::<A>::empty());
}

/// What a filter lets through is in the sequence and satisfies the predicate.
pub proof fn lemma_filter_member<A>(s: Seq<A>, pred: spec_fn(A) -> bool, a: A)
    requires
        s.filter(pred).contains(a),
    ensures
        s.contains(a),
        pred(a),
    decreases s.len(),
{
    reveal(Seq::filter);
    let kept = s.filter(pred);
    if s.len() > 0 {
        let before = s.drop_last().filter(pred);
        let i = kept.index_of(a);
        if i < before.len() {
            assert(before[i] == a);
            lemma_filter_member(s.drop_last(), pred, a);
            assert(s[s.drop_last().index_of(a)] == a);
        } else {
            assert(s[s.len() - 1] == a);
        }
    }
}

} // verus!
