//! Lemmas about sequence filtering used by the authentication backend and
//! the catalog engine.

use vstd::prelude::*;

verus! {

/// Filtering a sequence extended by one element keeps the filtered prefix
/// and appends the element exactly when it satisfies the predicate.
pub proof fn lemma_filter_push<A>(s: Seq<A>, e: A, pred: spec_fn(A) -> bool)
    ensures
        s.push(e).filter(pred) == if pred(e) {
            s.filter(pred).push(e)
        } else {
            s.filter(pred)
        },
{
    reveal(Seq::filter);
    assert(s.push(e).drop_last() =~= s);
    assert(s.push(e).last() == e);
}

/// Filtering by one predicate and then another equals filtering once by
/// their conjunction.
pub proof fn lemma_filter_compose<A>(
    s: Seq<A>,
    p1: spec_fn(A) -> bool,
    p2: spec_fn(A) -> bool,
    p12: spec_fn(A) -> bool,
)
    requires
        forall|a: A| #[trigger] p12(a) == (p1(a) && p2(a)),
    ensures
        s.filter(p1).filter(p2) == s.filter(p12),
    decreases s.len(),
{
    reveal(Seq::filter);
    if s.len() == 0 {
    } else {
        let s0 = s.drop_last();
        let e = s.last();
        lemma_filter_compose(s0, p1, p2, p12);
        if p1(e) {
            lemma_filter_push(s0.filter(p1), e, p2);
        }
    }
}

/// When exactly one element satisfies the predicate, filtering yields that
/// element alone.
pub proof fn lemma_filter_single<A>(s: Seq<A>, pred: spec_fn(A) -> bool, i: int)
    requires
        0 <= i < s.len(),
        pred(s[i]),
        forall|j: int| 0 <= j < s.len() && j != i ==> !pred(#[trigger] s[j]),
    ensures
        s.filter(pred) =~= seq![s[i]],
    decreases s.len(),
{
    reveal(Seq::filter);
    let s0 = s.drop_last();
    let e = s.last();
    if i == s.len() - 1 {
        assert(s0.all(|x: A| !pred(x))) by {
            assert forall|j: int| 0 <= j < s0.len() implies !pred(s0[j]) by {
                assert(s0[j] == s[j]);
            }
        }
        s0.lemma_all_neg_filter_empty(pred);
        assert(s0.filter(pred) =~= Seq::<A>::empty());
    } else {
        assert forall|j: int| 0 <= j < s0.len() && j != i implies !pred(#[trigger] s0[j]) by {
            assert(s0[j] == s[j]);
        }
        assert(s0[i] == s[i]);
        lemma_filter_single(s0, pred, i);
        assert(!pred(e));
    }
}

/// A sequence holding two distinct values has at least two elements.
pub proof fn lemma_two_members_two_len<A>(s: Seq<A>, a: A, b: A)
    requires
        s.contains(a),
        s.contains(b),
        a != b,
    ensures
        s.len() >= 2,
{
    let ia = choose|ia: int| 0 <= ia < s.len() && s[ia] == a;
    let ib = choose|ib: int| 0 <= ib < s.len() && s[ib] == b;
    assert(ia != ib);
}

} // verus!
