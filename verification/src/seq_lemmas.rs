//! Facts about filtering and mapping sequences that the laws of the
//! resolver are proved from.

use vstd::prelude::*;

verus! {

/// The test that holds where both `p` and `q` hold.
pub open spec fn both<A>(p: spec_fn(A) -> bool, q: spec_fn(A) -> bool) -> spec_fn(A) -> bool {
    |x: A| p(x) && q(x)
}

/// The test `q` on what `f` makes of a value.
pub open spec fn after<A, B>(f: spec_fn(A) -> B, q: spec_fn(B) -> bool) -> spec_fn(A) -> bool {
    |x: A| q(f(x))
}

/// Filtering twice is filtering by both tests at once.
pub proof fn lemma_filter_filter<A>(s: Seq<A>, p: spec_fn(A) -> bool, q: spec_fn(A) -> bool)
    ensures
        s.filter(p).filter(q) == s.filter(both(p, q)),
    decreases s.len(),
{
    reveal(Seq::filter);
    if s.len() > 0 {
        let rest = s.drop_last();
        let x = s.last();
        lemma_filter_filter(rest, p, q);
        if p(x) {
            rest.filter(p).lemma_filter_push(x, q);
        }
    }
}

/// Filtering what was mapped is mapping what passes the test after mapping.
pub proof fn lemma_filter_map<A, B>(s: Seq<A>, f: spec_fn(A) -> B, q: spec_fn(B) -> bool)
    ensures
        s.map_values(f).filter(q) == s.filter(after(f, q)).map_values(f),
    decreases s.len(),
{
    reveal(Seq::filter);
    if s.len() > 0 {
        let rest = s.drop_last();
        let x = s.last();
        lemma_filter_map(rest, f, q);
        assert(s =~= rest.push(x));
        rest.lemma_push_map_commute(f, x);
        rest.map_values(f).lemma_filter_push(f(x), q);
        rest.lemma_filter_push(x, after(f, q));
        if q(f(x)) {
            rest.filter(after(f, q)).lemma_push_map_commute(f, x);
        }
    } else {
        assert(s.map_values(f) =~= Seq::<B>::empty());
        assert(s.filter(after(f, q)).map_values(f) =~= Seq::<B>::empty());
    }
}

/// Two tests that agree on every element keep the same elements.
pub proof fn lemma_filter_agree<A>(s: Seq<A>, p: spec_fn(A) -> bool, q: spec_fn(A) -> bool)
    requires
        forall|i: int| 0 <= i < s.len() ==> p(#[trigger] s[i]) == q(s[i]),
    ensures
        s.filter(p) == s.filter(q),
    decreases s.len(),
{
    reveal(Seq::filter);
    if s.len() > 0 {
        let rest = s.drop_last();
        assert forall|i: int| 0 <= i < rest.len() implies p(#[trigger] rest[i]) == q(rest[i]) by {
            assert(rest[i] == s[i]);
        }
        lemma_filter_agree(rest, p, q);
        assert(s.last() == s[s.len() - 1]);
    }
}

/// Where no element passes the test, nothing is kept.
pub proof fn lemma_filter_none<A>(s: Seq<A>, p: spec_fn(A) -> bool)
    requires
        forall|i: int| 0 <= i < s.len() ==> !p(#[trigger] s[i]),
    ensures
        s.filter(p) == Seq::<A>::empty(),
    decreases s.len(),
{
    reveal(Seq::filter);
    if s.len() > 0 {
        let rest = s.drop_last();
        assert forall|i: int| 0 <= i < rest.len() implies !p(#[trigger] rest[i]) by {
            assert(rest[i] == s[i]);
        }
        lemma_filter_none(rest, p);
        assert(s.last() == s[s.len() - 1]);
    }
}

/// Where the element at `k` is the only one that passes the test, it alone
/// is kept.
pub proof fn lemma_filter_single<A>(s: Seq<A>, p: spec_fn(A) -> bool, k: int)
    requires
        0 <= k < s.len(),
        p(s[k]),
        forall|i: int| 0 <= i < s.len() && i != k ==> !p(#[trigger] s[i]),
    ensures
        s.filter(p) == seq![s[k]],
    decreases s.len(),
{
    reveal(Seq::filter);
    let rest = s.drop_last();
    assert(s.last() == s[s.len() - 1]);
    if k == s.len() - 1 {
        assert forall|i: int| 0 <= i < rest.len() implies !p(#[trigger] rest[i]) by {
            assert(rest[i] == s[i]);
        }
        lemma_filter_none(rest, p);
        assert(Seq::<A>::empty().push(s[k]) =~= seq![s[k]]);
    } else {
        assert forall|i: int| 0 <= i < rest.len() && i != k implies !p(#[trigger] rest[i]) by {
            assert(rest[i] == s[i]);
        }
        assert(rest[k] == s[k]);
        lemma_filter_single(rest, p, k);
    }
}

/// What is kept was there: every element of a filtered sequence is an
/// element of the sequence, and passes the test.
pub proof fn lemma_filter_element<A>(s: Seq<A>, p: spec_fn(A) -> bool, i: int) -> (k: int)
    requires
        0 <= i < s.filter(p).len(),
    ensures
        0 <= k < s.len(),
        s[k] == s.filter(p)[i],
        p(s[k]),
{
    let kept = s.filter(p);
    s.lemma_filter_pred(p, i);
    assert(kept.contains(kept[i]));
    s.lemma_filter_contains_rev(p, kept[i]);
    choose|k: int| 0 <= k < s.len() && s[k] == kept[i]
}

} // verus!
