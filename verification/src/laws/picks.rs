//! Picking from sequences: what the laws on the filters are stated with.

use crate::groups::counted;
use vstd::prelude::*;

verus! {

/// The last of the first `i` items for which `p` holds, if there is one.
pub open spec fn last_before<A>(s: Seq<A>, i: int, p: spec_fn(A) -> bool) -> Option<A>
    decreases i,
{
    if i <= 0 || i > s.len() {
        None
    } else if p(s[i - 1]) {
        Some(s[i - 1])
    } else {
        last_before(s, i - 1, p)
    }
}

/// The last of the positions from 0 to `i` for which `p` holds, if there is one.
pub open spec fn last_position(i: int, p: spec_fn(int) -> bool) -> Option<int>
    decreases i,
{
    if i <= 0 {
        None
    } else if p(i - 1) {
        Some(i - 1)
    } else {
        last_position(i - 1, p)
    }
}

/// What `f` picks at the positions from 0 to `n`, in order.
pub open spec fn picked_at<B>(n: nat, f: spec_fn(int) -> Option<B>) -> Seq<B> {
    Seq::new(n, |i: int| i).filter_map(f)
}

/// `last_before` is what its name says: it is an item before `i` for which `p`
/// holds, and between it and `i` there is no other.
pub proof fn law_last_before<A>(s: Seq<A>, i: int, p: spec_fn(A) -> bool)
    requires
        0 <= i <= s.len(),
    ensures
        match last_before(s, i, p) {
            Some(x) => exists|k: int|
                {
                    &&& 0 <= k < i
                    &&& #[trigger] s[k] == x
                    &&& p(x)
                    &&& forall|j: int| k < j < i ==> !p(#[trigger] s[j])
                },
            None => forall|j: int| 0 <= j < i ==> !p(#[trigger] s[j]),
        },
    decreases i,
{
    if i > 0 && !p(s[i - 1]) {
        law_last_before(s, i - 1, p);
        if let Some(x) = last_before(s, i, p) {
            let k = choose|k: int|
                {
                    &&& 0 <= k < i - 1
                    &&& #[trigger] s[k] == x
                    &&& p(x)
                    &&& forall|j: int| k < j < i - 1 ==> !p(#[trigger] s[j])
                };
            assert(s[k] == x);
        }
    } else if i > 0 {
        assert(s[i - 1] == s[i - 1]);
    }
}

/// `last_position` is what its name says: `p` holds there, and at no position between
/// it and `i`.
pub proof fn law_last_position(i: int, p: spec_fn(int) -> bool)
    ensures
        match last_position(i, p) {
            Some(k) => 0 <= k < i && p(k) && forall|j: int| k < j < i ==> !#[trigger] p(j),
            None => forall|j: int| 0 <= j < i ==> !#[trigger] p(j),
        },
    decreases i,
{
    if i > 0 && !p(i - 1) {
        law_last_position(i - 1, p);
    }
}

/// Only the items before `i` matter.
pub proof fn lemma_last_before_prefix<A>(s: Seq<A>, n: int, i: int, p: spec_fn(A) -> bool)
    requires
        0 <= i <= n <= s.len(),
    ensures
        last_before(s.take(n), i, p) == last_before(s, i, p),
    decreases i,
{
    if i > 0 && !p(s[i - 1]) {
        lemma_last_before_prefix(s, n, i - 1, p);
    }
}

/// Picking from what `g` makes of the items is picking from the items.
pub proof fn lemma_pick_mapped<A, B, C>(
    s: Seq<A>,
    g: spec_fn(A) -> B,
    f: spec_fn(B) -> Option<C>,
    h: spec_fn(A) -> Option<C>,
)
    requires
        forall|x: A| #[trigger] h(x) == f(g(x)),
    ensures
        s.map_values(g).filter_map(f) == s.filter_map(h),
    decreases s.len(),
{
    if s.len() > 0 {
        lemma_pick_mapped(s.drop_last(), g, f, h);
        assert(s.map_values(g).drop_last() =~= s.drop_last().map_values(g));
        assert(h(s.last()) == f(g(s.last())));
    }
}

/// Two picks that agree on the items pick the same.
pub proof fn lemma_pick_same<A, B>(
    s: Seq<A>,
    f: spec_fn(A) -> Option<B>,
    h: spec_fn(A) -> Option<B>,
)
    requires
        forall|k: int| 0 <= k < s.len() ==> f(#[trigger] s[k]) == h(s[k]),
    ensures
        s.filter_map(f) == s.filter_map(h),
    decreases s.len(),
{
    if s.len() > 0 {
        let t = s.drop_last();
        assert forall|k: int| 0 <= k < t.len() implies f(#[trigger] t[k]) == h(t[k]) by {
            assert(t[k] == s[k]);
        }
        lemma_pick_same(t, f, h);
        assert(f(s[s.len() - 1]) == h(s[s.len() - 1]));
    }
}

/// What is picked at the positions up to `n + 1` is what is picked up to `n`, and
/// what is picked at `n`.
pub proof fn lemma_picked_at_next<B>(n: nat, f: spec_fn(int) -> Option<B>)
    ensures
        picked_at(n + 1, f) == picked_at(n, f) + (match f(n as int) {
            Some(x) => seq![x],
            None => seq![],
        }),
{
    let all = Seq::new(n + 1, |i: int| i);
    assert(all.drop_last() =~= Seq::new(n, |i: int| i));
    assert(all.last() == n);
}

/// Two picks that agree on the positions pick the same.
pub proof fn lemma_picked_at_same<B>(
    n: nat,
    f: spec_fn(int) -> Option<B>,
    h: spec_fn(int) -> Option<B>,
)
    requires
        forall|i: int| 0 <= i < n ==> #[trigger] f(i) == h(i),
    ensures
        picked_at(n, f) == picked_at(n, h),
{
    let all = Seq::new(n, |i: int| i);
    assert forall|k: int| 0 <= k < all.len() implies f(#[trigger] all[k]) == h(all[k]) by {
        assert(f(k) == h(k));
    }
    lemma_pick_same(all, f, h);
}

/// Counting is picking and taking the length.
pub proof fn law_counted<A>(s: Seq<A>, p: spec_fn(A) -> bool)
    ensures
        counted(s, p) == s.filter(p).len(),
        counted(s, p) == s.filter_map(
            |x: A|
                if p(x) {
                    Some(x)
                } else {
                    None
                },
        ).len(),
    decreases s.len(),
{
    reveal(Seq::filter);
    if s.len() > 0 {
        law_counted(s.drop_last(), p);
    }
}

} // verus!
