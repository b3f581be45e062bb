//! What does not depend on the order of a list.

use crate::groups::counted;
use vstd::prelude::*;
use vstd::seq_lib::{
    lemma_multiset_commutative, to_multiset_build, to_multiset_contains, to_multiset_len,
    to_multiset_remove,
};

verus! {

/// Whether `b` holds the items of `a`, each as often, in any order.
pub open spec fn rearranged<A>(a: Seq<A>, b: Seq<A>) -> bool {
    a.to_multiset() == b.to_multiset()
}

/// Rearranged lists have the same items and the same length.
pub proof fn lemma_rearranged_items<A>(a: Seq<A>, b: Seq<A>)
    requires
        rearranged(a, b),
    ensures
        a.len() == b.len(),
        forall|x: A| #[trigger] a.contains(x) == b.contains(x),
{
    to_multiset_len(a);
    to_multiset_len(b);
    assert forall|x: A| #[trigger] a.contains(x) == b.contains(x) by {
        to_multiset_contains(a, x);
        to_multiset_contains(b, x);
    }
}

proof fn lemma_pick_split<A, B>(s: Seq<A>, at: int, f: spec_fn(A) -> Option<B>)
    requires
        0 <= at <= s.len(),
    ensures
        s.filter_map(f) == s.take(at).filter_map(f) + s.skip(at).filter_map(f),
    decreases s.len(),
{
    if at == s.len() {
        assert(s.take(at) =~= s);
        assert(s.skip(at) =~= seq![]);
        assert(s.filter_map(f) + Seq::<B>::empty() =~= s.filter_map(f));
    } else {
        lemma_pick_split(s.drop_last(), at, f);
        assert(s.drop_last().take(at) =~= s.take(at));
        assert(s.drop_last().skip(at) =~= s.skip(at).drop_last());
        assert(s.filter_map(f) =~= s.take(at).filter_map(f) + s.skip(at).filter_map(f));
    }
}

/// Moving one item to the end of a list moves what is picked of it to the end.
proof fn lemma_pick_moved<A, B>(s: Seq<A>, i: int, f: spec_fn(A) -> Option<B>)
    requires
        0 <= i < s.len(),
    ensures
        rearranged(s.filter_map(f), s.remove(i).push(s[i]).filter_map(f)),
{
    let one = seq![s[i]];
    let x = s.take(i).filter_map(f);
    let y = one.filter_map(f);
    let z = s.skip(i + 1).filter_map(f);
    lemma_pick_split(s, i, f);
    lemma_pick_split(s.skip(i), 1, f);
    assert(s.skip(i).take(1) =~= one);
    assert(s.skip(i).skip(1) =~= s.skip(i + 1));
    assert(s.filter_map(f) == x + (y + z));
    let rest = s.remove(i);
    lemma_pick_split(rest, i, f);
    assert(rest.take(i) =~= s.take(i));
    assert(rest.skip(i) =~= s.skip(i + 1));
    let moved = rest.push(s[i]);
    lemma_pick_split(moved, rest.len() as int, f);
    assert(moved.take(rest.len() as int) =~= rest);
    assert(moved.skip(rest.len() as int) =~= one);
    assert(moved.filter_map(f) == (x + z) + y);
    lemma_multiset_commutative(x, y + z);
    lemma_multiset_commutative(y, z);
    lemma_multiset_commutative(x + z, y);
    lemma_multiset_commutative(x, z);
    assert(s.filter_map(f).to_multiset() =~= moved.filter_map(f).to_multiset());
}

/// What is picked of rearranged lists is rearranged.
pub proof fn lemma_picked_rearranged<A, B>(a: Seq<A>, b: Seq<A>, f: spec_fn(A) -> Option<B>)
    requires
        rearranged(a, b),
    ensures
        rearranged(a.filter_map(f), b.filter_map(f)),
    decreases a.len(),
{
    lemma_rearranged_items(a, b);
    if a.len() == 0 {
        assert(a =~= b);
    } else {
        let x = a.last();
        assert(a.contains(x));
        assert(b.contains(x));
        let i = choose|i: int| 0 <= i < b.len() && b[i] == x;
        let a0 = a.drop_last();
        let b0 = b.remove(i);
        assert(a0.push(x) =~= a);
        to_multiset_build(a0, x);
        to_multiset_remove(b, i);
        assert(a0.to_multiset() =~= a.to_multiset().remove(x));
        lemma_picked_rearranged(a0, b0, f);
        lemma_pick_moved(b, i, f);
        let moved = b0.push(x);
        assert(moved.drop_last() =~= b0);
        match f(x) {
            Some(y) => {
                assert(a.filter_map(f) =~= a0.filter_map(f).push(y));
                assert(moved.filter_map(f) =~= b0.filter_map(f).push(y));
                to_multiset_build(a0.filter_map(f), y);
                to_multiset_build(b0.filter_map(f), y);
            },
            None => {},
        }
    }
}

proof fn lemma_map_is_pick<A, B>(s: Seq<A>, f: spec_fn(A) -> B)
    ensures
        s.map_values(f) == s.filter_map(|a: A| Some(f(a))),
    decreases s.len(),
{
    let g = |a: A| Some(f(a));
    if s.len() > 0 {
        lemma_map_is_pick(s.drop_last(), f);
        assert(s.map_values(f) =~= s.drop_last().map_values(f).push(f(s.last())));
    }
    assert(s.map_values(f) =~= s.filter_map(g));
}

/// The images of rearranged lists are rearranged.
pub proof fn lemma_mapped_rearranged<A, B>(a: Seq<A>, b: Seq<A>, f: spec_fn(A) -> B)
    requires
        rearranged(a, b),
    ensures
        rearranged(a.map_values(f), b.map_values(f)),
{
    lemma_map_is_pick(a, f);
    lemma_map_is_pick(b, f);
    lemma_picked_rearranged(a, b, |x: A| Some(f(x)));
}

proof fn lemma_counted_is_pick<A>(s: Seq<A>, p: spec_fn(A) -> bool)
    ensures
        counted(s, p) == s.filter_map(
            |a: A|
                if p(a) {
                    Some(a)
                } else {
                    None
                },
        ).len(),
    decreases s.len(),
{
    if s.len() > 0 {
        lemma_counted_is_pick(s.drop_last(), p);
    }
}

/// Rearranged lists hold as many items with a property.
pub proof fn lemma_counted_rearranged<A>(a: Seq<A>, b: Seq<A>, p: spec_fn(A) -> bool)
    requires
        rearranged(a, b),
    ensures
        counted(a, p) == counted(b, p),
{
    let f = |x: A|
        if p(x) {
            Some(x)
        } else {
            None
        };
    lemma_counted_is_pick(a, p);
    lemma_counted_is_pick(b, p);
    lemma_picked_rearranged(a, b, f);
    lemma_rearranged_items(a.filter_map(f), b.filter_map(f));
}

} // verus!
