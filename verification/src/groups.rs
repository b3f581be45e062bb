//! Values filed under text keys, in the order of the keys.

use crate::text::{chars_of, same_text, views};
use vstd::prelude::*;

verus! {

// ─── The order of texts ─────────────────────────────────────────────────────

/// Whether `a` stands before `b` in the dictionary order of code points.
pub open spec fn text_less(a: Seq<char>, b: Seq<char>) -> bool
    decreases a.len(),
{
    if b.len() == 0 {
        false
    } else if a.len() == 0 {
        true
    } else if a[0] != b[0] {
        a[0] < b[0]
    } else {
        text_less(a.skip(1), b.skip(1))
    }
}

/// No text stands before itself.
pub proof fn lemma_text_less_irreflexive(a: Seq<char>)
    ensures
        !text_less(a, a),
    decreases a.len(),
{
    if a.len() > 0 {
        lemma_text_less_irreflexive(a.skip(1));
    }
}

/// The order is transitive.
pub proof fn lemma_text_less_transitive(a: Seq<char>, b: Seq<char>, c: Seq<char>)
    requires
        text_less(a, b),
        text_less(b, c),
    ensures
        text_less(a, c),
    decreases a.len(),
{
    if a.len() > 0 && a[0] == b[0] && b[0] == c[0] {
        lemma_text_less_transitive(a.skip(1), b.skip(1), c.skip(1));
    }
}

/// Of two different texts one stands before the other.
pub proof fn lemma_text_less_total(a: Seq<char>, b: Seq<char>)
    ensures
        a == b || text_less(a, b) || text_less(b, a),
    decreases a.len(),
{
    if a.len() == 0 || b.len() == 0 {
        if a.len() == b.len() {
            assert(a =~= b);
        }
    } else if a[0] == b[0] {
        lemma_text_less_total(a.skip(1), b.skip(1));
        if a.skip(1) == b.skip(1) {
            assert(a =~= seq![a[0]] + a.skip(1));
            assert(b =~= seq![b[0]] + b.skip(1));
        }
    }
}

/// Whether `a` stands before `b`.
pub fn is_before(a: &str, b: &str) -> (r: bool)
    ensures
        r == text_less(a@, b@),
{
    let x = chars_of(a);
    let y = chars_of(b);
    let mut i: usize = 0;
    assert(x@.skip(0) =~= x@);
    assert(y@.skip(0) =~= y@);
    while i < x.len() && i < y.len() && x[i] == y[i]
        invariant
            i <= x@.len(),
            i <= y@.len(),
            text_less(x@, y@) == text_less(x@.skip(i as int), y@.skip(i as int)),
        decreases x@.len() - i,
    {
        assert(x@.skip(i as int).skip(1) =~= x@.skip(i + 1));
        assert(y@.skip(i as int).skip(1) =~= y@.skip(i + 1));
        i += 1;
    }
    if i >= y.len() {
        false
    } else if i >= x.len() {
        true
    } else {
        x[i] < y[i]
    }
}

// ─── Groups ─────────────────────────────────────────────────────────────────

/// The first position at or behind `from` whose key does not stand before `key`.
pub open spec fn slot<W>(g: Seq<(Seq<char>, Seq<W>)>, key: Seq<char>, from: int) -> int
    decreases g.len() - from,
{
    if 0 <= from < g.len() && text_less(g[from].0, key) {
        slot(g, key, from + 1)
    } else {
        from
    }
}

/// `g` with `value` filed under `key`: at the end of the key's group, or in a new
/// group at the key's place.
pub open spec fn filed<W>(
    g: Seq<(Seq<char>, Seq<W>)>,
    key: Seq<char>,
    value: W,
) -> Seq<(Seq<char>, Seq<W>)> {
    let at = slot(g, key, 0);
    if at < g.len() && g[at].0 == key {
        g.update(at, (key, g[at].1.push(value)))
    } else {
        g.insert(at, (key, seq![value]))
    }
}

/// What `pairs` of key and value give when they are filed one after the other.
pub open spec fn grouped<W>(pairs: Seq<(Seq<char>, W)>) -> Seq<(Seq<char>, Seq<W>)>
    decreases pairs.len(),
{
    if pairs.len() == 0 {
        seq![]
    } else {
        filed(grouped(pairs.drop_last()), pairs.last().0, pairs.last().1)
    }
}

/// The values of the pairs with the key `key`, in their order.
pub open spec fn values_under<W>(pairs: Seq<(Seq<char>, W)>, key: Seq<char>) -> Seq<W>
    decreases pairs.len(),
{
    if pairs.len() == 0 {
        seq![]
    } else if pairs.last().0 == key {
        values_under(pairs.drop_last(), key).push(pairs.last().1)
    } else {
        values_under(pairs.drop_last(), key)
    }
}

/// Whether the keys stand in order, none twice.
pub open spec fn keys_ascend<W>(g: Seq<(Seq<char>, Seq<W>)>) -> bool {
    forall|i: int, j: int| 0 <= i < j < g.len() ==> text_less(#[trigger] g[i].0, #[trigger] g[j].0)
}

proof fn lemma_slot<W>(g: Seq<(Seq<char>, Seq<W>)>, key: Seq<char>, from: int)
    requires
        0 <= from <= g.len(),
    ensures
        from <= slot(g, key, from) <= g.len(),
        forall|i: int| from <= i < slot(g, key, from) ==> text_less(#[trigger] g[i].0, key),
        slot(g, key, from) < g.len() ==> !text_less(g[slot(g, key, from)].0, key),
    decreases g.len() - from,
{
    if from < g.len() && text_less(g[from].0, key) {
        lemma_slot(g, key, from + 1);
    }
}

/// Filing a value keeps the keys in order.
pub proof fn lemma_filed_ascends<W>(g: Seq<(Seq<char>, Seq<W>)>, key: Seq<char>, value: W)
    requires
        keys_ascend(g),
    ensures
        keys_ascend(filed(g, key, value)),
{
    let at = slot(g, key, 0);
    lemma_slot(g, key, 0);
    let h = filed(g, key, value);
    if at < g.len() && g[at].0 == key {
        assert forall|i: int| 0 <= i < h.len() implies #[trigger] h[i].0 == g[i].0 by {}
        assert forall|i: int, j: int| 0 <= i < j < h.len() implies text_less(
            #[trigger] h[i].0,
            #[trigger] h[j].0,
        ) by {
            assert(text_less(g[i].0, g[j].0));
        }
    } else {
        assert forall|j: int| at <= j < g.len() implies text_less(key, #[trigger] g[j].0) by {
            lemma_text_less_total(g[at].0, key);
            if at < j {
                assert(text_less(g[at].0, g[j].0));
                lemma_text_less_transitive(key, g[at].0, g[j].0);
            }
        }
        assert forall|i: int, j: int| 0 <= i < j < h.len() implies text_less(
            #[trigger] h[i].0,
            #[trigger] h[j].0,
        ) by {
            if i < at && j < at {
                assert(text_less(g[i].0, g[j].0));
            } else if i < at && j > at {
                assert(text_less(g[i].0, g[j - 1].0));
            } else if i > at {
                assert(text_less(g[i - 1].0, g[j - 1].0));
            } else if j == at {
                assert(text_less(g[i].0, key));
            } else {
                assert(text_less(key, g[j - 1].0));
            }
        }
    }
}

/// Filing a value changes no group but that of its key, and makes none but that.
proof fn lemma_filed_members<W>(
    g: Seq<(Seq<char>, Seq<W>)>,
    key: Seq<char>,
    value: W,
    k: Seq<char>,
    vs: Seq<W>,
)
    requires
        keys_ascend(g),
    ensures
        k != key ==> (filed(g, key, value).contains((k, vs)) <==> g.contains((k, vs))),
        (exists|old: Seq<W>| #[trigger] g.contains((key, old))) ==> (filed(g, key, value).contains(
            (key, vs),
        ) <==> (vs.len() > 0 && vs.last() == value && g.contains((key, vs.drop_last())))),
        !(exists|old: Seq<W>| #[trigger] g.contains((key, old))) ==> (filed(
            g,
            key,
            value,
        ).contains((key, vs)) <==> vs == seq![value]),
{
    let at = slot(g, key, 0);
    lemma_slot(g, key, 0);
    let h = filed(g, key, value);
    if at < g.len() && g[at].0 == key {
        assert(g.contains((key, g[at].1))) by {
            assert(g[at] == (key, g[at].1));
        }
        assert forall|i: int| 0 <= i < g.len() && i != at implies #[trigger] g[i].0 != key by {
            lemma_text_less_irreflexive(key);
            if i < at {
                assert(text_less(g[i].0, g[at].0));
            } else {
                assert(text_less(g[at].0, g[i].0));
            }
        }
        if k != key {
            if h.contains((k, vs)) {
                let i = choose|i: int| 0 <= i < h.len() && h[i] == (k, vs);
                assert(g[i] == (k, vs));
            }
            if g.contains((k, vs)) {
                let i = choose|i: int| 0 <= i < g.len() && g[i] == (k, vs);
                assert(h[i] == (k, vs));
            }
        }
        assert(h[at] == (key, g[at].1.push(value)));
        if h.contains((key, vs)) {
            let i = choose|i: int| 0 <= i < h.len() && h[i] == (key, vs);
            assert(i == at) by {
                if i != at {
                    assert(g[i].0 == key);
                }
            }
            assert(vs.drop_last() =~= g[at].1);
        }
        if vs.len() > 0 && vs.last() == value && g.contains((key, vs.drop_last())) {
            let i = choose|i: int| 0 <= i < g.len() && g[i] == (key, vs.drop_last());
            assert(i == at) by {
                if i != at {
                    assert(g[i].0 != key);
                }
            }
            assert(vs =~= vs.drop_last().push(value));
            assert(h.contains((key, vs)));
        }
    } else {
        assert forall|i: int| 0 <= i < g.len() implies #[trigger] g[i].0 != key by {
            lemma_text_less_irreflexive(key);
            if i >= at {
                if i > at {
                    assert(text_less(g[at].0, g[i].0));
                    if g[i].0 == key {
                        lemma_text_less_total(g[at].0, key);
                    }
                }
            }
        }
        if exists|old: Seq<W>| #[trigger] g.contains((key, old)) {
            let old = choose|old: Seq<W>| #[trigger] g.contains((key, old));
            let i = choose|i: int| 0 <= i < g.len() && g[i] == (key, old);
            assert(g[i].0 != key);
            assert(false);
        }
        assert(h[at] == (key, seq![value]));
        if k != key {
            if h.contains((k, vs)) {
                let i = choose|i: int| 0 <= i < h.len() && h[i] == (k, vs);
                if i < at {
                    assert(g[i] == (k, vs));
                } else {
                    assert(g[i - 1] == (k, vs));
                }
            }
            if g.contains((k, vs)) {
                let i = choose|i: int| 0 <= i < g.len() && g[i] == (k, vs);
                if i < at {
                    assert(h[i] == (k, vs));
                } else {
                    assert(h[i + 1] == (k, vs));
                }
            }
        }
        if h.contains((key, vs)) {
            let i = choose|i: int| 0 <= i < h.len() && h[i] == (key, vs);
            if i < at {
                assert(g[i].0 != key);
            } else if i > at {
                assert(g[i - 1].0 != key);
            }
        }
    }
}

/// Grouping loses nothing and invents nothing: the keys come in order, none
/// twice; every key of the pairs has a group and no other key has one; and a
/// group holds exactly the values that came with its key, in their order.
pub proof fn law_grouped<W>(pairs: Seq<(Seq<char>, W)>)
    ensures
        keys_ascend(grouped(pairs)),
        forall|key: Seq<char>, vs: Seq<W>|
            #![trigger grouped(pairs).contains((key, vs))]
            grouped(pairs).contains((key, vs)) <==> vs.len() > 0 && vs == values_under(pairs, key),
    decreases pairs.len(),
{
    if pairs.len() > 0 {
        let before = pairs.drop_last();
        let (key, value) = pairs.last();
        law_grouped(before);
        lemma_filed_ascends(grouped(before), key, value);
        assert forall|k: Seq<char>, vs: Seq<W>|
            #![trigger grouped(pairs).contains((k, vs))]
            grouped(pairs).contains((k, vs)) <==> vs.len() > 0 && vs == values_under(pairs, k) by {
            lemma_filed_members(grouped(before), key, value, k, vs);
            let old = values_under(before, key);
            if k == key {
                assert(old.push(value).drop_last() =~= old);
                if exists|o: Seq<W>| #[trigger] grouped(before).contains((key, o)) {
                    let o = choose|o: Seq<W>| #[trigger] grouped(before).contains((key, o));
                    assert(o == old);
                    if grouped(pairs).contains((k, vs)) {
                        assert(grouped(before).contains((key, vs.drop_last())));
                        assert(vs =~= old.push(value));
                    }
                    if vs == values_under(pairs, k) {
                        assert(vs.drop_last() =~= old);
                    }
                } else {
                    assert(!grouped(before).contains((key, old)));
                    assert(old =~= seq![]);
                    assert(old.push(value) =~= seq![value]);
                }
            } else {
                assert(grouped(before).contains((k, vs)) <==> vs.len() > 0 && vs == values_under(
                    before,
                    k,
                ));
            }
        }
    } else {
        assert forall|k: Seq<char>, vs: Seq<W>|
            #![trigger grouped(pairs).contains((k, vs))]
            grouped(pairs).contains((k, vs)) <==> vs.len() > 0 && vs == values_under(pairs, k) by {}
    }
}

/// How many items satisfy `p`.
pub open spec fn counted<W>(s: Seq<W>, p: spec_fn(W) -> bool) -> nat
    decreases s.len(),
{
    if s.len() == 0 {
        0
    } else {
        counted(s.drop_last(), p) + if p(s.last()) {
            1nat
        } else {
            0nat
        }
    }
}

/// The number of values in all groups together.
pub open spec fn group_total<W>(g: Seq<(Seq<char>, Seq<W>)>) -> nat
    decreases g.len(),
{
    if g.len() == 0 {
        0
    } else {
        group_total(g.drop_last()) + g.last().1.len()
    }
}

proof fn lemma_total_split<W>(g: Seq<(Seq<char>, Seq<W>)>, at: int)
    requires
        0 <= at <= g.len(),
    ensures
        group_total(g) == group_total(g.take(at)) + group_total(g.skip(at)),
    decreases g.len(),
{
    if at == g.len() {
        assert(g.take(at) =~= g);
        assert(g.skip(at) =~= seq![]);
    } else {
        lemma_total_split(g.drop_last(), at);
        assert(g.drop_last().take(at) =~= g.take(at));
        assert(g.drop_last().skip(at) =~= g.skip(at).drop_last());
    }
}

/// Every value is in exactly one group: the groups hold as many values as there
/// are pairs.
pub proof fn law_group_total<W>(pairs: Seq<(Seq<char>, W)>)
    ensures
        group_total(grouped(pairs)) == pairs.len(),
    decreases pairs.len(),
{
    if pairs.len() > 0 {
        let g = grouped(pairs.drop_last());
        let (key, value) = pairs.last();
        law_group_total(pairs.drop_last());
        let at = slot(g, key, 0);
        lemma_slot(g, key, 0);
        let h = filed(g, key, value);
        lemma_total_split(g, at);
        if at < g.len() && g[at].0 == key {
            lemma_total_split(g, at + 1);
            lemma_total_split(h, at + 1);
            assert(h.skip(at + 1) =~= g.skip(at + 1));
            assert(g.take(at + 1).drop_last() =~= g.take(at));
            assert(h.take(at + 1).drop_last() =~= g.take(at));
            assert(h.take(at + 1).last() == h[at]);
        } else {
            lemma_total_split(h, at + 1);
            assert(h.skip(at + 1) =~= g.skip(at));
            assert(h.take(at + 1).drop_last() =~= g.take(at));
            assert(h.take(at + 1).last() == h[at]);
        }
    }
}

/// How many values in all groups together satisfy `p`.
pub open spec fn group_counted<W>(g: Seq<(Seq<char>, Seq<W>)>, p: spec_fn(W) -> bool) -> nat
    decreases g.len(),
{
    if g.len() == 0 {
        0
    } else {
        group_counted(g.drop_last(), p) + counted(g.last().1, p)
    }
}

proof fn lemma_counted_split<W>(g: Seq<(Seq<char>, Seq<W>)>, p: spec_fn(W) -> bool, at: int)
    requires
        0 <= at <= g.len(),
    ensures
        group_counted(g, p) == group_counted(g.take(at), p) + group_counted(g.skip(at), p),
    decreases g.len(),
{
    if at == g.len() {
        assert(g.take(at) =~= g);
        assert(g.skip(at) =~= seq![]);
    } else {
        lemma_counted_split(g.drop_last(), p, at);
        assert(g.drop_last().take(at) =~= g.take(at));
        assert(g.drop_last().skip(at) =~= g.skip(at).drop_last());
    }
}

proof fn lemma_counted_push<W>(s: Seq<W>, a: W, p: spec_fn(W) -> bool)
    ensures
        counted(s.push(a), p) == counted(s, p) + if p(a) {
            1nat
        } else {
            0nat
        },
{
    assert(s.push(a).drop_last() =~= s);
}

/// The groups hold as many values with a property as the pairs do.
pub proof fn law_group_counted<W>(pairs: Seq<(Seq<char>, W)>, p: spec_fn(W) -> bool)
    ensures
        group_counted(grouped(pairs), p) == counted(
            pairs.map_values(|pair: (Seq<char>, W)| pair.1),
            p,
        ),
    decreases pairs.len(),
{
    let values = pairs.map_values(|pair: (Seq<char>, W)| pair.1);
    if pairs.len() > 0 {
        let g = grouped(pairs.drop_last());
        let (key, value) = pairs.last();
        law_group_counted(pairs.drop_last(), p);
        assert(pairs.drop_last().map_values(|pair: (Seq<char>, W)| pair.1) =~= values.drop_last());
        let at = slot(g, key, 0);
        lemma_slot(g, key, 0);
        let h = filed(g, key, value);
        lemma_counted_split(g, p, at);
        if at < g.len() && g[at].0 == key {
            lemma_counted_split(g, p, at + 1);
            lemma_counted_split(h, p, at + 1);
            assert(h.skip(at + 1) =~= g.skip(at + 1));
            assert(g.take(at + 1).drop_last() =~= g.take(at));
            assert(h.take(at + 1).drop_last() =~= g.take(at));
            assert(h.take(at + 1).last() == h[at]);
            lemma_counted_push(g[at].1, value, p);
        } else {
            lemma_counted_split(h, p, at + 1);
            assert(h.skip(at + 1) =~= g.skip(at));
            assert(h.take(at + 1).drop_last() =~= g.take(at));
            assert(h.take(at + 1).last() == h[at]);
            lemma_counted_push(Seq::<W>::empty(), value, p);
            assert(seq![value] =~= Seq::<W>::empty().push(value));
        }
    }
}

/// The values under a key are picked from the pairs.
pub proof fn lemma_values_are_picked<W>(pairs: Seq<(Seq<char>, W)>, key: Seq<char>)
    ensures
        values_under(pairs, key) == pairs.filter_map(
            |pair: (Seq<char>, W)|
                if pair.0 == key {
                    Some(pair.1)
                } else {
                    None
                },
        ),
    decreases pairs.len(),
{
    if pairs.len() > 0 {
        lemma_values_are_picked(pairs.drop_last(), key);
    }
    assert(values_under(pairs, key) =~= pairs.filter_map(
        |pair: (Seq<char>, W)|
            if pair.0 == key {
                Some(pair.1)
            } else {
                None
            },
    ));
}

/// A pair's value is in the group of its key.
pub proof fn lemma_value_has_group<W>(pairs: Seq<(Seq<char>, W)>, k: int) -> (at: (int, int))
    requires
        0 <= k < pairs.len(),
    ensures
        0 <= at.0 < grouped(pairs).len(),
        grouped(pairs)[at.0].0 == pairs[k].0,
        0 <= at.1 < grouped(pairs)[at.0].1.len(),
        grouped(pairs)[at.0].1[at.1] == pairs[k].1,
{
    let key = pairs[k].0;
    let vs = values_under(pairs, key);
    let j = lemma_value_under_key(pairs, k);
    law_grouped(pairs);
    assert(grouped(pairs).contains((key, vs)));
    let i = choose|i: int| 0 <= i < grouped(pairs).len() && grouped(pairs)[i] == (key, vs);
    (i, j)
}

proof fn lemma_value_under_key<W>(pairs: Seq<(Seq<char>, W)>, k: int) -> (j: int)
    requires
        0 <= k < pairs.len(),
    ensures
        0 <= j < values_under(pairs, pairs[k].0).len(),
        values_under(pairs, pairs[k].0)[j] == pairs[k].1,
    decreases pairs.len(),
{
    if k == pairs.len() - 1 {
        values_under(pairs.drop_last(), pairs[k].0).len() as int
    } else {
        lemma_value_under_key(pairs.drop_last(), k)
    }
}

/// Values filed under text keys.
pub struct Groups<V> {
    pub entries: Vec<(String, Vec<V>)>,
}

impl<V: View> View for Groups<V> {
    type V = Seq<(Seq<char>, Seq<V::V>)>;

    open spec fn view(&self) -> Seq<(Seq<char>, Seq<V::V>)> {
        self.entries@.map_values(|e: (String, Vec<V>)| (e.0@, views(e.1@)))
    }
}

impl<V: View> Groups<V> {
    /// No groups.
    pub fn new() -> (r: Self)
        ensures
            r@ == Seq::<(Seq<char>, Seq<V::V>)>::empty(),
    {
        let r = Groups { entries: Vec::new() };
        assert(r@ =~= Seq::<(Seq<char>, Seq<V::V>)>::empty());
        r
    }

    /// Files `value` under `key`.
    pub fn add(&mut self, key: &str, value: V)
        ensures
            final(self)@ == filed(old(self)@, key@, value@),
    {
        let mut at: usize = 0;
        while at < self.entries.len() && is_before(self.entries[at].0.as_str(), key)
            invariant
                at <= self.entries@.len(),
                *self == *old(self),
                slot(self@, key@, 0) == slot(self@, key@, at as int),
            decreases self.entries@.len() - at,
        {
            assert(self@[at as int].0 == self.entries@[at as int].0@);
            at += 1;
        }
        let ghost g = self@;
        assert(g.len() == self.entries@.len());
        assert(at < g.len() ==> g[at as int] == (
            self.entries@[at as int].0@,
            views(self.entries@[at as int].1@),
        ));
        if at < self.entries.len() && same_text(self.entries[at].0.as_str(), key) {
            let mut entry = self.entries.remove(at);
            let ghost vs = entry.1@;
            entry.1.push(value);
            assert(views(entry.1@) =~= views(vs).push(value@));
            self.entries.insert(at, entry);
        } else {
            let mut vs: Vec<V> = Vec::new();
            vs.push(value);
            assert(views(vs@) =~= seq![value@]);
            self.entries.insert(at, (key.to_owned(), vs));
        }
        assert(self@ =~= filed(g, key@, value@));
    }
}

} // verus!
