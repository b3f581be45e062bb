//! How lists are written: each item on its line, a count in the heading, no more
//! than a limit shown, and a note that says how many were left out.

use crate::groups::{
    grouped, law_grouped, lemma_value_has_group, lemma_values_are_picked, text_less,
};
use crate::report::{all_listed, capped, closing, listed, section};
use crate::text::{decimal, joined};
use vstd::prelude::*;

verus! {

/// A list is its items one after the other, each with the lead in front and a line
/// end behind it.
pub proof fn law_listed(items: Seq<Seq<char>>, lead: Seq<char>)
    ensures
        listed(items, lead) == items.map_values(|item: Seq<char>| lead + item + "\n"@).flatten(),
    decreases items.len(),
{
    let write = |item: Seq<char>| lead + item + "\n"@;
    let written = items.map_values(write);
    written.lemma_flatten_and_flatten_alt_are_equivalent();
    if items.len() > 0 {
        law_listed(items.drop_last(), lead);
        assert(written.drop_last() =~= items.drop_last().map_values(write));
        written.drop_last().lemma_flatten_and_flatten_alt_are_equivalent();
        assert(listed(items, lead) =~= listed(items.drop_last(), lead) + (lead + items.last()
            + "\n"@));
    }
}

/// Up to the limit a list is shown whole. Beyond it, exactly as many items as the
/// limit are shown, the first ones, and the note gives the number of the others.
pub proof fn law_capped(items: Seq<Seq<char>>, lead: Seq<char>, cap: nat, tail: Seq<char>)
    ensures
        items.len() <= cap ==> capped(items, lead, cap, tail) == items.map_values(
            |item: Seq<char>| lead + item + "\n"@,
        ).flatten(),
        items.len() > cap ==> capped(items, lead, cap, tail) == items.subrange(
            0,
            cap as int,
        ).map_values(|item: Seq<char>| lead + item + "\n"@).flatten() + "  ... +"@ + decimal(
            (items.len() - cap) as nat,
        ) + tail,
{
    if items.len() <= cap {
        law_listed(items, lead);
        assert(items.take(items.len() as int) =~= items);
        assert(capped(items, lead, cap, tail) =~= listed(items, lead));
    } else {
        let first = items.subrange(0, cap as int);
        law_listed(first, lead);
        assert(items.take(cap as int) =~= first);
        assert(capped(items, lead, cap, tail) =~= listed(first, lead) + "  ... +"@ + decimal(
            (items.len() - cap) as nat,
        ) + tail);
    }
}

/// A section has the number of all its items in the heading, and the items
/// underneath up to the limit. Without items there is no section.
pub proof fn law_section(heading: Seq<char>, items: Seq<Seq<char>>, cap: nat)
    ensures
        items.len() == 0 ==> section(heading, items, cap).len() == 0,
        0 < items.len() <= cap ==> section(heading, items, cap) == heading + decimal(items.len())
            + "):\n"@ + items.map_values(|item: Seq<char>| "  "@ + item + "\n"@).flatten(),
        items.len() > cap ==> section(heading, items, cap) == heading + decimal(items.len())
            + "):\n"@ + (items.subrange(0, cap as int).map_values(
            |item: Seq<char>| "  "@ + item + "\n"@,
        ).flatten() + "  ... +"@ + decimal((items.len() - cap) as nat) + " more\n"@),
{
    law_capped(items, "  "@, cap, " more\n"@);
}

/// A section without a limit has all of its items underneath.
pub proof fn law_all_listed(heading: Seq<char>, items: Seq<Seq<char>>)
    ensures
        items.len() == 0 ==> all_listed(heading, items).len() == 0,
        items.len() > 0 ==> all_listed(heading, items) == heading + decimal(items.len()) + "):\n"@
            + items.map_values(|item: Seq<char>| "  "@ + item + "\n"@).flatten(),
{
    law_listed(items, "  "@);
}

/// The closing line stands by itself, after an empty line. Without a text there is
/// none.
pub proof fn law_closing(text: Seq<char>)
    ensures
        text.len() == 0 ==> closing(text).len() == 0,
        text.len() > 0 ==> closing(text) == "\n"@ + text + "\n"@,
{
}

/// Joined texts are the first, and each of the others with the separator in front.
pub proof fn law_joined(parts: Seq<Seq<char>>, sep: Seq<char>)
    ensures
        parts.len() == 0 ==> joined(parts, sep).len() == 0,
        parts.len() > 0 ==> joined(parts, sep) == parts[0] + parts.drop_first().map_values(
            |part: Seq<char>| sep + part,
        ).flatten(),
    decreases parts.len(),
{
    let write = |part: Seq<char>| sep + part;
    if parts.len() == 1 {
        assert(parts.drop_first().map_values(write) =~= Seq::<Seq<char>>::empty());
        assert(joined(parts, sep) =~= parts[0] + Seq::<char>::empty());
    } else if parts.len() > 1 {
        let rest = parts.drop_first().map_values(write);
        law_joined(parts.drop_last(), sep);
        rest.lemma_flatten_and_flatten_alt_are_equivalent();
        rest.drop_last().lemma_flatten_and_flatten_alt_are_equivalent();
        assert(rest.drop_last() =~= parts.drop_last().drop_first().map_values(write));
        assert(rest.last() == sep + parts.last());
        assert(joined(parts, sep) =~= parts[0] + (rest.drop_last().flatten() + (sep
            + parts.last())));
    }
}

/// Values are grouped by key: there is a group for each key that occurs, and the
/// groups stand in the order of their keys.
pub proof fn law_values_grouped<W>(pairs: Seq<(Seq<char>, W)>, k: int)
    requires
        0 <= k < pairs.len(),
    ensures
        forall|i: int, j: int|
            0 <= i < j < grouped(pairs).len() ==> text_less(
                #[trigger] grouped(pairs)[i].0,
                #[trigger] grouped(pairs)[j].0,
            ),
        exists|i: int|
            0 <= i < grouped(pairs).len() && (#[trigger] grouped(pairs)[i]).0 == pairs[k].0,
{
    law_grouped(pairs);
    let at = lemma_value_has_group(pairs, k);
    assert(grouped(pairs)[at.0].0 == pairs[k].0);
}

/// A group holds the values of its key, all of them, in the order in which they
/// came, and no group is empty.
pub proof fn law_group_holds<W>(pairs: Seq<(Seq<char>, W)>, i: int)
    requires
        0 <= i < grouped(pairs).len(),
    ensures
        ({
            let (key, values) = grouped(pairs)[i];
            &&& values.len() > 0
            &&& values == pairs.filter_map(
                |pair: (Seq<char>, W)|
                    if pair.0 == key {
                        Some(pair.1)
                    } else {
                        None
                    },
            )
        }),
{
    let (key, values) = grouped(pairs)[i];
    law_grouped(pairs);
    assert(grouped(pairs).contains((key, values)));
    lemma_values_are_picked(pairs, key);
}

/// Texts are ordered as in a dictionary: by the first character at which they
/// differ, and a text before those that it begins.
pub proof fn law_text_order(head: Seq<char>, a: char, b: char, s: Seq<char>, t: Seq<char>)
    ensures
        text_less(head + seq![a] + s, head + seq![b] + t) == (a < b || (a == b && text_less(s, t))),
        text_less(head, head + seq![b] + t),
        !text_less(head + seq![a] + s, head),
    decreases head.len(),
{
    let x = head + seq![a] + s;
    let y = head + seq![b] + t;
    if head.len() > 0 {
        law_text_order(head.skip(1), a, b, s, t);
        assert(x.skip(1) =~= head.skip(1) + seq![a] + s);
        assert(y.skip(1) =~= head.skip(1) + seq![b] + t);
    } else {
        assert(x.skip(1) =~= s);
        assert(y.skip(1) =~= t);
    }
}

} // verus!
