//! The building blocks of the reports: lists of indented lines, lists that are
//! cut off at a limit, and the facts that nothing gets lost in them.

use crate::text::{
    begins_with, decimal, decimal_text, is_digit, is_space, joined, occurs, stands_at, trim_end,
    trim_start, trimmed, views,
};
use vstd::prelude::*;

verus! {

/// One line per item: `lead`, the item, a line feed.
pub open spec fn listed(items: Seq<Seq<char>>, lead: Seq<char>) -> Seq<char>
    decreases items.len(),
{
    if items.len() == 0 {
        seq![]
    } else {
        listed(items.drop_last(), lead) + lead + items.last() + "\n"@
    }
}

/// How many of `n` items a list with limit `cap` shows.
pub open spec fn shown(n: nat, cap: nat) -> nat {
    if n <= cap {
        n
    } else {
        cap
    }
}

/// The line that counts the items beyond the limit, if there are any.
pub open spec fn remainder_note(n: nat, cap: nat, tail: Seq<char>) -> Seq<char> {
    if n > cap {
        "  ... +"@ + decimal((n - cap) as nat) + tail
    } else {
        seq![]
    }
}

/// The first `cap` items, and a note on how many more there are.
pub open spec fn capped(
    items: Seq<Seq<char>>,
    lead: Seq<char>,
    cap: nat,
    tail: Seq<char>,
) -> Seq<char> {
    listed(items.take(shown(items.len(), cap) as int), lead) + remainder_note(
        items.len(),
        cap,
        tail,
    )
}

/// A counted section: nothing for no items, else a heading that ends in the
/// number of items, and the first `cap` of them.
pub open spec fn section(heading: Seq<char>, items: Seq<Seq<char>>, cap: nat) -> Seq<char> {
    if items.len() == 0 {
        seq![]
    } else {
        heading + decimal(items.len()) + "):\n"@ + capped(items, "  "@, cap, " more\n"@)
    }
}

/// A counted section without a limit.
pub open spec fn all_listed(heading: Seq<char>, items: Seq<Seq<char>>) -> Seq<char> {
    if items.len() == 0 {
        seq![]
    } else {
        heading + decimal(items.len()) + "):\n"@ + listed(items, "  "@)
    }
}

/// A line of its own behind an empty line; nothing for empty text.
pub open spec fn closing(text: Seq<char>) -> Seq<char> {
    if text.len() == 0 {
        seq![]
    } else {
        "\n"@ + text + "\n"@
    }
}

/// Writes `text` on a line of its own behind an empty line, unless it is empty.
pub fn closing_text(text: &str) -> (r: String)
    ensures
        r@ == closing(text@),
{
    let mut out = String::new();
    if !text.is_empty() {
        out = "\n".to_owned();
        out.append(text);
        out.append("\n");
    }
    out
}

/// Writes one line for each of the first `n` items.
pub fn list_lines(items: &Vec<String>, n: usize, lead: &str) -> (r: String)
    requires
        n <= items@.len(),
    ensures
        r@ == listed(views(items@).take(n as int), lead@),
{
    let mut out = String::new();
    let ghost all = views(items@);
    for i in 0..n
        invariant
            n <= items@.len(),
            all == views(items@),
            out@ == listed(all.take(i as int), lead@),
    {
        assert(all.take(i + 1).drop_last() =~= all.take(i as int));
        out.append(lead);
        out.append(items[i].as_str());
        out.append("\n");
    }
    out
}

/// Writes the first `cap` items and a note on how many more there are.
pub fn capped_lines(items: &Vec<String>, lead: &str, cap: usize, tail: &str) -> (r: String)
    ensures
        r@ == capped(views(items@), lead@, cap as nat, tail@),
{
    let n: usize = if items.len() <= cap {
        items.len()
    } else {
        cap
    };
    let mut out = list_lines(items, n, lead);
    if items.len() > cap {
        let mut note = "  ... +".to_owned();
        note.append(decimal_text(items.len() - cap).as_str());
        note.append(tail);
        out.append(note.as_str());
    } else {
        assert(out@ + Seq::<char>::empty() =~= out@);
    }
    out
}

/// Writes a counted section.
pub fn section_text(heading: &str, items: &Vec<String>, cap: usize) -> (r: String)
    ensures
        r@ == section(heading@, views(items@), cap as nat),
{
    let mut out = String::new();
    if items.len() > 0 {
        out = heading.to_owned();
        out.append(decimal_text(items.len()).as_str());
        out.append("):\n");
        out.append(capped_lines(items, "  ", cap, " more\n").as_str());
    }
    out
}

/// Writes a counted section without a limit.
pub fn all_listed_text(heading: &str, items: &Vec<String>) -> (r: String)
    ensures
        r@ == all_listed(heading@, views(items@)),
{
    let mut out = String::new();
    if items.len() > 0 {
        out = heading.to_owned();
        out.append(decimal_text(items.len()).as_str());
        out.append("):\n");
        assert(views(items@).take(items@.len() as int) =~= views(items@));
        out.append(list_lines(items, items.len(), "  ").as_str());
    }
    out
}

// ─── What a report keeps ────────────────────────────────────────────────────

/// The items that a list shows and the items that its note counts make up all
/// of them, and the note is there exactly when some item is not shown.
pub proof fn law_shown_plus_remainder(n: nat, cap: nat, tail: Seq<char>)
    ensures
        n > cap ==> shown(n, cap) + (n - cap) == n && remainder_note(n, cap, tail) == "  ... +"@
            + decimal((n - cap) as nat) + tail,
        n <= cap ==> shown(n, cap) == n && remainder_note(n, cap, tail).len() == 0,
{
}

/// Text without whitespace at either end.
pub open spec fn is_trimmed(s: Seq<char>) -> bool {
    s.len() > 0 ==> !is_space(s[0]) && !is_space(s.last())
}

proof fn lemma_trim_start_first(s: Seq<char>)
    ensures
        trim_start(s).len() > 0 ==> !is_space(trim_start(s)[0]),
    decreases s.len(),
{
    if s.len() > 0 && is_space(s[0]) {
        lemma_trim_start_first(s.skip(1));
    }
}

proof fn lemma_trim_end_keeps_first(s: Seq<char>)
    ensures
        trim_end(s).len() > 0 ==> s.len() > 0 && trim_end(s)[0] == s[0],
        trim_end(s).len() > 0 ==> !is_space(trim_end(s).last()),
    decreases s.len(),
{
    if s.len() > 0 && is_space(s.last()) {
        lemma_trim_end_keeps_first(s.drop_last());
    }
}

/// Trimmed text has no whitespace at either end.
pub proof fn law_trimmed_is_trimmed(s: Seq<char>)
    ensures
        is_trimmed(trimmed(s)),
{
    lemma_trim_start_first(s);
    lemma_trim_end_keeps_first(trim_start(s));
}

/// A number written in decimal ends in a digit, and so in no whitespace.
pub proof fn lemma_decimal_ends_in_digit(n: nat)
    ensures
        decimal(n).len() > 0,
        is_digit(decimal(n).last()),
        !is_space(decimal(n).last()),
{
}

/// What occurs in a part occurs in the whole.
pub proof fn lemma_occurs_in_parts(needle: Seq<char>, a: Seq<char>, b: Seq<char>)
    ensures
        occurs(needle, a) ==> occurs(needle, a + b),
        occurs(needle, b) ==> occurs(needle, a + b),
{
    if occurs(needle, a) {
        let k = choose|k: int| stands_at(a, k, needle);
        assert((a + b).subrange(k, k + needle.len()) =~= a.subrange(k, k + needle.len()));
        assert(stands_at(a + b, k, needle));
    }
    if occurs(needle, b) {
        let k = choose|k: int| stands_at(b, k, needle);
        assert((a + b).subrange(a.len() + k, a.len() + k + needle.len()) =~= b.subrange(
            k,
            k + needle.len(),
        ));
        assert(stands_at(a + b, a.len() + k, needle));
    }
}

/// A text occurs in itself.
pub proof fn lemma_occurs_in_itself(s: Seq<char>)
    ensures
        occurs(s, s),
{
    assert(s.subrange(0, s.len() as int) =~= s);
    assert(stands_at(s, 0, s));
}

/// What occurs in a part of a part occurs in the whole.
pub proof fn lemma_occurs_through(needle: Seq<char>, mid: Seq<char>, hay: Seq<char>)
    requires
        occurs(needle, mid),
        occurs(mid, hay),
    ensures
        occurs(needle, hay),
{
    let i = choose|k: int| stands_at(mid, k, needle);
    let j = choose|k: int| stands_at(hay, k, mid);
    let outer = hay.subrange(j + i, j + i + needle.len());
    let inner = mid.subrange(i, i + needle.len());
    assert forall|x: int| 0 <= x < needle.len() implies #[trigger] outer[x] == inner[x] by {
        assert(hay.subrange(j, j + mid.len())[i + x] == hay[j + i + x]);
    }
    assert(outer =~= inner);
    assert(stands_at(hay, j + i, needle));
}

proof fn lemma_occurs_after_trim_start(needle: Seq<char>, s: Seq<char>, k: int)
    requires
        needle.len() > 0,
        !is_space(needle[0]),
        stands_at(s, k, needle),
    ensures
        occurs(needle, trim_start(s)),
    decreases s.len(),
{
    assert(s.subrange(k, k + needle.len())[0] == s[k]);
    if s.len() > 0 && is_space(s[0]) {
        assert(s.skip(1).subrange(k - 1, k - 1 + needle.len()) =~= needle);
        lemma_occurs_after_trim_start(needle, s.skip(1), k - 1);
    } else {
        assert(stands_at(s, k, needle));
    }
}

proof fn lemma_occurs_after_trim_end(needle: Seq<char>, s: Seq<char>, k: int)
    requires
        needle.len() > 0,
        !is_space(needle.last()),
        stands_at(s, k, needle),
    ensures
        occurs(needle, trim_end(s)),
    decreases s.len(),
{
    assert(s.subrange(k, k + needle.len()).last() == s[k + needle.len() - 1]);
    if s.len() > 0 && is_space(s.last()) {
        assert(s.drop_last().subrange(k, k + needle.len()) =~= needle);
        lemma_occurs_after_trim_end(needle, s.drop_last(), k);
    } else {
        assert(stands_at(s, k, needle));
    }
}

/// Trimming a report loses no text that itself has no whitespace at its ends.
pub proof fn lemma_occurs_after_trim(needle: Seq<char>, s: Seq<char>)
    requires
        is_trimmed(needle),
        occurs(needle, s),
    ensures
        occurs(needle, trimmed(s)),
{
    if needle.len() == 0 {
        assert(trimmed(s).subrange(0, 0) =~= needle);
        assert(stands_at(trimmed(s), 0, needle));
    } else {
        lemma_occurs_after_trim_start(needle, s, choose|k: int| stands_at(s, k, needle));
        let t = trim_start(s);
        lemma_occurs_after_trim_end(needle, t, choose|k: int| stands_at(t, k, needle));
    }
}

/// Trimming a report that begins with text loses nothing that ends in text.
pub proof fn lemma_occurs_in_begun(needle: Seq<char>, s: Seq<char>)
    requires
        s.len() > 0,
        !is_space(s[0]),
        needle.len() > 0,
        !is_space(needle.last()),
        occurs(needle, s),
    ensures
        occurs(needle, trimmed(s)),
{
    lemma_occurs_after_trim_end(needle, s, choose|k: int| stands_at(s, k, needle));
}

/// What a report begins with is kept when it is without whitespace at its ends.
pub proof fn lemma_head_kept(head: Seq<char>, post: Seq<char>)
    requires
        is_trimmed(head),
    ensures
        occurs(head, trimmed(head + post)),
{
    lemma_occurs_in_itself(head);
    lemma_occurs_in_parts(head, head, post);
    lemma_occurs_after_trim(head, head + post);
}

/// A report begins with what it was begun with, where that is without whitespace at
/// its ends.
pub proof fn lemma_head_first(head: Seq<char>, post: Seq<char>)
    requires
        head.len() > 0,
        is_trimmed(head),
    ensures
        begins_with(trimmed(head + post), head),
{
    let whole = head + post;
    assert(whole[0] == head[0]);
    assert(trim_start(whole) == whole);
    let n = lemma_trim_end_is_take(whole);
    assert(n >= head.len()) by {
        if n < head.len() {
            assert(whole[head.len() - 1] == head.last());
        }
    }
    assert(whole.take(n).subrange(0, head.len() as int) =~= head);
}

/// A part of a report that begins with text is kept when the part ends in text.
pub proof fn lemma_part_kept(pre: Seq<char>, part: Seq<char>, post: Seq<char>)
    requires
        pre.len() > 0,
        !is_space(pre[0]),
        part.len() > 0,
        !is_space(part.last()),
    ensures
        occurs(part, trimmed(pre + part + post)),
{
    lemma_occurs_in_itself(part);
    lemma_occurs_in_middle(part, pre, part, post);
    assert((pre + part + post)[0] == pre[0]);
    lemma_occurs_in_begun(part, pre + part + post);
}

/// Every item of a list occurs in the list's text.
pub proof fn lemma_listed_keeps(items: Seq<Seq<char>>, lead: Seq<char>, i: int)
    requires
        0 <= i < items.len(),
    ensures
        occurs(items[i], listed(items, lead)),
        occurs(lead + items[i], listed(items, lead)),
    decreases items.len(),
{
    let before = listed(items.drop_last(), lead);
    if i < items.len() - 1 {
        lemma_listed_keeps(items.drop_last(), lead, i);
        lemma_occurs_in_parts(items[i], before, lead);
        lemma_occurs_in_parts(items[i], before + lead, items.last());
        lemma_occurs_in_parts(items[i], before + lead + items.last(), "\n"@);
        lemma_occurs_in_parts(lead + items[i], before, lead);
        lemma_occurs_in_parts(lead + items[i], before + lead, items.last());
        lemma_occurs_in_parts(lead + items[i], before + lead + items.last(), "\n"@);
    } else {
        lemma_occurs_in_itself(items[i]);
        lemma_occurs_in_itself(lead + items[i]);
        lemma_occurs_in_parts(items[i], before + lead, items[i]);
        lemma_occurs_in_parts(lead + items[i], before, lead + items[i]);
        assert(before + (lead + items[i]) =~= before + lead + items[i]);
        lemma_occurs_in_parts(items[i], before + lead + items[i], "\n"@);
        lemma_occurs_in_parts(lead + items[i], before + lead + items[i], "\n"@);
    }
}

/// Every item within the limit of a list occurs in the list's text.
pub proof fn lemma_capped_keeps(
    items: Seq<Seq<char>>,
    lead: Seq<char>,
    cap: nat,
    tail: Seq<char>,
    i: int,
)
    requires
        0 <= i < shown(items.len(), cap),
    ensures
        occurs(items[i], capped(items, lead, cap, tail)),
        occurs(lead + items[i], capped(items, lead, cap, tail)),
{
    let head = items.take(shown(items.len(), cap) as int);
    lemma_listed_keeps(head, lead, i);
    lemma_occurs_in_parts(items[i], listed(head, lead), remainder_note(items.len(), cap, tail));
    lemma_occurs_in_parts(
        lead + items[i],
        listed(head, lead),
        remainder_note(items.len(), cap, tail),
    );
}

/// Whether `a` and, behind it, `b` occur in `hay`.
pub open spec fn in_order(a: Seq<char>, b: Seq<char>, hay: Seq<char>) -> bool {
    exists|p: int, q: int| #[trigger]
        stands_at(hay, p, a) && #[trigger] stands_at(hay, q, b) && p + a.len() <= q
}

/// An occurrence in a part is one in the whole, shifted by what stands before.
proof fn lemma_stands_in_middle(needle: Seq<char>, a: Seq<char>, b: Seq<char>, c: Seq<char>, k: int)
    requires
        stands_at(b, k, needle),
    ensures
        stands_at(a + b + c, a.len() + k, needle),
{
    assert((a + b + c).subrange(a.len() + k, a.len() + k + needle.len()) =~= b.subrange(
        k,
        k + needle.len(),
    ));
}

/// What occurs in the middle occurs in the whole.
pub proof fn lemma_occurs_in_middle(needle: Seq<char>, a: Seq<char>, b: Seq<char>, c: Seq<char>)
    requires
        occurs(needle, b),
    ensures
        occurs(needle, a + b + c),
{
    let k = choose|k: int| stands_at(b, k, needle);
    lemma_stands_in_middle(needle, a, b, c, k);
}

proof fn lemma_in_order_in_middle(
    x: Seq<char>,
    y: Seq<char>,
    a: Seq<char>,
    b: Seq<char>,
    c: Seq<char>,
)
    requires
        in_order(x, y, b),
    ensures
        in_order(x, y, a + b + c),
{
    let (p, q) = choose|p: int, q: int| #[trigger]
        stands_at(b, p, x) && #[trigger] stands_at(b, q, y) && p + x.len() <= q;
    lemma_stands_in_middle(x, a, b, c, p);
    lemma_stands_in_middle(y, a, b, c, q);
}

proof fn lemma_trim_start_is_skip(s: Seq<char>) -> (n: int)
    ensures
        0 <= n <= s.len(),
        trim_start(s) == s.skip(n),
        forall|i: int| 0 <= i < n ==> is_space(#[trigger] s[i]),
    decreases s.len(),
{
    if s.len() > 0 && is_space(s[0]) {
        let m = lemma_trim_start_is_skip(s.skip(1));
        assert(s.skip(1).skip(m) =~= s.skip(m + 1));
        assert forall|i: int| 0 <= i < m + 1 implies is_space(#[trigger] s[i]) by {
            if i > 0 {
                assert(s.skip(1)[i - 1] == s[i]);
            }
        }
        m + 1
    } else {
        assert(s.skip(0) =~= s);
        0
    }
}

proof fn lemma_trim_end_is_take(s: Seq<char>) -> (n: int)
    ensures
        0 <= n <= s.len(),
        trim_end(s) == s.take(n),
        forall|i: int| n <= i < s.len() ==> is_space(#[trigger] s[i]),
    decreases s.len(),
{
    if s.len() > 0 && is_space(s.last()) {
        let m = lemma_trim_end_is_take(s.drop_last());
        assert(s.drop_last().take(m) =~= s.take(m));
        assert forall|i: int| m <= i < s.len() implies is_space(#[trigger] s[i]) by {
            if i < s.len() - 1 {
                assert(s.drop_last()[i] == s[i]);
            }
        }
        m
    } else {
        assert(s.take(s.len() as int) =~= s);
        s.len() as int
    }
}

/// Trimming is cutting: there is a shift by which every occurrence of text with
/// no whitespace at its ends moves.
proof fn lemma_trim_shift(s: Seq<char>) -> (d: int)
    ensures
        forall|needle: Seq<char>, k: int|
            needle.len() > 0 && is_trimmed(needle) && #[trigger] stands_at(s, k, needle)
                ==> stands_at(trimmed(s), k - d, needle),
{
    let d = lemma_trim_start_is_skip(s);
    let t = trim_start(s);
    let n = lemma_trim_end_is_take(t);
    assert forall|needle: Seq<char>, k: int|
        needle.len() > 0 && is_trimmed(needle) && #[trigger] stands_at(s, k, needle) implies
        stands_at(trimmed(s), k - d, needle) by {
        let len = needle.len() as int;
        assert(s.subrange(k, k + len)[0] == s[k]);
        assert(s.subrange(k, k + len)[len - 1] == s[k + len - 1]);
        assert(k >= d);
        assert(t[k + len - 1 - d] == s[k + len - 1]);
        assert(k + len - d <= n);
        assert(trimmed(s).subrange(k - d, k - d + len) =~= s.subrange(k, k + len));
    }
    d
}

proof fn lemma_in_order_after_trim(x: Seq<char>, y: Seq<char>, s: Seq<char>)
    requires
        is_trimmed(x),
        is_trimmed(y),
        in_order(x, y, s),
    ensures
        in_order(x, y, trimmed(s)),
{
    let t = trimmed(s);
    let (p, q) = choose|p: int, q: int| #[trigger]
        stands_at(s, p, x) && #[trigger] stands_at(s, q, y) && p + x.len() <= q;
    let d = lemma_trim_shift(s);
    if x.len() > 0 && y.len() > 0 {
        assert(stands_at(t, p - d, x));
        assert(stands_at(t, q - d, y));
    } else if x.len() > 0 {
        assert(stands_at(t, p - d, x));
        assert(t.subrange(p - d + x.len(), p - d + x.len()) =~= y);
        assert(stands_at(t, p - d + x.len(), y));
    } else {
        assert(t.subrange(0, 0) =~= x);
        assert(stands_at(t, 0, x));
        if y.len() > 0 {
            assert(stands_at(t, q - d, y));
        } else {
            assert(t.subrange(0, 0) =~= y);
            assert(stands_at(t, 0, y));
        }
    }
}

proof fn lemma_listed_in_order(items: Seq<Seq<char>>, lead: Seq<char>, i: int, j: int)
    requires
        0 <= i < j < items.len(),
    ensures
        in_order(items[i], items[j], listed(items, lead)),
    decreases items.len(),
{
    let before = listed(items.drop_last(), lead);
    let whole = listed(items, lead);
    if j < items.len() - 1 {
        lemma_listed_in_order(items.drop_last(), lead, i, j);
        let none = Seq::<char>::empty();
        let rest = lead + items.last() + "\n"@;
        lemma_in_order_in_middle(items[i], items[j], none, before, rest);
        assert(none + before + rest =~= whole);
    } else {
        lemma_listed_keeps(items.drop_last(), lead, i);
        let p = choose|k: int| stands_at(before, k, items[i]);
        let none = Seq::<char>::empty();
        let rest = lead + items.last() + "\n"@;
        lemma_stands_in_middle(items[i], none, before, rest, p);
        assert(none + before + rest =~= whole);
        lemma_occurs_in_itself(items[j]);
        let k = choose|k: int| stands_at(items[j], k, items[j]);
        lemma_stands_in_middle(items[j], before + lead, items[j], "\n"@, k);
        assert(stands_at(whole, p, items[i]));
        assert(stands_at(whole, before.len() + lead.len() + k, items[j]));
    }
}

/// Whether every item is without whitespace at its ends.
pub open spec fn all_trimmed(items: Seq<Seq<char>>) -> bool {
    forall|i: int| 0 <= i < items.len() ==> is_trimmed(#[trigger] items[i])
}

proof fn lemma_note_shape(a: Seq<char>, b: Seq<char>, c: Seq<char>, d: Seq<char>, e: Seq<char>)
    ensures
        a + b + c + (d + e) == a + (b + c + d) + e,
{
    assert(a + b + c + (d + e) =~= a + (b + c + d) + e);
}

proof fn lemma_ends_of_sum(a: Seq<char>, b: Seq<char>, c: Seq<char>)
    requires
        a.len() > 0,
        c.len() > 0,
    ensures
        (a + b + c)[0] == a[0],
        (a + b + c).last() == c.last(),
{
}

/// The note on the items beyond the limit is kept.
pub proof fn lemma_note_survives(
    pre: Seq<char>,
    n: nat,
    cap: nat,
    word: Seq<char>,
    post: Seq<char>,
)
    requires
        n > cap,
        word.len() > 0,
        !is_space(word.last()),
    ensures
        occurs(
            "... +"@ + decimal((n - cap) as nat) + word,
            trimmed(pre + remainder_note(n, cap, word + "\n"@) + post),
        ),
{
    let note = remainder_note(n, cap, word + "\n"@);
    let digits = decimal((n - cap) as nat);
    let needle = "... +"@ + digits + word;
    assert("  ... +"@ =~= "  "@ + "... +"@ && "... +"@.len() > 0 && !is_space("... +"@[0])) by {
        reveal_strlit("  ... +");
        reveal_strlit("... +");
        reveal_strlit("  ");
    }
    lemma_note_shape("  "@, "... +"@, digits, word, "\n"@);
    lemma_occurs_in_itself(needle);
    lemma_occurs_in_middle(needle, "  "@, needle, "\n"@);
    lemma_occurs_in_middle(needle, pre, note, post);
    lemma_ends_of_sum("... +"@, digits, word);
    lemma_occurs_after_trim(needle, pre + note + post);
}

/// A list within a report keeps its items, in their order, and its note.
pub proof fn lemma_capped_survives(
    pre: Seq<char>,
    items: Seq<Seq<char>>,
    lead: Seq<char>,
    cap: nat,
    word: Seq<char>,
    post: Seq<char>,
)
    requires
        all_trimmed(items),
        word.len() > 0,
        !is_space(word.last()),
    ensures
        forall|i: int|
            0 <= i < shown(items.len(), cap) ==> occurs(
                #[trigger] items[i],
                trimmed(pre + capped(items, lead, cap, word + "\n"@) + post),
            ),
        forall|i: int, j: int|
            0 <= i < j < shown(items.len(), cap) ==> in_order(
                #[trigger] items[i],
                #[trigger] items[j],
                trimmed(pre + capped(items, lead, cap, word + "\n"@) + post),
            ),
        items.len() > cap ==> occurs(
            "... +"@ + decimal((items.len() - cap) as nat) + word,
            trimmed(pre + capped(items, lead, cap, word + "\n"@) + post),
        ),
{
    let list = capped(items, lead, cap, word + "\n"@);
    let whole = pre + list + post;
    let head = items.take(shown(items.len(), cap) as int);
    let note = remainder_note(items.len(), cap, word + "\n"@);
    assert forall|i: int| 0 <= i < shown(items.len(), cap) implies occurs(
        #[trigger] items[i],
        trimmed(whole),
    ) by {
        lemma_capped_keeps(items, lead, cap, word + "\n"@, i);
        lemma_occurs_in_middle(items[i], pre, list, post);
        lemma_occurs_after_trim(items[i], whole);
    }
    assert forall|i: int, j: int| 0 <= i < j < shown(items.len(), cap) implies in_order(
        #[trigger] items[i],
        #[trigger] items[j],
        trimmed(whole),
    ) by {
        lemma_listed_in_order(head, lead, i, j);
        let none = Seq::<char>::empty();
        lemma_in_order_in_middle(items[i], items[j], none, listed(head, lead), note);
        assert(none + listed(head, lead) + note =~= list);
        lemma_in_order_in_middle(items[i], items[j], pre, list, post);
        lemma_in_order_after_trim(items[i], items[j], whole);
    }
    if items.len() > cap {
        lemma_note_survives(pre + listed(head, lead), items.len(), cap, word, post);
        assert(pre + listed(head, lead) + note + post =~= whole);
    }
}

/// A section within a report keeps its items, in their order, the number of its
/// items and its note.
pub proof fn lemma_section_survives(
    pre: Seq<char>,
    heading: Seq<char>,
    title: Seq<char>,
    items: Seq<Seq<char>>,
    cap: nat,
    post: Seq<char>,
)
    requires
        heading == "\n"@ + title,
        title.len() > 0,
        !is_space(title[0]),
        all_trimmed(items),
    ensures
        forall|i: int|
            0 <= i < shown(items.len(), cap) ==> occurs(
                #[trigger] items[i],
                trimmed(pre + section(heading, items, cap) + post),
            ),
        forall|i: int, j: int|
            0 <= i < j < shown(items.len(), cap) ==> in_order(
                #[trigger] items[i],
                #[trigger] items[j],
                trimmed(pre + section(heading, items, cap) + post),
            ),
        items.len() > 0 ==> occurs(
            title + decimal(items.len()) + "):"@,
            trimmed(pre + section(heading, items, cap) + post),
        ),
        items.len() > cap ==> occurs(
            "... +"@ + decimal((items.len() - cap) as nat) + " more"@,
            trimmed(pre + section(heading, items, cap) + post),
        ),
{
    if items.len() > 0 {
        let head = heading + decimal(items.len()) + "):\n"@;
        let list = capped(items, "  "@, cap, " more\n"@);
        let whole = pre + section(heading, items, cap) + post;
        assert(" more\n"@ =~= " more"@ + "\n"@ && " more"@.len() > 0 && !is_space(" more"@.last()))
            by {
            reveal_strlit(" more\n");
            reveal_strlit(" more");
            reveal_strlit("\n");
        }
        lemma_capped_survives(pre + head, items, "  "@, cap, " more"@, post);
        assert(pre + head + list + post =~= whole);
        let needle = title + decimal(items.len()) + "):"@;
        assert(head =~= "\n"@ + needle + "\n"@) by {
            reveal_strlit("):\n");
            reveal_strlit("):");
            reveal_strlit("\n");
        }
        lemma_occurs_in_itself(needle);
        lemma_occurs_in_middle(needle, "\n"@, needle, "\n"@);
        lemma_occurs_in_middle(needle, pre, head, list + post);
        assert(pre + head + (list + post) =~= whole);
        assert(needle.last() == ':') by {
            reveal_strlit("):");
        }
        lemma_occurs_after_trim(needle, whole);
    }
}

/// A counted section without a limit is one whose limit is not reached.
pub proof fn lemma_all_listed_is_section(heading: Seq<char>, items: Seq<Seq<char>>)
    ensures
        all_listed(heading, items) == section(heading, items, items.len()),
{
    assert(items.take(items.len() as int) =~= items);
    assert(capped(items, "  "@, items.len(), " more\n"@) =~= listed(items, "  "@));
}

/// A closing line within a report is kept.
pub proof fn lemma_closing_survives(pre: Seq<char>, text: Seq<char>, post: Seq<char>)
    requires
        is_trimmed(text),
    ensures
        occurs(text, trimmed(pre + closing(text) + post)),
{
    let whole = pre + closing(text) + post;
    if text.len() > 0 {
        lemma_occurs_in_itself(text);
        lemma_occurs_in_middle(text, "\n"@, text, "\n"@);
        lemma_occurs_in_middle(text, pre, closing(text), post);
    } else {
        assert(whole.subrange(0, 0) =~= text);
        assert(stands_at(whole, 0, text));
    }
    lemma_occurs_after_trim(text, whole);
}

/// A closing line at the end of a report is kept.
pub proof fn lemma_closing_at_end(pre: Seq<char>, text: Seq<char>)
    requires
        is_trimmed(text),
    ensures
        occurs(text, trimmed(pre + closing(text))),
{
    let none = Seq::<char>::empty();
    lemma_closing_survives(pre, text, none);
    assert(pre + closing(text) + none =~= pre + closing(text));
}

/// Whether a part of a report is empty or ends a line.
pub open spec fn ends_line(s: Seq<char>) -> bool {
    s.len() == 0 || s.last() == '\n'
}

/// A part that is empty or ends a line, behind one that ends a line, ends a line.
pub proof fn lemma_line_ends(a: Seq<char>, b: Seq<char>)
    requires
        a.len() > 0,
        a.last() == '\n',
        ends_line(b),
    ensures
        (a + b).len() > 0,
        (a + b).last() == '\n',
        (a + b)[0] == a[0],
{
}

/// A list with a limit ends a line.
pub proof fn lemma_capped_ends(items: Seq<Seq<char>>, lead: Seq<char>, cap: nat)
    ensures
        ends_line(capped(items, lead, cap, " more\n"@)),
{
    reveal_strlit(" more\n");
    reveal_strlit("\n");
}

/// A section ends a line.
pub proof fn lemma_section_ends(heading: Seq<char>, items: Seq<Seq<char>>, cap: nat)
    ensures
        ends_line(section(heading, items, cap)),
{
    if items.len() > 0 {
        let head = heading + decimal(items.len()) + "):\n"@;
        assert(head.len() > 0 && head.last() == '\n') by {
            reveal_strlit("):\n");
        }
        lemma_capped_ends(items, "  "@, cap);
        lemma_line_ends(head, capped(items, "  "@, cap, " more\n"@));
    }
}

/// A closing line closes the report, behind an empty line, where what stands before
/// it begins with text and ends a line.
pub proof fn lemma_closes(pre: Seq<char>, text: Seq<char>)
    requires
        pre.len() > 0,
        !is_space(pre[0]),
        pre.last() == '\n',
        text.len() > 0,
        is_trimmed(text),
    ensures
        trimmed(pre + closing(text)) == pre + "\n"@ + text,
        ({
            let r = trimmed(pre + closing(text));
            let end = "\n\n"@ + text;
            stands_at(r, r.len() - end.len(), end)
        }),
{
    let whole = pre + closing(text);
    let kept = pre + "\n"@ + text;
    let end = "\n\n"@ + text;
    reveal_strlit("\n");
    reveal_strlit("\n\n");
    assert(whole.drop_last() =~= kept);
    assert(whole.last() == '\n');
    assert(whole[0] == pre[0]);
    assert(kept.last() == text.last());
    assert(trim_start(whole) == whole);
    assert(trim_end(kept) == kept);
    assert(trimmed(whole) == kept);
    assert(kept.subrange(kept.len() - end.len(), kept.len() as int) =~= end);
}

/// Every item of a joined list occurs in its text.
pub proof fn lemma_joined_keeps(parts: Seq<Seq<char>>, sep: Seq<char>, i: int)
    requires
        0 <= i < parts.len(),
    ensures
        occurs(parts[i], joined(parts, sep)),
    decreases parts.len(),
{
    if parts.len() == 1 {
        lemma_occurs_in_itself(parts[0]);
    } else {
        let before = joined(parts.drop_last(), sep);
        if i < parts.len() - 1 {
            lemma_joined_keeps(parts.drop_last(), sep, i);
            lemma_occurs_in_parts(parts[i], before, sep);
        } else {
            lemma_occurs_in_itself(parts[i]);
        }
        lemma_occurs_in_parts(parts[i], before + sep, parts.last());
    }
}

/// Picking out items keeps each of them, keeps no others, and keeps their order:
/// there are ascending positions from which the picked items come.
pub proof fn law_picked_in_order<A, B>(s: Seq<A>, f: spec_fn(A) -> Option<B>) -> (at: Seq<int>)
    ensures
        at.len() == s.filter_map(f).len(),
        forall|k: int|
            0 <= k < at.len() ==> 0 <= #[trigger] at[k] < s.len() && f(s[at[k]]) == Some(
                s.filter_map(f)[k],
            ),
        forall|j: int, k: int| 0 <= j < k < at.len() ==> #[trigger] at[j] < #[trigger] at[k],
        forall|i: int|
            0 <= i < s.len() && f(#[trigger] s[i]) is Some ==> s.filter_map(f).contains(
                f(s[i])->0,
            ),
    decreases s.len(),
{
    if s.len() == 0 {
        seq![]
    } else {
        let rest = s.drop_last();
        let before = law_picked_in_order(rest, f);
        let at = match f(s.last()) {
            Some(_) => before.push(s.len() - 1),
            None => before,
        };
        let picked = s.filter_map(f);
        assert forall|i: int|
            0 <= i < s.len() && f(#[trigger] s[i]) is Some implies picked.contains(f(s[i])->0) by {
            if i == s.len() - 1 {
                assert(picked[picked.len() - 1] == f(s[i])->0);
            } else {
                assert(rest[i] == s[i]);
                let k = choose|k: int|
                    0 <= k < rest.filter_map(f).len() && rest.filter_map(f)[k] == f(rest[i])->0;
                assert(picked[k] == f(s[i])->0);
            }
        }
        assert forall|k: int| 0 <= k < at.len() implies 0 <= #[trigger] at[k] < s.len() && f(
            s[at[k]],
        ) == Some(picked[k]) by {
            if k < before.len() {
                assert(rest[before[k]] == s[before[k]]);
            }
        }
        at
    }
}

} // verus!
