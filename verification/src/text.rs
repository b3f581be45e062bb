//! Text primitives: whitespace, lines, searching, joining and decimal numbers.
//!
//! Text is modelled as the sequence of its characters (`Seq<char>`), which is
//! what `@` gives for `str` and `String`. Each function here is exact: its
//! `ensures` names the one text, list or number that comes back.

use vstd::prelude::*;

verus! {

/// `String::push` of std: the character is appended to the end of the string.
/// Claimed: the characters afterwards are those from before, then `c`.
pub assume_specification[ String::push ](s: &mut String, c: char)
    ensures
        final(s)@ == old(s)@.push(c),
;

/// The views of the items of a sequence, item by item.
pub open spec fn views<A: View>(s: Seq<A>) -> Seq<A::V> {
    s.map_values(|a: A| a@)
}

// ─── Whitespace ─────────────────────────────────────────────────────────────

/// The characters with the Unicode property `White_Space`.
pub open spec fn is_space(c: char) -> bool {
    ||| '\u{9}' <= c <= '\u{d}'
    ||| c == '\u{20}'
    ||| c == '\u{85}'
    ||| c == '\u{a0}'
    ||| c == '\u{1680}'
    ||| '\u{2000}' <= c <= '\u{200a}'
    ||| c == '\u{2028}'
    ||| c == '\u{2029}'
    ||| c == '\u{202f}'
    ||| c == '\u{205f}'
    ||| c == '\u{3000}'
}

/// `s` without its leading whitespace.
pub open spec fn trim_start(s: Seq<char>) -> Seq<char>
    decreases s.len(),
{
    if s.len() > 0 && is_space(s[0]) {
        trim_start(s.skip(1))
    } else {
        s
    }
}

/// `s` without its trailing whitespace.
pub open spec fn trim_end(s: Seq<char>) -> Seq<char>
    decreases s.len(),
{
    if s.len() > 0 && is_space(s.last()) {
        trim_end(s.drop_last())
    } else {
        s
    }
}

/// `s` without its leading and its trailing whitespace.
pub open spec fn trimmed(s: Seq<char>) -> Seq<char> {
    trim_end(trim_start(s))
}

/// Whether `c` is whitespace.
pub fn char_is_space(c: char) -> (r: bool)
    ensures
        r == is_space(c),
{
    ('\u{9}' <= c && c <= '\u{d}') || c == '\u{20}' || c == '\u{85}' || c == '\u{a0}' || c
        == '\u{1680}' || ('\u{2000}' <= c && c <= '\u{200a}') || c == '\u{2028}' || c == '\u{2029}'
        || c == '\u{202f}' || c == '\u{205f}' || c == '\u{3000}'
}

/// The characters of `s`, one after the other.
pub fn chars_of(s: &str) -> (r: Vec<char>)
    ensures
        r@ == s@,
{
    let mut v: Vec<char> = Vec::new();
    for c in it: s.chars()
        invariant
            it.seq() == s@,
            v@ == it.seq().take(it.index() as int),
    {
        v.push(c);
    }
    v
}

/// The text made of the characters from `from` up to `to`.
pub fn slice_text(cs: &Vec<char>, from: usize, to: usize) -> (r: String)
    requires
        from <= to <= cs@.len(),
    ensures
        r@ == cs@.subrange(from as int, to as int),
{
    let mut out = String::new();
    for i in from..to
        invariant
            from <= to <= cs@.len(),
            out@ == cs@.subrange(from as int, i as int),
    {
        out.push(cs[i]);
        assert(out@ =~= cs@.subrange(from as int, i + 1));
    }
    out
}

/// Removes leading and trailing whitespace.
pub fn trim(s: &str) -> (r: String)
    ensures
        r@ == trimmed(s@),
{
    let cs = chars_of(s);
    let mut from: usize = 0;
    assert(cs@.skip(0) =~= cs@);
    while from < cs.len() && char_is_space(cs[from])
        invariant
            from <= cs@.len(),
            trim_start(cs@) == trim_start(cs@.skip(from as int)),
        decreases cs@.len() - from,
    {
        assert(cs@.skip(from as int).skip(1) =~= cs@.skip(from + 1));
        from += 1;
    }
    let ghost body = cs@.skip(from as int);
    assert(trim_start(cs@) == body);
    let mut to: usize = cs.len();
    assert(cs@.subrange(from as int, to as int) =~= body);
    while to > from && char_is_space(cs[to - 1])
        invariant
            from <= to <= cs@.len(),
            trim_end(body) == trim_end(cs@.subrange(from as int, to as int)),
        decreases to,
    {
        assert(cs@.subrange(from as int, to as int).drop_last() =~= cs@.subrange(
            from as int,
            to - 1,
        ));
        to -= 1;
    }
    slice_text(&cs, from, to)
}

// ─── Comparing and searching ────────────────────────────────────────────────

/// Whether `needle` stands in `hay` at position `k`.
pub open spec fn stands_at(hay: Seq<char>, k: int, needle: Seq<char>) -> bool {
    &&& 0 <= k
    &&& k + needle.len() <= hay.len()
    &&& hay.subrange(k, k + needle.len()) == needle
}

/// Whether `needle` occurs somewhere in `hay`.
pub open spec fn occurs(needle: Seq<char>, hay: Seq<char>) -> bool {
    exists|k: int| stands_at(hay, k, needle)
}

/// Whether `hay` begins with `prefix`.
pub open spec fn begins_with(hay: Seq<char>, prefix: Seq<char>) -> bool {
    stands_at(hay, 0, prefix)
}

fn matches_at(hay: &Vec<char>, k: usize, needle: &Vec<char>) -> (r: bool)
    requires
        k <= hay@.len(),
    ensures
        r == stands_at(hay@, k as int, needle@),
{
    let len: usize = hay.len();
    if needle.len() > len - k {
        return false;
    }
    for i in 0..needle.len()
        invariant
            len == hay@.len(),
            k + needle@.len() <= len,
            forall|j: int| 0 <= j < i ==> hay@[k + j] == needle@[j],
    {
        if hay[k + i] != needle[i] {
            assert(hay@.subrange(k as int, k + needle@.len())[i as int] != needle@[i as int]);
            return false;
        }
    }
    assert(hay@.subrange(k as int, k + needle@.len()) =~= needle@);
    true
}

/// Whether the two texts hold the same characters.
pub fn same_text(a: &str, b: &str) -> (r: bool)
    ensures
        r == (a@ == b@),
{
    let x = chars_of(a);
    let y = chars_of(b);
    let r = x.len() == y.len() && matches_at(&x, 0, &y);
    assert(x@.subrange(0, x@.len() as int) =~= x@);
    r
}

/// Whether `hay` begins with `prefix`.
pub fn starts_with(hay: &str, prefix: &str) -> (r: bool)
    ensures
        r == begins_with(hay@, prefix@),
{
    matches_at(&chars_of(hay), 0, &chars_of(prefix))
}

/// Whether `needle` occurs in `hay`.
pub fn contains(hay: &str, needle: &str) -> (r: bool)
    ensures
        r == occurs(needle@, hay@),
{
    let h = chars_of(hay);
    let n = chars_of(needle);
    let mut k: usize = 0;
    while k < h.len()
        invariant
            k <= h@.len(),
            h@ == hay@,
            n@ == needle@,
            forall|j: int| 0 <= j < k ==> !stands_at(hay@, j, needle@),
        decreases h@.len() - k,
    {
        if matches_at(&h, k, &n) {
            return true;
        }
        k += 1;
    }
    let r = matches_at(&h, k, &n);
    assert(forall|j: int| j > k ==> !stands_at(hay@, j, needle@));
    r
}

/// The position of the first `c` in `s` at or behind `from`, or the length of
/// `s` where there is none.
pub open spec fn find_from(s: Seq<char>, c: char, from: int) -> int
    decreases s.len() - from,
{
    if from >= s.len() {
        s.len() as int
    } else if s[from] == c {
        from
    } else {
        find_from(s, c, from + 1)
    }
}

/// The part of `s` before the first `c`: all of `s` where there is no `c`.
pub open spec fn before_first(s: Seq<char>, c: char) -> Seq<char> {
    s.take(find_from(s, c, 0))
}

/// `find_from` stays between its starting point and the end of the text.
pub proof fn lemma_find_from_bounds(s: Seq<char>, c: char, from: int)
    requires
        0 <= from <= s.len(),
    ensures
        from <= find_from(s, c, from) <= s.len(),
    decreases s.len() - from,
{
    if from < s.len() && s[from] != c {
        lemma_find_from_bounds(s, c, from + 1);
    }
}

/// `find_from` is the place of a `c`, unless it is the end of the text, and
/// no `c` stands before it.
pub proof fn lemma_find_from_first(s: Seq<char>, c: char, from: int)
    requires
        0 <= from <= s.len(),
    ensures
        find_from(s, c, from) < s.len() ==> s[find_from(s, c, from)] == c,
        forall|j: int| from <= j < find_from(s, c, from) ==> s[j] != c,
    decreases s.len() - from,
{
    if from < s.len() && s[from] != c {
        lemma_find_from_first(s, c, from + 1);
    }
}

proof fn lemma_find_from_step(s: Seq<char>, c: char, from: int, to: int)
    requires
        0 <= from <= to <= s.len(),
        forall|j: int| from <= j < to ==> s[j] != c,
    ensures
        find_from(s, c, from) == find_from(s, c, to),
    decreases to - from,
{
    if from < to {
        lemma_find_from_step(s, c, from + 1, to);
    }
}

/// The part of `s` before the first `c`.
pub fn text_before(s: &str, c: char) -> (r: String)
    ensures
        r@ == before_first(s@, c),
{
    let cs = chars_of(s);
    let mut i: usize = 0;
    while i < cs.len() && cs[i] != c
        invariant
            i <= cs@.len(),
            find_from(cs@, c, 0) == find_from(cs@, c, i as int),
        decreases cs@.len() - i,
    {
        i += 1;
    }
    slice_text(&cs, 0, i)
}

// ─── Lines and pieces ───────────────────────────────────────────────────────

/// `s` without one carriage return at its end.
pub open spec fn without_return(s: Seq<char>) -> Seq<char> {
    if s.len() > 0 && s.last() == '\r' {
        s.drop_last()
    } else {
        s
    }
}

/// The lines of `s`: what stands before each line feed (less a carriage return
/// right before it), and what stands behind the last one, unless that is empty.
pub open spec fn lines_of(s: Seq<char>) -> Seq<Seq<char>>
    decreases s.len(),
    via lines_of_shrinks
{
    if s.len() == 0 {
        seq![]
    } else {
        let end = find_from(s, '\n', 0);
        if end >= s.len() {
            seq![s]
        } else {
            seq![without_return(s.take(end))] + lines_of(s.skip(end + 1))
        }
    }
}

#[via_fn]
proof fn lines_of_shrinks(s: Seq<char>) {
    lemma_find_from_bounds(s, '\n', 0);
}

proof fn lemma_find_from_skip(s: Seq<char>, c: char, start: int, from: int)
    requires
        0 <= start <= from <= s.len(),
    ensures
        find_from(s.skip(start), c, from - start) == find_from(s, c, from) - start,
    decreases s.len() - from,
{
    if from < s.len() && s[from] != c {
        lemma_find_from_skip(s, c, start, from + 1);
    }
}

/// Splits text into its lines.
pub fn lines(text: &str) -> (r: Vec<String>)
    ensures
        views(r@) == lines_of(text@),
{
    let cs = chars_of(text);
    let mut out: Vec<String> = Vec::new();
    let mut start: usize = 0;
    let mut i: usize = 0;
    assert(cs@.skip(0) =~= cs@);
    assert(views(out@) + lines_of(cs@.skip(0)) =~= lines_of(cs@));
    while i < cs.len()
        invariant
            start <= i <= cs@.len(),
            forall|j: int| start <= j < i ==> cs@[j] != '\n',
            views(out@) + lines_of(cs@.skip(start as int)) == lines_of(cs@),
        decreases cs@.len() - i,
    {
        if cs[i] == '\n' {
            let end: usize = if i > start && cs[i - 1] == '\r' {
                i - 1
            } else {
                i
            };
            let line = slice_text(&cs, start, end);
            let ghost rest = cs@.skip(start as int);
            let ghost before = views(out@);
            proof {
                lemma_find_from_step(cs@, '\n', start as int, i as int);
                lemma_find_from_skip(cs@, '\n', start as int, start as int);
                assert(find_from(rest, '\n', 0) == i - start);
                assert(rest.take(i - start) =~= cs@.subrange(start as int, i as int));
                assert(without_return(rest.take(i - start)) =~= line@);
                assert(rest.skip(i - start + 1) =~= cs@.skip(i + 1));
            }
            out.push(line);
            assert(views(out@) =~= before.push(line@));
            assert(views(out@) + lines_of(cs@.skip(i + 1)) =~= before + (seq![line@] + lines_of(
                cs@.skip(i + 1),
            )));
            start = i + 1;
        }
        i += 1;
    }
    if start < cs.len() {
        let line = slice_text(&cs, start, cs.len());
        let ghost rest = cs@.skip(start as int);
        let ghost before = views(out@);
        proof {
            lemma_find_from_step(cs@, '\n', start as int, i as int);
            lemma_find_from_skip(cs@, '\n', start as int, start as int);
            assert(line@ =~= rest);
        }
        out.push(line);
        assert(views(out@) =~= before + seq![rest]);
    } else {
        assert(views(out@) =~= views(out@) + lines_of(cs@.skip(start as int)));
    }
    out
}

/// The pieces of `s` between the occurrences of `c`.
pub open spec fn pieces_of(s: Seq<char>, c: char) -> Seq<Seq<char>>
    decreases s.len(),
    via pieces_of_shrinks
{
    let end = find_from(s, c, 0);
    if end >= s.len() {
        seq![s]
    } else {
        seq![s.take(end)] + pieces_of(s.skip(end + 1), c)
    }
}

#[via_fn]
proof fn pieces_of_shrinks(s: Seq<char>, c: char) {
    lemma_find_from_bounds(s, c, 0);
}

/// Splits text at each occurrence of `c`.
pub fn split(text: &str, c: char) -> (r: Vec<String>)
    ensures
        views(r@) == pieces_of(text@, c),
{
    let cs = chars_of(text);
    let mut out: Vec<String> = Vec::new();
    let mut start: usize = 0;
    let mut i: usize = 0;
    assert(cs@.skip(0) =~= cs@);
    assert(views(out@) + pieces_of(cs@.skip(0), c) =~= pieces_of(cs@, c));
    while i < cs.len()
        invariant
            start <= i <= cs@.len(),
            forall|j: int| start <= j < i ==> cs@[j] != c,
            views(out@) + pieces_of(cs@.skip(start as int), c) == pieces_of(cs@, c),
        decreases cs@.len() - i,
    {
        if cs[i] == c {
            let piece = slice_text(&cs, start, i);
            let ghost rest = cs@.skip(start as int);
            let ghost before = views(out@);
            proof {
                lemma_find_from_step(cs@, c, start as int, i as int);
                lemma_find_from_skip(cs@, c, start as int, start as int);
                assert(rest.take(i - start) =~= piece@);
                assert(rest.skip(i - start + 1) =~= cs@.skip(i + 1));
            }
            out.push(piece);
            assert(views(out@) =~= before.push(piece@));
            assert(views(out@) + pieces_of(cs@.skip(i + 1), c) =~= before + (seq![piece@]
                + pieces_of(cs@.skip(i + 1), c)));
            start = i + 1;
        }
        i += 1;
    }
    let last = slice_text(&cs, start, cs.len());
    let ghost rest = cs@.skip(start as int);
    let ghost before = views(out@);
    proof {
        lemma_find_from_step(cs@, c, start as int, i as int);
        lemma_find_from_skip(cs@, c, start as int, start as int);
        assert(last@ =~= rest);
    }
    out.push(last);
    assert(views(out@) =~= before + seq![rest]);
    out
}

/// The items of `parts` one after the other, with `sep` between neighbours.
pub open spec fn joined(parts: Seq<Seq<char>>, sep: Seq<char>) -> Seq<char>
    decreases parts.len(),
{
    if parts.len() == 0 {
        seq![]
    } else if parts.len() == 1 {
        parts[0]
    } else {
        joined(parts.drop_last(), sep) + sep + parts.last()
    }
}

/// Joins the items of `parts` with `sep` between neighbours.
pub fn join(parts: &Vec<String>, sep: &str) -> (r: String)
    ensures
        r@ == joined(views(parts@), sep@),
{
    let mut out = String::new();
    let ghost all = views(parts@);
    assert(out@ =~= joined(all.take(0), sep@));
    for i in 0..parts.len()
        invariant
            all == views(parts@),
            out@ == joined(all.take(i as int), sep@),
    {
        assert(all.take(i + 1).drop_last() =~= all.take(i as int));
        if i > 0 {
            out.append(sep);
        } else {
            assert(out@ + parts@[0]@ =~= parts@[0]@);
        }
        out.append(parts[i].as_str());
    }
    assert(all.take(all.len() as int) =~= all);
    out
}

// ─── Decimal numbers ────────────────────────────────────────────────────────

/// The character of the decimal digit `d`.
pub open spec fn digit(d: nat) -> char {
    (48 + d) as char
}

/// `n` written in decimal, without leading zeros.
pub open spec fn decimal(n: nat) -> Seq<char>
    decreases n,
{
    if n < 10 {
        seq![digit(n)]
    } else {
        decimal(n / 10).push(digit(n % 10))
    }
}

/// Writes `n` in decimal.
pub fn decimal_wide(n: u128) -> (r: String)
    ensures
        r@ == decimal(n as nat),
    decreases n,
{
    let d: u8 = (n % 10) as u8;
    let c: char = (48 + d) as char;
    if n < 10 {
        let mut out = String::new();
        out.push(c);
        assert(out@ =~= seq![digit(n as nat)]);
        out
    } else {
        let mut out = decimal_wide(n / 10);
        out.push(c);
        out
    }
}

/// Writes `n` in decimal.
pub fn decimal_text(n: usize) -> (r: String)
    ensures
        r@ == decimal(n as nat),
{
    decimal_wide(n as u128)
}

/// Whether `c` is one of the ten ASCII digits.
pub open spec fn is_digit(c: char) -> bool {
    '0' <= c <= '9'
}

/// The number that a sequence of ASCII digits denotes.
pub open spec fn digits_value(s: Seq<char>) -> nat
    decreases s.len(),
{
    if s.len() == 0 {
        0
    } else {
        (digits_value(s.drop_last()) * 10 + (s.last() as nat - 48)) as nat
    }
}

/// Whether every character of `s` is an ASCII digit.
pub open spec fn all_digits(s: Seq<char>) -> bool {
    forall|i: int| 0 <= i < s.len() ==> is_digit(#[trigger] s[i])
}

/// `s` without one `+` at its start.
pub open spec fn without_plus(s: Seq<char>) -> Seq<char> {
    if s.len() > 0 && s[0] == '+' {
        s.skip(1)
    } else {
        s
    }
}

/// What reading `s` as a `u32` gives, with 0 for text that is no such number:
/// an optional `+`, then at least one ASCII digit and nothing else.
pub open spec fn u32_or_zero(s: Seq<char>) -> u32 {
    let body = without_plus(s);
    if body.len() > 0 && all_digits(body) && digits_value(body) <= u32::MAX {
        digits_value(body) as u32
    } else {
        0
    }
}

proof fn lemma_digits_value_grows(s: Seq<char>, k: int)
    requires
        0 <= k <= s.len(),
        all_digits(s),
    ensures
        digits_value(s.take(k)) <= digits_value(s),
    decreases s.len(),
{
    if k < s.len() {
        assert(s.drop_last().take(k) =~= s.take(k));
        lemma_digits_value_grows(s.drop_last(), k);
        assert(is_digit(s[s.len() - 1]));
    } else {
        assert(s.take(k) =~= s);
    }
}

/// Reads a `u32`, with 0 for text that is no `u32`.
pub fn parse_u32_or_zero(s: &str) -> (r: u32)
    ensures
        r == u32_or_zero(s@),
{
    let cs = chars_of(s);
    let start: usize = if cs.len() > 0 && cs[0] == '+' {
        1
    } else {
        0
    };
    let ghost body = cs@.skip(start as int);
    assert(start == 0 ==> body =~= cs@);
    if cs.len() == start {
        return 0;
    }
    let mut value: u64 = 0;
    let mut i: usize = start;
    assert(body.take(0) =~= seq![]);
    while i < cs.len()
        invariant
            start <= i <= cs@.len(),
            body == cs@.skip(start as int),
            body == without_plus(s@),
            body.len() > 0,
            value <= u32::MAX,
            value == digits_value(body.take(i - start)),
            forall|j: int| 0 <= j < i - start ==> is_digit(#[trigger] body[j]),
        decreases cs@.len() - i,
    {
        let c = cs[i];
        assert(c == body[i - start]);
        if !('0' <= c && c <= '9') {
            assert(!is_digit(body[i - start]));
            return 0;
        }
        let d: u64 = (c as u32 - 48) as u64;
        assert(body.take(i - start + 1).drop_last() =~= body.take(i - start));
        value = value * 10 + d;
        i += 1;
        if value > 0xffff_ffff {
            proof {
                if all_digits(body) {
                    lemma_digits_value_grows(body, i - start);
                }
            }
            return 0;
        }
    }
    assert(body.take(body.len() as int) =~= body);
    value as u32
}

// ─── Bytes ──────────────────────────────────────────────────────────────────

/// The number of bytes of `c` in UTF-8.
pub open spec fn utf8_width(c: char) -> nat {
    if c <= '\u{7f}' {
        1
    } else if c <= '\u{7ff}' {
        2
    } else if c <= '\u{ffff}' {
        3
    } else {
        4
    }
}

/// The number of bytes of `s` in UTF-8.
pub open spec fn utf8_len(s: Seq<char>) -> nat
    decreases s.len(),
{
    if s.len() == 0 {
        0
    } else {
        utf8_len(s.drop_last()) + utf8_width(s.last())
    }
}

proof fn lemma_utf8_len_grows(s: Seq<char>, k: int)
    requires
        0 <= k <= s.len(),
    ensures
        utf8_len(s.take(k)) <= utf8_len(s),
    decreases s.len(),
{
    if k < s.len() {
        assert(s.drop_last().take(k) =~= s.take(k));
        lemma_utf8_len_grows(s.drop_last(), k);
    } else {
        assert(s.take(k) =~= s);
    }
}

/// Whether `s` has at least `n` bytes in UTF-8.
pub fn has_bytes(s: &str, n: usize) -> (r: bool)
    requires
        n <= usize::MAX - 4,
    ensures
        r == (utf8_len(s@) >= n),
{
    let cs = chars_of(s);
    let mut total: usize = 0;
    let mut i: usize = 0;
    assert(cs@.take(0) =~= seq![]);
    while i < cs.len() && total < n
        invariant
            n <= usize::MAX - 4,
            i <= cs@.len(),
            total == utf8_len(cs@.take(i as int)),
        decreases cs@.len() - i,
    {
        let c = cs[i];
        assert(cs@.take(i + 1).drop_last() =~= cs@.take(i as int));
        let width: usize = if c <= '\u{7f}' {
            1
        } else if c <= '\u{7ff}' {
            2
        } else if c <= '\u{ffff}' {
            3
        } else {
            4
        };
        total += width;
        i += 1;
    }
    proof {
        lemma_utf8_len_grows(cs@, i as int);
        assert(i == cs@.len() ==> cs@.take(i as int) =~= cs@);
    }
    total >= n
}

// ─── Lines that are joined again ────────────────────────────────────────────

/// Whitespace at the end makes no difference to trimming.
pub proof fn lemma_trim_drops_space(s: Seq<char>)
    requires
        s.len() > 0,
        is_space(s.last()),
    ensures
        trimmed(s) == trimmed(s.drop_last()),
    decreases s.len(),
{
    let t = s.drop_last();
    if is_space(s[0]) {
        if s.len() > 1 {
            lemma_trim_drops_space(s.skip(1));
            assert(s.skip(1).drop_last() =~= t.skip(1));
            assert(s.skip(1).last() == s.last());
            assert(t[0] == s[0]);
        } else {
            assert(s.skip(1) =~= t);
        }
    } else {
        assert(s.len() > 1);
        assert(t[0] == s[0]);
    }
}

proof fn lemma_line_then_rest(a: Seq<char>, t: Seq<char>)
    requires
        !a.contains('\n'),
    ensures
        lines_of(a + "\n"@ + t) == seq![without_return(a)] + lines_of(t),
{
    let w = a + "\n"@ + t;
    reveal_strlit("\n");
    assert forall|j: int| 0 <= j < a.len() implies w[j] != '\n' by {
        assert(w[j] == a[j]);
        assert(a.contains(a[j]));
    }
    lemma_find_from_step(w, '\n', 0, a.len() as int);
    assert(w[a.len() as int] == '\n');
    assert(w.take(a.len() as int) =~= a);
    assert(w.skip(a.len() as int + 1) =~= t);
}

proof fn lemma_joined_from_front(parts: Seq<Seq<char>>, sep: Seq<char>)
    requires
        parts.len() >= 2,
    ensures
        joined(parts, sep) == parts[0] + sep + joined(parts.skip(1), sep),
    decreases parts.len(),
{
    let rest = parts.skip(1);
    let init = parts.drop_last();
    assert(joined(parts, sep) == joined(init, sep) + sep + parts.last());
    if parts.len() == 2 {
        assert(joined(init, sep) == parts[0]);
        assert(joined(rest, sep) == parts.last());
    } else {
        lemma_joined_from_front(init, sep);
        assert(init[0] == parts[0]);
        assert(init.skip(1) =~= rest.drop_last());
        assert(rest.last() == parts.last());
        let mid = joined(init.skip(1), sep);
        assert(joined(rest, sep) == mid + sep + parts.last());
        assert(parts[0] + sep + mid + sep + parts.last() =~= parts[0] + sep + (mid + sep
            + parts.last()));
    }
}

/// Lines that are joined with line feeds and read again are those lines, but for
/// whitespace at their ends, and for an empty last line.
pub proof fn lemma_lines_of_joined(ks: Seq<Seq<char>>)
    requires
        forall|k: int| 0 <= k < ks.len() ==> !(#[trigger] ks[k]).contains('\n'),
    ensures
        ({
            let ls = lines_of(joined(ks, "\n"@));
            &&& ls.len() <= ks.len() <= ls.len() + 1
            &&& forall|i: int| 0 <= i < ls.len() ==> trimmed(#[trigger] ls[i]) == trimmed(ks[i])
            &&& ls.len() < ks.len() ==> ks.last().len() == 0
        }),
    decreases ks.len(),
{
    let ls = lines_of(joined(ks, "\n"@));
    if ks.len() == 1 {
        let a = ks[0];
        assert forall|j: int| 0 <= j < a.len() implies a[j] != '\n' by {
            assert(a.contains(a[j]));
        }
        lemma_find_from_step(a, '\n', 0, a.len() as int);
    } else if ks.len() > 1 {
        let rest = ks.skip(1);
        assert forall|k: int| 0 <= k < rest.len() implies !(#[trigger] rest[k]).contains(
            '\n',
        ) by {
            assert(rest[k] == ks[k + 1]);
        }
        lemma_lines_of_joined(rest);
        lemma_joined_from_front(ks, "\n"@);
        lemma_line_then_rest(ks[0], joined(rest, "\n"@));
        let ms = lines_of(joined(rest, "\n"@));
        if ks[0].len() > 0 && ks[0].last() == '\r' {
            lemma_trim_drops_space(ks[0]);
        }
        assert forall|i: int| 0 <= i < ls.len() implies trimmed(#[trigger] ls[i]) == trimmed(
            ks[i],
        ) by {
            if i > 0 {
                assert(ls[i] == ms[i - 1]);
                assert(rest[i - 1] == ks[i]);
            }
        }
    }
}

/// The characters of a line stand in the text, and a line feed is none of them.
pub proof fn lemma_line_chars(s: Seq<char>, i: int, c: char)
    requires
        0 <= i < lines_of(s).len(),
        lines_of(s)[i].contains(c),
    ensures
        s.contains(c),
        c != '\n',
    decreases s.len(),
{
    let end = find_from(s, '\n', 0);
    lemma_find_from_bounds(s, '\n', 0);
    lemma_find_from_first(s, '\n', 0);
    let line = lines_of(s)[i];
    if end >= s.len() {
        let j = choose|j: int| 0 <= j < line.len() && line[j] == c;
        assert(s[j] == c);
    } else if i == 0 {
        let j = choose|j: int| 0 <= j < line.len() && line[j] == c;
        assert(line[j] == s[j]);
    } else {
        let rest = s.skip(end + 1);
        assert(lines_of(rest)[i - 1] == line);
        lemma_line_chars(rest, i - 1, c);
        let j = choose|j: int| 0 <= j < rest.len() && rest[j] == c;
        assert(s[j + end + 1] == c);
    }
}

/// A character that is in none of the parts and not in the separator is not in the
/// joined text.
pub proof fn lemma_joined_chars(parts: Seq<Seq<char>>, sep: Seq<char>, c: char)
    requires
        !sep.contains(c),
        forall|k: int| 0 <= k < parts.len() ==> !(#[trigger] parts[k]).contains(c),
    ensures
        !joined(parts, sep).contains(c),
    decreases parts.len(),
{
    if parts.len() == 1 {
        assert(!parts[0].contains(c));
    } else if parts.len() > 1 {
        let init = parts.drop_last();
        assert forall|k: int| 0 <= k < init.len() implies !(#[trigger] init[k]).contains(c) by {
            assert(init[k] == parts[k]);
        }
        lemma_joined_chars(init, sep, c);
        let a = joined(init, sep);
        let b = parts[parts.len() - 1];
        assert(!b.contains(c));
        let whole = joined(parts, sep);
        assert(whole == a + sep + b);
        assert forall|j: int| 0 <= j < whole.len() implies whole[j] != c by {
            if j < a.len() {
                assert(a.contains(a[j]));
            } else if j < a.len() + sep.len() {
                assert(sep.contains(sep[j - a.len()]));
            } else {
                assert(b.contains(b[j - a.len() - sep.len()]));
            }
        }
    }
}

} // verus!
