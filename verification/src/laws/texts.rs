//! Text: what is cut off at the ends, where lines and pieces end, how numbers are
//! written and read, and what an escape sequence is.

use crate::ansi::{is_parameter, parameters_end, without_ansi};
use crate::invocation::text_of;
use crate::pattern::{group_text, regex_captures, regex_matches, FoundText};
use crate::report::law_trimmed_is_trimmed;
use crate::text::{
    before_first, begins_with, decimal, digits_value, find_from, is_digit, is_space, lines_of,
    occurs, pieces_of, stands_at, trim_end, trim_start, trimmed, u32_or_zero, utf8_len, views,
};
use vstd::prelude::*;

verus! {

/// Trimming cuts whitespace off both ends, all of it and nothing else.
pub proof fn law_trimming(s: Seq<char>) -> (ends: (Seq<char>, Seq<char>))
    ensures
        s == ends.0 + trimmed(s) + ends.1,
        forall|k: int| 0 <= k < ends.0.len() ==> is_space(#[trigger] ends.0[k]),
        forall|k: int| 0 <= k < ends.1.len() ==> is_space(#[trigger] ends.1[k]),
        trimmed(s).len() > 0 ==> !is_space(trimmed(s)[0]) && !is_space(trimmed(s).last()),
{
    law_trimmed_is_trimmed(s);
    let a = lemma_start_cut(s);
    let b = lemma_end_cut(trim_start(s));
    assert(s =~= a + trimmed(s) + b);
    (a, b)
}

proof fn lemma_start_cut(s: Seq<char>) -> (cut: Seq<char>)
    ensures
        s == cut + trim_start(s),
        forall|k: int| 0 <= k < cut.len() ==> is_space(#[trigger] cut[k]),
    decreases s.len(),
{
    if s.len() > 0 && is_space(s[0]) {
        let rest = lemma_start_cut(s.skip(1));
        let cut = seq![s[0]] + rest;
        assert(s =~= seq![s[0]] + s.skip(1));
        assert(s =~= cut + trim_start(s));
        cut
    } else {
        let cut = Seq::<char>::empty();
        assert(s =~= cut + s);
        cut
    }
}

proof fn lemma_end_cut(s: Seq<char>) -> (cut: Seq<char>)
    ensures
        s == trim_end(s) + cut,
        forall|k: int| 0 <= k < cut.len() ==> is_space(#[trigger] cut[k]),
    decreases s.len(),
{
    if s.len() > 0 && is_space(s.last()) {
        let rest = lemma_end_cut(s.drop_last());
        let cut = rest.push(s.last());
        assert(s =~= s.drop_last().push(s.last()));
        assert(s =~= trim_end(s) + cut);
        cut
    } else {
        let cut = Seq::<char>::empty();
        assert(s =~= s + cut);
        cut
    }
}

/// Whitespace is the tab, the line ends, the space and no other visible or control
/// character of ASCII, and nothing beyond the ideographic space.
pub proof fn law_whitespace(c: char)
    ensures
        c <= '\u{7f}' ==> (is_space(c) <==> c == ' ' || c == '\t' || c == '\n' || c == '\r' || c
            == '\u{b}' || c == '\u{c}'),
        c > '\u{7f}' ==> (is_space(c) <==> c == '\u{85}' || c == '\u{a0}' || c == '\u{1680}' || (
        '\u{2000}' <= c && c <= '\u{200a}') || c == '\u{2028}' || c == '\u{2029}' || c
            == '\u{202f}' || c == '\u{205f}' || c == '\u{3000}'),
{
}

/// A line ends at a line feed, or at a carriage return and a line feed. What is
/// behind the last line end is a line where it is not empty.
pub proof fn law_lines(line: Seq<char>, rest: Seq<char>)
    requires
        !line.contains('\n'),
    ensures
        lines_of(Seq::<char>::empty()).len() == 0,
        line.len() > 0 ==> lines_of(line) == seq![line],
        line.len() == 0 || line.last() != '\r' ==> lines_of(line + seq!['\n'] + rest) == seq![line]
            + lines_of(rest),
        lines_of(line + seq!['\r', '\n'] + rest) == seq![line] + lines_of(rest),
{
    let plain = line + seq!['\n'] + rest;
    lemma_first_at(line, seq!['\n'] + rest, '\n');
    assert(plain =~= line + (seq!['\n'] + rest));
    assert(plain.take(line.len() as int) =~= line);
    assert(plain.skip(line.len() as int + 1) =~= rest);
    let long = line.push('\r');
    let other = line + seq!['\r', '\n'] + rest;
    assert(!long.contains('\n')) by {
        assert forall|k: int| 0 <= k < long.len() implies long[k] != '\n' by {
            if k < line.len() {
                assert(line.contains(line[k]));
            }
        }
    }
    lemma_first_at(long, seq!['\n'] + rest, '\n');
    assert(other =~= long + (seq!['\n'] + rest));
    assert(other.take(long.len() as int) =~= long);
    assert(long.drop_last() =~= line);
    assert(other.skip(long.len() as int + 1) =~= rest);
    lemma_nowhere(line, '\n', 0);
}

/// A piece ends at the separator, and what is behind the last separator is a piece.
pub proof fn law_pieces(piece: Seq<char>, c: char, rest: Seq<char>)
    requires
        !piece.contains(c),
    ensures
        pieces_of(piece, c) == seq![piece],
        pieces_of(piece + seq![c] + rest, c) == seq![piece] + pieces_of(rest, c),
        before_first(piece, c) == piece,
        before_first(piece + seq![c] + rest, c) == piece,
{
    let s = piece + seq![c] + rest;
    lemma_first_at(piece, seq![c] + rest, c);
    lemma_nowhere(piece, c, 0);
    assert(s =~= piece + (seq![c] + rest));
    assert(s.take(piece.len() as int) =~= piece);
    assert(piece.take(piece.len() as int) =~= piece);
    assert(s.skip(piece.len() as int + 1) =~= rest);
}

proof fn lemma_first_at(head: Seq<char>, tail: Seq<char>, c: char)
    requires
        !head.contains(c),
        tail.len() > 0,
        tail[0] == c,
    ensures
        find_from(head + tail, c, 0) == head.len(),
{
    lemma_skips_to(head, tail, c, 0);
}

proof fn lemma_skips_to(head: Seq<char>, tail: Seq<char>, c: char, from: int)
    requires
        !head.contains(c),
        tail.len() > 0,
        tail[0] == c,
        0 <= from <= head.len(),
    ensures
        find_from(head + tail, c, from) == head.len(),
    decreases head.len() - from,
{
    if from < head.len() {
        assert(head.contains(head[from]));
        lemma_skips_to(head, tail, c, from + 1);
    }
}

proof fn lemma_nowhere(s: Seq<char>, c: char, from: int)
    requires
        !s.contains(c),
        0 <= from <= s.len(),
    ensures
        find_from(s, c, from) == s.len(),
    decreases s.len() - from,
{
    if from < s.len() {
        assert(s.contains(s[from]));
        lemma_nowhere(s, c, from + 1);
    }
}

/// A number is written with its digits, the last for the units, without a zero in
/// front.
pub proof fn law_decimal(n: nat)
    ensures
        n < 10 ==> decimal(n).len() == 1 && decimal(n)[0] as nat == '0' as nat + n,
        n >= 10 ==> decimal(n).drop_last() == decimal(n / 10) && decimal(n).last() as nat
            == '0' as nat + n % 10,
        decimal(n)[0] == '0' <==> n == 0,
    decreases n,
{
    if n >= 10 {
        law_decimal(n / 10);
        assert(decimal(n).drop_last() =~= decimal(n / 10));
    }
}

/// Reading a number that was written gives the number back, up to what 32 bits can
/// hold. What is no number reads as zero.
pub proof fn law_number_read_back(n: nat)
    ensures
        n <= u32::MAX ==> u32_or_zero(decimal(n)) == n,
        n <= u32::MAX ==> u32_or_zero(seq!['+'] + decimal(n)) == n,
        n > u32::MAX ==> u32_or_zero(decimal(n)) == 0,
{
    lemma_digits_read_back(n);
    law_decimal(n);
    let signed = seq!['+'] + decimal(n);
    assert(signed.skip(1) =~= decimal(n));
    assert(decimal(n)[0] != '+') by {
        assert(is_digit(decimal(n)[0]));
    }
}

proof fn lemma_digits_read_back(n: nat)
    ensures
        digits_value(decimal(n)) == n,
        decimal(n).len() > 0,
        forall|k: int| 0 <= k < decimal(n).len() ==> is_digit(#[trigger] decimal(n)[k]),
    decreases n,
{
    if n >= 10 {
        lemma_digits_read_back(n / 10);
        assert(decimal(n).drop_last() =~= decimal(n / 10));
    } else {
        let s = decimal(n);
        assert(s.drop_last() =~= Seq::<char>::empty());
        assert(digits_value(s.drop_last()) == 0);
    }
}

/// A text with a character that is no digit, beyond a sign in front, reads as zero.
pub proof fn law_no_number_is_zero(s: Seq<char>, k: int)
    requires
        0 <= k < s.len(),
        !('0' <= s[k] && s[k] <= '9'),
        k > 0 || s[0] != '+' || s.len() == 1,
    ensures
        u32_or_zero(s) == 0,
        u32_or_zero(Seq::<char>::empty()) == 0,
{
    if s[0] == '+' && s.len() > 1 {
        assert(!is_digit(s.skip(1)[k - 1]));
    } else if s[0] != '+' {
        assert(!is_digit(s[k]));
    }
}

/// A text takes as many bytes as its characters take, between one and four each.
pub proof fn law_bytes(s: Seq<char>, c: char)
    ensures
        utf8_len(Seq::<char>::empty()) == 0,
        c <= '\u{7f}' ==> utf8_len(s.push(c)) == utf8_len(s) + 1,
        '\u{80}' <= c && c <= '\u{7ff}' ==> utf8_len(s.push(c)) == utf8_len(s) + 2,
        '\u{800}' <= c && c <= '\u{ffff}' ==> utf8_len(s.push(c)) == utf8_len(s) + 3,
        '\u{10000}' <= c ==> utf8_len(s.push(c)) == utf8_len(s) + 4,
{
    assert(s.push(c).drop_last() =~= s);
}

/// An escape sequence goes, wherever it stands: the escape character, a bracket, any
/// digits and semicolons, and a letter. Every other character stays, an escape
/// character too where no sequence begins.
pub proof fn law_escapes(params: Seq<char>, c: char, d: char, rest: Seq<char>)
    requires
        forall|k: int|
            0 <= k < params.len() ==> ('0' <= #[trigger] params[k] && params[k] <= '9')
                || params[k] == ';',
        !('0' <= c && c <= '9') && c != ';',
    ensures
        without_ansi(Seq::<char>::empty()).len() == 0,
        ('a' <= c && c <= 'z') || ('A' <= c && c <= 'Z') ==> without_ansi(
            seq!['\u{1b}', '['] + params + seq![c] + rest,
        ) == without_ansi(rest),
        !(('a' <= c && c <= 'z') || ('A' <= c && c <= 'Z')) ==> without_ansi(
            seq!['\u{1b}', '['] + params + seq![c] + rest,
        ) == seq!['\u{1b}'] + without_ansi(seq!['['] + params + seq![c] + rest),
        without_ansi(seq!['\u{1b}', '['] + params) == seq!['\u{1b}'] + without_ansi(
            seq!['['] + params,
        ),
        d != '\u{1b}' ==> without_ansi(seq![d] + rest) == seq![d] + without_ansi(rest),
        d != '[' ==> without_ansi(seq!['\u{1b}', d] + rest) == seq!['\u{1b}'] + without_ansi(
            seq![d] + rest,
        ),
        without_ansi(seq!['\u{1b}']) == seq!['\u{1b}'],
{
    let s = seq!['\u{1b}', '['] + params + seq![c] + rest;
    lemma_parameters_pass(params, seq![c] + rest, 0);
    assert(s =~= seq!['\u{1b}', '['] + params + (seq![c] + rest));
    assert(s.skip(params.len() as int + 3) =~= rest);
    assert(s.skip(1) =~= seq!['['] + params + seq![c] + rest);
    let open = seq!['\u{1b}', '['] + params;
    lemma_parameters_pass(params, seq![], 0);
    assert(open =~= open + Seq::<char>::empty());
    assert(open.skip(1) =~= seq!['['] + params);
    assert((seq![d] + rest).skip(1) =~= rest);
    let other = seq!['\u{1b}', d] + rest;
    assert(other.skip(1) =~= seq![d] + rest);
    let one = seq!['\u{1b}'];
    assert(one.skip(1) =~= Seq::<char>::empty());
    assert(without_ansi(one) == seq![one[0]] + without_ansi(one.skip(1)));
    assert(without_ansi(one.skip(1)).len() == 0);
    assert(without_ansi(one) =~= one);
}

proof fn lemma_parameters_pass(params: Seq<char>, tail: Seq<char>, from: int)
    requires
        forall|k: int| 0 <= k < params.len() ==> is_parameter(#[trigger] params[k]),
        tail.len() > 0 ==> !is_parameter(tail[0]),
        0 <= from <= params.len(),
    ensures
        parameters_end(seq!['\u{1b}', '['] + params + tail, from + 2) == params.len() + 2,
    decreases params.len() - from,
{
    if from < params.len() {
        assert(is_parameter(params[from]));
        lemma_parameters_pass(params, tail, from + 1);
    }
}

/// A text begins with another, or holds it, exactly where it is that text with some
/// text behind it, or around it.
pub proof fn law_begins_and_occurs(a: Seq<char>, needle: Seq<char>, b: Seq<char>, hay: Seq<char>)
    ensures
        begins_with(needle + b, needle),
        begins_with(hay, needle) ==> hay == needle + hay.skip(needle.len() as int),
        occurs(needle, a + needle + b),
        occurs(needle, hay) ==> exists|front: Seq<char>, back: Seq<char>|
            hay == #[trigger] (front + needle + back),
{
    assert((needle + b).subrange(0, needle.len() as int) =~= needle);
    let around = a + needle + b;
    assert(around.subrange(a.len() as int, a.len() as int + needle.len()) =~= needle);
    assert(stands_at(around, a.len() as int, needle));
    if begins_with(hay, needle) {
        assert(hay =~= hay.subrange(0, needle.len() as int) + hay.skip(needle.len() as int));
    }
    if occurs(needle, hay) {
        let k = choose|k: int| stands_at(hay, k, needle);
        let front = hay.take(k);
        let back = hay.skip(k + needle.len());
        assert(hay =~= front + hay.subrange(k, k + needle.len()) + back);
        assert(hay == front + needle + back);
    }
}

/// Digits are read from the left, ten for one. A number that 32 bits cannot hold
/// reads as zero.
pub proof fn law_digits_read(s: Seq<char>, c: char)
    requires
        forall|k: int| 0 <= k < s.len() ==> '0' <= #[trigger] s[k] && s[k] <= '9',
        '0' <= c && c <= '9',
    ensures
        digits_value(Seq::<char>::empty()) == 0,
        digits_value(s.push(c)) == 10 * digits_value(s) + (c as nat - '0' as nat),
        u32_or_zero(s.push(c)) == (if digits_value(s.push(c)) <= u32::MAX {
            digits_value(s.push(c)) as u32
        } else {
            0u32
        }),
        u32_or_zero(seq!['+'] + s.push(c)) == u32_or_zero(s.push(c)),
{
    let t = s.push(c);
    assert((seq!['+'] + t).skip(1) =~= t);
    assert(t.drop_last() =~= s);
    assert forall|k: int| 0 <= k < t.len() implies is_digit(#[trigger] t[k]) by {
        if k < s.len() {
            assert(t[k] == s[k]);
        }
    }
    assert(is_digit(t[0]));
}

/// The texts of strings are theirs, one by one and in order.
pub proof fn law_texts_of_strings(strings: Seq<String>, optional: Option<String>)
    ensures
        views(strings).len() == strings.len(),
        forall|k: int|
            0 <= k < strings.len() ==> #[trigger] views(strings)[k] == strings[k]@,
        optional is None ==> text_of(optional) is None,
        optional is Some ==> text_of(optional) == Some(optional->0@),
{
}

/// A group of a match is its text. One that took no part in the match, and any group
/// of no match, is empty.
pub proof fn law_groups(found: FoundText, k: int, pattern: Seq<char>, text: Seq<char>)
    ensures
        found is None ==> group_text(found, k).len() == 0,
        found is Some && 0 <= k < found->0.len() && found->0[k] is Some ==> group_text(found, k)
            == found->0[k]->0,
        found is Some && 0 <= k < found->0.len() && found->0[k] is None ==> group_text(
            found,
            k,
        ).len() == 0,
        found is Some && !(0 <= k < found->0.len()) ==> group_text(found, k).len() == 0,
        regex_matches(pattern, text) <==> regex_captures(pattern, text) is Some,
{
}

} // verus!
