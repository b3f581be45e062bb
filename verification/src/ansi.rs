//! Removal of ANSI escape sequences (colours, styles, cursor movement).

use crate::text::chars_of;
use vstd::prelude::*;

verus! {

/// A character that may stand between the `[` and the closing letter of an escape
/// sequence.
pub open spec fn is_parameter(c: char) -> bool {
    '0' <= c <= '9' || c == ';'
}

/// An ASCII letter.
pub open spec fn is_letter(c: char) -> bool {
    'a' <= c <= 'z' || 'A' <= c <= 'Z'
}

/// The end of the run of parameter characters that begins at `from`.
pub open spec fn parameters_end(s: Seq<char>, from: int) -> int
    decreases s.len() - from,
{
    if 0 <= from < s.len() && is_parameter(s[from]) {
        parameters_end(s, from + 1)
    } else {
        from
    }
}

/// Whether `s` begins with an escape sequence: an escape character, `[`, any
/// number of digits and semicolons, and a letter.
pub open spec fn begins_escape(s: Seq<char>) -> bool {
    &&& s.len() > 2
    &&& s[0] == '\u{1b}'
    &&& s[1] == '['
    &&& parameters_end(s, 2) < s.len()
    &&& is_letter(s[parameters_end(s, 2)])
}

/// `s` with its escape sequences removed, from left to right.
pub open spec fn without_ansi(s: Seq<char>) -> Seq<char>
    decreases s.len(),
    via without_ansi_shrinks
{
    if s.len() == 0 {
        seq![]
    } else if begins_escape(s) {
        without_ansi(s.skip(parameters_end(s, 2) + 1))
    } else {
        seq![s[0]] + without_ansi(s.skip(1))
    }
}

#[via_fn]
proof fn without_ansi_shrinks(s: Seq<char>) {
    if s.len() > 2 {
        lemma_parameters_end_bounds(s, 2);
    }
}

proof fn lemma_parameters_end_bounds(s: Seq<char>, from: int)
    requires
        0 <= from <= s.len(),
    ensures
        from <= parameters_end(s, from) <= s.len(),
    decreases s.len() - from,
{
    if from < s.len() && is_parameter(s[from]) {
        lemma_parameters_end_bounds(s, from + 1);
    }
}

proof fn lemma_parameters_end_skip(s: Seq<char>, start: int, from: int)
    requires
        0 <= start <= from <= s.len(),
    ensures
        parameters_end(s.skip(start), from - start) == parameters_end(s, from) - start,
    decreases s.len() - from,
{
    if from < s.len() && is_parameter(s[from]) {
        lemma_parameters_end_skip(s, start, from + 1);
    }
}

/// Text without an escape character stays as it is.
pub proof fn law_plain_text_unchanged(s: Seq<char>)
    requires
        !s.contains('\u{1b}'),
    ensures
        without_ansi(s) == s,
    decreases s.len(),
{
    if s.len() > 0 {
        assert(s.contains(s[0]));
        assert forall|i: int| 0 <= i < s.skip(1).len() implies s.skip(1)[i] != '\u{1b}' by {
            assert(s.contains(s[i + 1]));
        }
        law_plain_text_unchanged(s.skip(1));
        assert(seq![s[0]] + s.skip(1) =~= s);
    } else {
        assert(without_ansi(s) =~= s);
    }
}

/// Removes ANSI escape sequences.
pub fn strip_ansi(text: &str) -> (r: String)
    ensures
        r@ == without_ansi(text@),
{
    let cs = chars_of(text);
    let mut out = String::new();
    let mut i: usize = 0;
    assert(cs@.skip(0) =~= cs@);
    assert(out@ + without_ansi(cs@) =~= without_ansi(cs@));
    while i < cs.len()
        invariant
            i <= cs@.len(),
            out@ + without_ansi(cs@.skip(i as int)) == without_ansi(cs@),
        decreases cs@.len() - i,
    {
        let ghost rest = cs@.skip(i as int);
        let len: usize = cs.len();
        let mut end: usize = i;
        let mut escape = false;
        if cs[i] == '\u{1b}' && len - i > 2 && cs[i + 1] == '[' {
            end = i + 2;
            while end < len && (('0' <= cs[end] && cs[end] <= '9') || cs[end] == ';')
                invariant
                    len == cs@.len(),
                    i + 2 <= end <= len,
                    parameters_end(cs@, i + 2) == parameters_end(cs@, end as int),
                decreases len - end,
            {
                end += 1;
            }
            proof {
                lemma_parameters_end_skip(cs@, i as int, i + 2);
                assert(parameters_end(rest, 2) == end - i);
            }
            escape = end < len && (('a' <= cs[end] && cs[end] <= 'z') || ('A' <= cs[end] && cs[end]
                <= 'Z'));
        }
        assert(escape == begins_escape(rest));
        if escape {
            assert(rest.skip(end - i + 1) =~= cs@.skip(end + 1));
            i = end + 1;
        } else {
            let ghost before = out@;
            out.push(cs[i]);
            assert(rest.skip(1) =~= cs@.skip(i + 1));
            assert(out@ + without_ansi(rest.skip(1)) =~= before + (seq![rest[0]] + without_ansi(
                rest.skip(1),
            )));
            i += 1;
        }
    }
    assert(out@ + without_ansi(cs@.skip(i as int)) =~= out@);
    out
}

} // verus!
