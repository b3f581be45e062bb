//! `swift run`: which lines of the output are the program's.

use crate::ansi::without_ansi;
use crate::cmds::apple::swift_cmd::building::swift_build_filtered;
use crate::cmds::apple::swift_cmd::running::{
    first_build, first_complete, plain_lines, program_lines, run_line, run_lines,
    swift_run_filtered, RunLine,
};
use crate::pattern::{regex_matches, BUILD_COMPLETE, BUILD_PROGRESS};
use crate::text::{begins_with, joined, lines_of, trimmed};
use vstd::prelude::*;

verus! {

/// Whether a line tells that the build is complete.
pub open spec fn tells_complete(line: Seq<char>) -> bool {
    regex_matches(BUILD_COMPLETE@, trimmed(line))
}

/// Whether a line is printed by the build: it announces what is built or planned,
/// or tells of progress or of the end.
pub open spec fn tells_build(line: Seq<char>) -> bool {
    begins_with(trimmed(line), "Building for"@) || begins_with(
        trimmed(line),
        "[0/1] Planning build"@,
    ) || regex_matches(BUILD_PROGRESS@, trimmed(line)) || tells_complete(line)
}

proof fn lemma_marks(lines: Seq<Seq<char>>)
    ensures
        ({
            let ls = lines.map_values(|line: Seq<char>| run_line(line));
            &&& ls.len() == lines.len()
            &&& plain_lines(ls) == lines
            &&& forall|i: int|
                0 <= i < lines.len() ==> (#[trigger] ls[i]).build == tells_build(lines[i])
                    && ls[i].complete == tells_complete(lines[i])
        }),
{
    let ls = lines.map_values(|line: Seq<char>| run_line(line));
    assert(plain_lines(ls) =~= lines);
}

proof fn lemma_first_build(ls: Seq<RunLine<Seq<char>>>, from: int, b: int)
    requires
        0 <= from <= b <= ls.len(),
        b < ls.len() ==> ls[b].build,
        forall|i: int| from <= i < b ==> !(#[trigger] ls[i]).build,
    ensures
        first_build(ls, from) == b,
    decreases b - from,
{
    if from < b {
        assert(!ls[from].build);
        lemma_first_build(ls, from + 1, b);
    }
}

proof fn lemma_first_complete(ls: Seq<RunLine<Seq<char>>>, from: int, c: int)
    requires
        0 <= from <= c <= ls.len(),
        c < ls.len() ==> ls[c].complete,
        forall|i: int| from <= i < c ==> !(#[trigger] ls[i]).complete,
    ensures
        first_complete(ls, from) == c,
    decreases c - from,
{
    if from < c {
        assert(!ls[from].complete);
        lemma_first_complete(ls, from + 1, c);
    }
}

proof fn lemma_program_between(lines: Seq<Seq<char>>, b: int, c: int)
    requires
        0 <= b <= c < lines.len(),
        tells_build(lines[b]),
        forall|i: int| 0 <= i < b ==> !tells_build(#[trigger] lines[i]),
        tells_complete(lines[c]),
        forall|i: int| 0 <= i < c ==> !tells_complete(#[trigger] lines[i]),
    ensures
        program_lines(lines.map_values(|line: Seq<char>| run_line(line))) == Some(
            lines.take(b) + lines.skip(c + 1),
        ),
{
    let ls = lines.map_values(|line: Seq<char>| run_line(line));
    lemma_marks(lines);
    assert(ls[b].build && ls[c].complete);
    assert forall|i: int| 0 <= i < b implies !(#[trigger] ls[i]).build by {
        assert(!tells_build(lines[i]));
    }
    assert forall|i: int| 0 <= i < c implies !(#[trigger] ls[i]).complete by {
        assert(!tells_complete(lines[i]));
    }
    lemma_first_build(ls, 0, b);
    lemma_first_complete(ls, 0, c);
    assert(plain_lines(ls.take(b)) =~= lines.take(b));
    assert(plain_lines(ls.skip(c + 1)) =~= lines.skip(c + 1));
}

/// Where the build is complete, the lines from the first that the build printed up
/// to the first that tells so are the build's, and all the others are the program's:
/// they come out as they are. Without any, the build is reported on.
pub proof fn law_run_shows_program(output: Seq<char>, b: int, c: int)
    requires
        ({
            let lines = lines_of(without_ansi(output));
            &&& 0 <= b <= c < lines.len()
            &&& tells_build(lines[b])
            &&& forall|i: int| 0 <= i < b ==> !tells_build(#[trigger] lines[i])
            &&& tells_complete(lines[c])
            &&& forall|i: int| 0 <= i < c ==> !tells_complete(#[trigger] lines[i])
        }),
    ensures
        ({
            let lines = lines_of(without_ansi(output));
            let rest = lines.take(b) + lines.skip(c + 1);
            if rest.len() > 0 {
                swift_run_filtered(output) == joined(rest, "\n"@)
            } else {
                swift_run_filtered(output) == swift_build_filtered(output)
            }
        }),
{
    lemma_program_between(lines_of(without_ansi(output)), b, c);
}

/// Output without a line that the build printed is the program's: it comes out line
/// by line. Empty output is reported on as a build.
pub proof fn law_run_shows_all(output: Seq<char>)
    requires
        ({
            let lines = lines_of(without_ansi(output));
            forall|i: int| 0 <= i < lines.len() ==> !tells_build(#[trigger] lines[i])
        }),
    ensures
        ({
            let lines = lines_of(without_ansi(output));
            if lines.len() > 0 {
                swift_run_filtered(output) == joined(lines, "\n"@)
            } else {
                swift_run_filtered(output) == swift_build_filtered(output)
            }
        }),
{
    let lines = lines_of(without_ansi(output));
    let ls = run_lines(without_ansi(output));
    lemma_marks(lines);
    assert forall|i: int| 0 <= i < ls.len() implies !(#[trigger] ls[i]).build by {
        assert(!tells_build(lines[i]));
    }
    lemma_first_build(ls, 0, ls.len() as int);
}

/// A build that printed something and was never complete is reported on as a build.
pub proof fn law_run_reports_build(output: Seq<char>, b: int)
    requires
        ({
            let lines = lines_of(without_ansi(output));
            &&& 0 <= b < lines.len()
            &&& tells_build(lines[b])
            &&& forall|i: int| 0 <= i < lines.len() ==> !tells_complete(#[trigger] lines[i])
        }),
    ensures
        swift_run_filtered(output) == swift_build_filtered(output),
{
    let lines = lines_of(without_ansi(output));
    let ls = run_lines(without_ansi(output));
    lemma_marks(lines);
    assert(ls[b].build);
    assert forall|i: int| 0 <= i < ls.len() implies !(#[trigger] ls[i]).complete by {
        assert(!tells_complete(lines[i]));
    }
    lemma_first_complete(ls, 0, ls.len() as int);
    lemma_first_build_at_most(ls, 0, b);
}

proof fn lemma_first_build_at_most(ls: Seq<RunLine<Seq<char>>>, from: int, b: int)
    requires
        0 <= from <= b < ls.len(),
        ls[b].build,
    ensures
        from <= first_build(ls, from) <= b,
        ls[first_build(ls, from)].build,
        forall|i: int| from <= i < first_build(ls, from) ==> !(#[trigger] ls[i]).build,
    decreases b - from,
{
    if !ls[from].build {
        lemma_first_build_at_most(ls, from + 1, b);
    }
}

/// A line that begins with `Building for`, and stands at or before the first line
/// that tells that the build is complete, is not among the program's lines, nor is
/// anything between the two: the program's lines are some that stand before it, and
/// those behind the completion.
pub proof fn law_run_hides_building(output: Seq<char>, k: int, c: int)
    requires
        ({
            let lines = lines_of(without_ansi(output));
            &&& 0 <= k <= c < lines.len()
            &&& begins_with(trimmed(lines[k]), "Building for"@)
            &&& regex_matches(BUILD_COMPLETE@, trimmed(lines[c]))
            &&& forall|i: int|
                0 <= i < c ==> !regex_matches(BUILD_COMPLETE@, trimmed(#[trigger] lines[i]))
        }),
    ensures
        ({
            let lines = lines_of(without_ansi(output));
            exists|b: int|
                0 <= b <= k && program_lines(run_lines(without_ansi(output))) == Some(
                    #[trigger] lines.take(b) + lines.skip(c + 1),
                )
        }),
{
    let lines = lines_of(without_ansi(output));
    let ls = run_lines(without_ansi(output));
    lemma_marks(lines);
    assert(ls[k].build);
    lemma_first_build_at_most(ls, 0, k);
    let b = first_build(ls, 0);
    assert(tells_build(lines[b]));
    assert forall|i: int| 0 <= i < b implies !tells_build(#[trigger] lines[i]) by {
        assert(!ls[i].build);
    }
    assert(tells_complete(lines[c]));
    assert forall|i: int| 0 <= i < c implies !tells_complete(#[trigger] lines[i]) by {}
    lemma_program_between(lines, b, c);
    assert(program_lines(ls) == Some(lines.take(b) + lines.skip(c + 1)));
}

} // verus!
