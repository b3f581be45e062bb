//! `swift run`: drops what the build prints, keeps what the program prints.

use super::building::{filter_swift_build, swift_build_filtered};
use crate::ansi::{strip_ansi, without_ansi};
use crate::pattern::{regex_matches, Pattern, BUILD_COMPLETE, BUILD_PROGRESS};
use crate::text::{
    begins_with, join, joined, lines, lines_of, starts_with, trim, trimmed, views,
};
use vstd::prelude::*;

verus! {

// ─── Lines ──────────────────────────────────────────────────────────────────

/// A line as it stands in the output, with what it tells about the build. `T` is
/// the type of text.
pub struct RunLine<T> {
    pub line: T,
    pub build: bool,
    pub complete: bool,
}

impl View for RunLine<String> {
    type V = RunLine<Seq<char>>;

    open spec fn view(&self) -> RunLine<Seq<char>> {
        RunLine { line: self.line@, build: self.build, complete: self.complete }
    }
}

/// A line of output, marked as a build line where it announces the build, counts a
/// step of it or tells that it is complete.
pub open spec fn run_line(line: Seq<char>) -> RunLine<Seq<char>> {
    let text = trimmed(line);
    let complete = regex_matches(BUILD_COMPLETE@, text);
    RunLine {
        line,
        build: begins_with(text, "Building for"@) || begins_with(text, "[0/1] Planning build"@)
            || regex_matches(BUILD_PROGRESS@, text) || complete,
        complete,
    }
}

/// The lines of `clean`.
pub open spec fn run_lines(clean: Seq<char>) -> Seq<RunLine<Seq<char>>> {
    lines_of(clean).map_values(|line: Seq<char>| run_line(line))
}

/// Searches each line of `clean` for the marks of a build.
pub fn read_run_lines(clean: &str) -> (r: Vec<RunLine<String>>)
    ensures
        views(r@) == run_lines(clean@),
{
    let progress = Pattern::compile(BUILD_PROGRESS);
    let done = Pattern::compile(BUILD_COMPLETE);
    let raw = lines(clean);
    let mut out: Vec<RunLine<String>> = Vec::new();
    for i in 0..raw.len()
        invariant
            progress.source() == BUILD_PROGRESS@,
            done.source() == BUILD_COMPLETE@,
            views(raw@) == lines_of(clean@),
            views(out@) == run_lines(clean@).take(i as int),
    {
        let text = trim(raw[i].as_str());
        let complete = done.is_match(text.as_str());
        let build = starts_with(text.as_str(), "Building for") || starts_with(
            text.as_str(),
            "[0/1] Planning build",
        ) || progress.is_match(text.as_str()) || complete;
        let line = RunLine { line: raw[i].clone(), build, complete };
        assert(line@ == run_line(views(raw@)[i as int]));
        assert(run_lines(clean@)[i as int] == line@);
        let ghost before = views(out@);
        out.push(line);
        assert(views(out@) =~= before.push(line@));
        assert(views(out@) =~= run_lines(clean@).take(i + 1));
    }
    assert(views(out@) =~= run_lines(clean@));
    out
}

// ─── Program output ─────────────────────────────────────────────────────────

/// The position of the first build line at or behind `from`, or the number of
/// lines where there is none.
pub open spec fn first_build(ls: Seq<RunLine<Seq<char>>>, from: int) -> int
    decreases ls.len() - from,
{
    if from >= ls.len() {
        ls.len() as int
    } else if ls[from].build {
        from
    } else {
        first_build(ls, from + 1)
    }
}

/// The position of the first line at or behind `from` that tells that the build is
/// complete, or the number of lines where there is none.
pub open spec fn first_complete(ls: Seq<RunLine<Seq<char>>>, from: int) -> int
    decreases ls.len() - from,
{
    if from >= ls.len() {
        ls.len() as int
    } else if ls[from].complete {
        from
    } else {
        first_complete(ls, from + 1)
    }
}

/// The lines as they stand in the output.
pub open spec fn plain_lines(ls: Seq<RunLine<Seq<char>>>) -> Seq<Seq<char>> {
    ls.map_values(|l: RunLine<Seq<char>>| l.line)
}

/// What the program printed: all lines where there is no build line; else the
/// lines before the first build line and the lines behind the one that tells that
/// the build is complete; `None` where no line tells that.
pub open spec fn program_lines(ls: Seq<RunLine<Seq<char>>>) -> Option<Seq<Seq<char>>> {
    let start = first_build(ls, 0);
    let done = first_complete(ls, 0);
    if start >= ls.len() {
        Some(plain_lines(ls))
    } else if done < ls.len() {
        Some(plain_lines(ls.take(start)) + plain_lines(ls.skip(done + 1)))
    } else {
        None
    }
}

/// What the program printed, line by line; `None` where the build failed, or
/// where the program printed nothing.
pub open spec fn program_text(ls: Seq<RunLine<Seq<char>>>) -> Option<Seq<char>> {
    match program_lines(ls) {
        Some(ps) => if ps.len() > 0 {
            Some(joined(ps, "\n"@))
        } else {
            None
        },
        None => None,
    }
}

/// The search results stay within the lines, and point at what was searched for.
pub proof fn lemma_first_marks(ls: Seq<RunLine<Seq<char>>>, from: int)
    requires
        0 <= from <= ls.len(),
    ensures
        from <= first_build(ls, from) <= ls.len(),
        from <= first_complete(ls, from) <= ls.len(),
        first_build(ls, from) < ls.len() ==> ls[first_build(ls, from)].build,
        first_complete(ls, from) < ls.len() ==> ls[first_complete(ls, from)].complete,
        forall|i: int| from <= i < first_build(ls, from) ==> !(#[trigger] ls[i]).build,
        forall|i: int| from <= i < first_complete(ls, from) ==> !(#[trigger] ls[i]).complete,
    decreases ls.len() - from,
{
    if from < ls.len() {
        lemma_first_marks(ls, from + 1);
    }
}

fn copy_lines(ls: &Vec<RunLine<String>>, from: usize, to: usize, out: &mut Vec<String>)
    requires
        from <= to <= ls@.len(),
    ensures
        views(final(out)@) == views(old(out)@) + plain_lines(
            views(ls@).subrange(from as int, to as int),
        ),
{
    let ghost start = views(out@);
    let ghost part = plain_lines(views(ls@).subrange(from as int, to as int));
    assert(start + part.take(0) =~= start);
    for i in from..to
        invariant
            from <= to <= ls@.len(),
            part == plain_lines(views(ls@).subrange(from as int, to as int)),
            views(out@) == start + part.take(i - from),
    {
        let ghost before = views(out@);
        let line = ls[i].line.clone();
        assert(part[i - from] == line@);
        out.push(line);
        assert(views(out@) =~= before.push(line@));
        assert(views(out@) =~= start + part.take(i + 1 - from));
    }
    assert(part.take(to - from) =~= part);
}

/// Picks out what the program printed.
pub fn program_output(ls: &Vec<RunLine<String>>) -> (r: Option<String>)
    ensures
        r is Some == program_text(views(ls@)) is Some,
        r is Some ==> r->0@ == program_text(views(ls@))->0,
{
    let ghost all = views(ls@);
    let mut start: usize = 0;
    while start < ls.len() && !ls[start].build
        invariant
            start <= ls@.len(),
            all == views(ls@),
            first_build(all, 0) == first_build(all, start as int),
        decreases ls@.len() - start,
    {
        assert(all[start as int] == ls@[start as int]@);
        start += 1;
    }
    assert(start < ls@.len() ==> all[start as int] == ls@[start as int]@);
    assert(first_build(all, 0) == start);
    let mut program: Vec<String> = Vec::new();
    if start == ls.len() {
        copy_lines(ls, 0, start, &mut program);
        assert(all.subrange(0, start as int) =~= all);
        assert(views(program@) =~= plain_lines(all));
    } else {
        let mut done: usize = 0;
        while done < ls.len() && !ls[done].complete
            invariant
                done <= ls@.len(),
                all == views(ls@),
                first_complete(all, 0) == first_complete(all, done as int),
            decreases ls@.len() - done,
        {
            assert(all[done as int] == ls@[done as int]@);
            done += 1;
        }
        assert(done < ls@.len() ==> all[done as int] == ls@[done as int]@);
        assert(first_complete(all, 0) == done);
        if done == ls.len() {
            return None;
        }
        copy_lines(ls, 0, start, &mut program);
        assert(all.subrange(0, start as int) =~= all.take(start as int));
        assert(views(program@) =~= plain_lines(all.take(start as int)));
        copy_lines(ls, done + 1, ls.len(), &mut program);
        assert(all.subrange(done + 1, all.len() as int) =~= all.skip(done + 1));
    }
    assert(program_lines(all) == Some(views(program@)));
    if program.len() == 0 {
        None
    } else {
        Some(join(&program, "\n"))
    }
}

/// What the filter makes of raw output.
pub open spec fn swift_run_filtered(output: Seq<char>) -> Seq<char> {
    match program_text(run_lines(without_ansi(output))) {
        Some(text) => text,
        None => swift_build_filtered(output),
    }
}

/// Strips the build from the output of `swift run`: what the program printed, or
/// the report on the build where the build failed or the program printed nothing.
pub fn filter_swift_run(output: &str) -> (r: String)
    ensures
        r@ == swift_run_filtered(output@),
{
    let clean = strip_ansi(output);
    let ls = read_run_lines(clean.as_str());
    match program_output(&ls) {
        Some(text) => text,
        None => filter_swift_build(output),
    }
}

// ─── Laws ───────────────────────────────────────────────────────────────────

/// Output without any build line, as that of a cached build, is kept line for
/// line.
pub proof fn law_run_cached(output: Seq<char>)
    requires
        ({
            let ls = run_lines(without_ansi(output));
            &&& ls.len() > 0
            &&& forall|i: int| 0 <= i < ls.len() ==> !(#[trigger] ls[i]).build
        }),
    ensures
        swift_run_filtered(output) == joined(lines_of(without_ansi(output)), "\n"@),
{
    let clean = without_ansi(output);
    let ls = run_lines(clean);
    lemma_first_marks(ls, 0);
    assert(first_build(ls, 0) == ls.len());
    assert(plain_lines(ls) =~= lines_of(clean));
}

/// A build that was begun and not completed gives the report on the build.
pub proof fn law_run_failed_build(output: Seq<char>, k: int)
    requires
        ({
            let ls = run_lines(without_ansi(output));
            &&& 0 <= k < ls.len()
            &&& ls[k].build
            &&& forall|i: int| 0 <= i < ls.len() ==> !(#[trigger] ls[i]).complete
        }),
    ensures
        swift_run_filtered(output) == swift_build_filtered(output),
{
    let ls = run_lines(without_ansi(output));
    lemma_first_marks(ls, 0);
    assert(!ls[k].complete);
    assert(first_build(ls, 0) <= k);
    assert(first_complete(ls, 0) == ls.len());
}

/// Every line behind a completed build is kept verbatim, whatever it looks like,
/// and so is every line before the build began; no line between them is.
pub proof fn law_run_program_kept(ls: Seq<RunLine<Seq<char>>>, start: int, done: int)
    requires
        0 <= start <= done < ls.len(),
        ls[start].build,
        ls[done].complete,
        forall|i: int| 0 <= i < start ==> !(#[trigger] ls[i]).build,
        forall|i: int| 0 <= i < done ==> !(#[trigger] ls[i]).complete,
    ensures
        program_lines(ls) is Some,
        program_lines(ls)->0.len() == ls.len() - (done + 1 - start),
        forall|i: int|
            0 <= i < start ==> program_lines(ls)->0[i] == (#[trigger] ls[i]).line,
        forall|i: int|
            done < i < ls.len() ==> program_lines(ls)->0[i - (done + 1 - start)] == (
            #[trigger] ls[i]).line,
{
    lemma_first_marks(ls, 0);
    let b = first_build(ls, 0);
    let c = first_complete(ls, 0);
    assert(b == start) by {
        if b < start {
            assert(!ls[b].build);
        }
    }
    assert(c == done) by {
        if c < done {
            assert(!ls[c].complete);
        }
    }
}

} // verus!
