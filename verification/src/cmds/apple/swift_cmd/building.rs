//! `swift build`: drops the progress lines, keeps errors, warnings and the final
//! status.

use crate::ansi::{strip_ansi, without_ansi};
use crate::pattern::{
    group_text, regex_captures, regex_matches, Found, FoundText, Pattern, BUILD_COMPLETE,
    BUILD_FAILED, BUILD_PROGRESS, ERROR_LINE, WARNING_LINE,
};
use crate::report::{
    all_listed, all_listed_text, all_trimmed, closing, closing_text, in_order, is_trimmed,
    law_picked_in_order, law_trimmed_is_trimmed, lemma_all_listed_is_section,
    lemma_closing_at_end, lemma_occurs_after_trim, lemma_section_survives, section, section_text,
    shown,
};
use crate::text::{
    decimal, decimal_text, is_space, lines, lines_of, occurs, parse_u32_or_zero, stands_at, trim,
    trimmed, u32_or_zero, views,
};
use vstd::prelude::*;

verus! {

/// How many warnings a report lists.
pub const WARNING_LIMIT: usize = 10;

// ─── Lines ──────────────────────────────────────────────────────────────────

/// A trimmed line with what each pattern finds in it. `T` is the type of text,
/// `F` that of a search result.
pub struct BuildLine<T, F> {
    pub text: T,
    pub progress: F,
    pub error: bool,
    pub warning: bool,
    pub complete: bool,
    pub failed: bool,
}

impl View for BuildLine<String, Found> {
    type V = BuildLine<Seq<char>, FoundText>;

    open spec fn view(&self) -> BuildLine<Seq<char>, FoundText> {
        BuildLine {
            text: self.text@,
            progress: self.progress@,
            error: self.error,
            warning: self.warning,
            complete: self.complete,
            failed: self.failed,
        }
    }
}

/// What the patterns find in a line of output.
pub open spec fn build_line(line: Seq<char>) -> BuildLine<Seq<char>, FoundText> {
    let text = trimmed(line);
    BuildLine {
        text,
        progress: regex_captures(BUILD_PROGRESS@, text),
        error: regex_matches(ERROR_LINE@, text),
        warning: regex_matches(WARNING_LINE@, text),
        complete: regex_matches(BUILD_COMPLETE@, text),
        failed: regex_matches(BUILD_FAILED@, text),
    }
}

/// What the patterns find in each line of `clean`.
pub open spec fn build_lines(clean: Seq<char>) -> Seq<BuildLine<Seq<char>, FoundText>> {
    lines_of(clean).map_values(|line: Seq<char>| build_line(line))
}

/// Searches each line of `clean` for the patterns.
pub fn read_build_lines(clean: &str) -> (r: Vec<BuildLine<String, Found>>)
    ensures
        views(r@) == build_lines(clean@),
{
    let progress = Pattern::compile(BUILD_PROGRESS);
    let error = Pattern::compile(ERROR_LINE);
    let warning = Pattern::compile(WARNING_LINE);
    let complete = Pattern::compile(BUILD_COMPLETE);
    let failed = Pattern::compile(BUILD_FAILED);
    let raw = lines(clean);
    let mut out: Vec<BuildLine<String, Found>> = Vec::new();
    for i in 0..raw.len()
        invariant
            progress.source() == BUILD_PROGRESS@,
            error.source() == ERROR_LINE@,
            warning.source() == WARNING_LINE@,
            complete.source() == BUILD_COMPLETE@,
            failed.source() == BUILD_FAILED@,
            views(raw@) == lines_of(clean@),
            views(out@) == build_lines(clean@).take(i as int),
    {
        let text = trim(raw[i].as_str());
        let line = BuildLine {
            progress: progress.captures(text.as_str()),
            error: error.is_match(text.as_str()),
            warning: warning.is_match(text.as_str()),
            complete: complete.is_match(text.as_str()),
            failed: failed.is_match(text.as_str()),
            text,
        };
        assert(line@ == build_line(views(raw@)[i as int]));
        assert(build_lines(clean@)[i as int] == line@);
        let ghost before = views(out@);
        out.push(line);
        assert(views(out@) =~= before.push(line@));
        assert(views(out@) =~= build_lines(clean@).take(i + 1));
    }
    assert(views(out@) =~= build_lines(clean@));
    out
}

// ─── Summary ────────────────────────────────────────────────────────────────

/// The text of a line that reports an error.
pub open spec fn error_of(l: BuildLine<Seq<char>, FoundText>) -> Option<Seq<char>> {
    if l.text.len() > 0 && l.error {
        Some(l.text)
    } else {
        None
    }
}

/// The text of a line that reports a warning and no error.
pub open spec fn warning_of(l: BuildLine<Seq<char>, FoundText>) -> Option<Seq<char>> {
    if l.text.len() > 0 && !l.error && l.warning {
        Some(l.text)
    } else {
        None
    }
}

/// The lines that report an error, in their order.
pub open spec fn build_errors(ls: Seq<BuildLine<Seq<char>, FoundText>>) -> Seq<Seq<char>> {
    ls.filter_map(|l: BuildLine<Seq<char>, FoundText>| error_of(l))
}

/// The lines that report a warning and no error, in their order.
pub open spec fn build_warnings(ls: Seq<BuildLine<Seq<char>, FoundText>>) -> Seq<Seq<char>> {
    ls.filter_map(|l: BuildLine<Seq<char>, FoundText>| warning_of(l))
}

/// Whether a line tells how the build ended.
pub open spec fn is_status(l: BuildLine<Seq<char>, FoundText>) -> bool {
    l.text.len() > 0 && (l.complete || l.failed)
}

/// The last line that tells how the build ended; empty if there is none.
pub open spec fn build_status(ls: Seq<BuildLine<Seq<char>, FoundText>>) -> Seq<char>
    decreases ls.len(),
{
    if ls.len() == 0 {
        seq![]
    } else if is_status(ls.last()) {
        ls.last().text
    } else {
        build_status(ls.drop_last())
    }
}

/// The number in group `k` of a progress line; 0 for any other line.
pub open spec fn progress_number(l: BuildLine<Seq<char>, FoundText>, k: int) -> u32 {
    if l.text.len() > 0 && l.progress is Some {
        u32_or_zero(group_text(l.progress, k))
    } else {
        0
    }
}

/// The largest number in group `k` of the progress lines; 0 if there are none.
pub open spec fn largest(ls: Seq<BuildLine<Seq<char>, FoundText>>, k: int) -> u32
    decreases ls.len(),
{
    if ls.len() == 0 {
        0
    } else {
        let before = largest(ls.drop_last(), k);
        let here = progress_number(ls.last(), k);
        if here > before {
            here
        } else {
            before
        }
    }
}

/// What has been read of a build, as text sequences.
#[verifier::ext_equal]
pub struct BuildSummaryView {
    pub steps: nat,
    pub total_steps: nat,
    pub errors: Seq<Seq<char>>,
    pub warnings: Seq<Seq<char>>,
    pub status: Seq<char>,
}

/// What has been read of a build: the last step reached, the number of steps, the
/// errors, the warnings, and how it ended.
pub struct BuildSummary {
    pub steps: u32,
    pub total_steps: u32,
    pub errors: Vec<String>,
    pub warnings: Vec<String>,
    pub status: String,
}

impl View for BuildSummary {
    type V = BuildSummaryView;

    open spec fn view(&self) -> BuildSummaryView {
        BuildSummaryView {
            steps: self.steps as nat,
            total_steps: self.total_steps as nat,
            errors: views(self.errors@),
            warnings: views(self.warnings@),
            status: self.status@,
        }
    }
}

/// What there is to read in the lines of a build.
pub open spec fn build_summary(ls: Seq<BuildLine<Seq<char>, FoundText>>) -> BuildSummaryView {
    BuildSummaryView {
        steps: largest(ls, 1) as nat,
        total_steps: largest(ls, 2) as nat,
        errors: build_errors(ls),
        warnings: build_warnings(ls),
        status: build_status(ls),
    }
}

/// Reads the lines of a build.
pub fn summarize_build(ls: &Vec<BuildLine<String, Found>>) -> (r: BuildSummary)
    ensures
        r@ == build_summary(views(ls@)),
{
    let mut s = BuildSummary {
        steps: 0,
        total_steps: 0,
        errors: Vec::new(),
        warnings: Vec::new(),
        status: String::new(),
    };
    let ghost all = views(ls@);
    assert(s@ =~= build_summary(all.take(0)));
    for i in 0..ls.len()
        invariant
            all == views(ls@),
            s@ == build_summary(all.take(i as int)),
    {
        let ghost before = s@;
        let l = &ls[i];
        assert(all.take(i + 1).drop_last() =~= all.take(i as int));
        assert(all.take(i + 1).last() == l@);
        if !l.text.as_str().is_empty() {
            if l.progress.is_match() {
                let step: u32 = parse_u32_or_zero(l.progress.group(1).as_str());
                let total: u32 = parse_u32_or_zero(l.progress.group(2).as_str());
                if step > s.steps {
                    s.steps = step;
                }
                if total > s.total_steps {
                    s.total_steps = total;
                }
            }
            if l.error {
                s.errors.push(l.text.clone());
            } else if l.warning {
                s.warnings.push(l.text.clone());
            }
            if l.complete || l.failed {
                s.status = l.text.clone();
            }
        }
        assert(views(s.errors@) =~= build_errors(all.take(i + 1)));
        assert(views(s.warnings@) =~= build_warnings(all.take(i + 1)));
        assert(s@ =~= build_summary(all.take(i + 1)));
    }
    assert(all.take(all.len() as int) =~= all);
    s
}

// ─── Report ─────────────────────────────────────────────────────────────────

/// The line on the steps, if any were counted.
pub open spec fn steps_line(s: BuildSummaryView) -> Seq<char> {
    if s.total_steps > 0 {
        "Compiled "@ + decimal(s.steps) + "/"@ + decimal(s.total_steps) + " steps\n"@
    } else {
        seq![]
    }
}

/// How the build ended: the status line, or `ok` where there is neither a status
/// line nor an error.
pub open spec fn ending(s: BuildSummaryView) -> Seq<char> {
    if s.status.len() > 0 {
        closing(s.status)
    } else if s.errors.len() == 0 {
        "ok\n"@
    } else {
        seq![]
    }
}

/// The report before it is trimmed.
pub open spec fn build_body(s: BuildSummaryView) -> Seq<char> {
    "swift build\n"@ + steps_line(s) + all_listed("\nErrors ("@, s.errors) + section(
        "\nWarnings ("@,
        s.warnings,
        WARNING_LIMIT as nat,
    ) + ending(s)
}

/// The report on a build.
pub open spec fn build_report(s: BuildSummaryView) -> Seq<char> {
    trimmed(build_body(s))
}

/// Writes the report on a build.
pub fn render_build(s: &BuildSummary) -> (r: String)
    ensures
        r@ == build_report(s@),
{
    let mut steps = String::new();
    if s.total_steps > 0 {
        steps.append("Compiled ");
        steps.append(decimal_text(s.steps as usize).as_str());
        steps.append("/");
        steps.append(decimal_text(s.total_steps as usize).as_str());
        steps.append(" steps\n");
    }
    assert(steps@ =~= steps_line(s@));
    let mut end = String::new();
    if !s.status.as_str().is_empty() {
        end.append(closing_text(s.status.as_str()).as_str());
    } else if s.errors.len() == 0 {
        end.append("ok\n");
    }
    assert(end@ =~= ending(s@));
    let mut out = "swift build\n".to_owned();
    out.append(steps.as_str());
    out.append(all_listed_text("\nErrors (", &s.errors).as_str());
    out.append(section_text("\nWarnings (", &s.warnings, WARNING_LIMIT).as_str());
    out.append(end.as_str());
    trim(out.as_str())
}

/// What the filter makes of raw output.
pub open spec fn swift_build_filtered(output: Seq<char>) -> Seq<char> {
    build_report(build_summary(build_lines(without_ansi(output))))
}

/// Condenses the output of `swift build`.
pub fn filter_swift_build(output: &str) -> (r: String)
    ensures
        r@ == swift_build_filtered(output@),
{
    let clean = strip_ansi(output);
    render_build(&summarize_build(&read_build_lines(clean.as_str())))
}

// ─── Laws ───────────────────────────────────────────────────────────────────

proof fn lemma_titles()
    ensures
        "\nErrors ("@ == "\n"@ + "Errors ("@,
        "Errors ("@.len() > 0,
        !is_space("Errors ("@[0]),
        "\nWarnings ("@ == "\n"@ + "Warnings ("@,
        "Warnings ("@.len() > 0,
        !is_space("Warnings ("@[0]),
{
    reveal_strlit("\n");
    reveal_strlit("\nErrors (");
    reveal_strlit("Errors (");
    reveal_strlit("\nWarnings (");
    reveal_strlit("Warnings (");
    assert("\nErrors ("@ =~= "\n"@ + "Errors ("@);
    assert("\nWarnings ("@ =~= "\n"@ + "Warnings ("@);
}

proof fn lemma_line_text(clean: Seq<char>, i: int)
    requires
        0 <= i < build_lines(clean).len(),
    ensures
        is_trimmed(build_lines(clean)[i].text),
{
    law_trimmed_is_trimmed(lines_of(clean)[i]);
}

/// No error gets lost: every line that reports an error is in the list of errors;
/// the report states the length of that list and shows all of them verbatim, in
/// the order of the output.
pub proof fn law_build_errors_kept(output: Seq<char>)
    ensures
        ({
            let ls = build_lines(without_ansi(output));
            let errors = build_errors(ls);
            let r = swift_build_filtered(output);
            &&& forall|i: int|
                0 <= i < ls.len() && #[trigger] ls[i].text.len() > 0 && ls[i].error
                    ==> errors.contains(ls[i].text)
            &&& forall|k: int| 0 <= k < errors.len() ==> occurs(#[trigger] errors[k], r)
            &&& forall|j: int, k: int|
                0 <= j < k < errors.len() ==> in_order(
                    #[trigger] errors[j],
                    #[trigger] errors[k],
                    r,
                )
            &&& errors.len() > 0 ==> occurs("Errors ("@ + decimal(errors.len()) + "):"@, r)
        }),
{
    let clean = without_ansi(output);
    let ls = build_lines(clean);
    let s = build_summary(ls);
    let pick = |l: BuildLine<Seq<char>, FoundText>| error_of(l);
    let at = law_picked_in_order(ls, pick);
    assert forall|i: int|
        0 <= i < ls.len() && #[trigger] ls[i].text.len() > 0
            && ls[i].error implies s.errors.contains(ls[i].text) by {
        assert(pick(ls[i]) == Some(ls[i].text));
    }
    assert(all_trimmed(s.errors)) by {
        assert forall|k: int| 0 <= k < s.errors.len() implies (#[trigger] s.errors[k]).len() > 0
            && is_trimmed(s.errors[k]) by {
            assert(pick(ls[at[k]]) == Some(s.errors[k]));
            lemma_line_text(clean, at[k]);
        }
    }
    lemma_titles();
    let pre = "swift build\n"@ + steps_line(s);
    let post = section("\nWarnings ("@, s.warnings, 10) + ending(s);
    let n = s.errors.len();
    lemma_all_listed_is_section("\nErrors ("@, s.errors);
    lemma_section_survives(pre, "\nErrors ("@, "Errors ("@, s.errors, n, post);
    assert(pre + section("\nErrors ("@, s.errors, n) + post =~= build_body(s));
}

/// No warning gets lost: every line that reports a warning and no error is in the
/// list of warnings; the report states the length of that list, shows the first
/// ten of them verbatim and in the order of the output, and counts the rest.
pub proof fn law_build_warnings_kept(output: Seq<char>)
    ensures
        ({
            let ls = build_lines(without_ansi(output));
            let warnings = build_warnings(ls);
            let r = swift_build_filtered(output);
            &&& forall|i: int|
                0 <= i < ls.len() && #[trigger] ls[i].text.len() > 0 && !ls[i].error
                    && ls[i].warning ==> warnings.contains(ls[i].text)
            &&& forall|k: int|
                0 <= k < shown(warnings.len(), 10) ==> occurs(#[trigger] warnings[k], r)
            &&& forall|j: int, k: int|
                0 <= j < k < shown(warnings.len(), 10) ==> in_order(
                    #[trigger] warnings[j],
                    #[trigger] warnings[k],
                    r,
                )
            &&& warnings.len() > 0 ==> occurs("Warnings ("@ + decimal(warnings.len()) + "):"@, r)
            &&& warnings.len() > 10 ==> occurs(
                "... +"@ + decimal((warnings.len() - 10) as nat) + " more"@,
                r,
            )
        }),
{
    let clean = without_ansi(output);
    let ls = build_lines(clean);
    let s = build_summary(ls);
    let pick = |l: BuildLine<Seq<char>, FoundText>| warning_of(l);
    let at = law_picked_in_order(ls, pick);
    assert forall|i: int|
        0 <= i < ls.len() && #[trigger] ls[i].text.len() > 0 && !ls[i].error
            && ls[i].warning implies s.warnings.contains(ls[i].text) by {
        assert(pick(ls[i]) == Some(ls[i].text));
    }
    assert(all_trimmed(s.warnings)) by {
        assert forall|k: int| 0 <= k < s.warnings.len() implies (#[trigger] s.warnings[k]).len()
            > 0 && is_trimmed(s.warnings[k]) by {
            assert(pick(ls[at[k]]) == Some(s.warnings[k]));
            lemma_line_text(clean, at[k]);
        }
    }
    lemma_titles();
    let pre = "swift build\n"@ + steps_line(s) + all_listed("\nErrors ("@, s.errors);
    lemma_section_survives(pre, "\nWarnings ("@, "Warnings ("@, s.warnings, 10, ending(s));
    assert(pre + section("\nWarnings ("@, s.warnings, 10) + ending(s) =~= build_body(s));
}

proof fn lemma_status_trimmed(clean: Seq<char>, n: int)
    requires
        0 <= n <= build_lines(clean).len(),
    ensures
        is_trimmed(build_status(build_lines(clean).take(n))),
    decreases n,
{
    let ls = build_lines(clean);
    if n > 0 {
        lemma_status_trimmed(clean, n - 1);
        lemma_line_text(clean, n - 1);
        assert(ls.take(n).drop_last() =~= ls.take(n - 1));
        assert(ls.take(n).last() == ls[n - 1]);
    }
}

/// The last line that tells how the build ended is kept; a build without such a
/// line and without errors is reported as `ok`.
pub proof fn law_build_status_kept(output: Seq<char>)
    ensures
        ({
            let s = build_summary(build_lines(without_ansi(output)));
            &&& s.status.len() > 0 ==> occurs(s.status, swift_build_filtered(output))
            &&& s.status.len() == 0 && s.errors.len() == 0 ==> occurs(
                "ok"@,
                swift_build_filtered(output),
            )
        }),
{
    let clean = without_ansi(output);
    let ls = build_lines(clean);
    let s = build_summary(ls);
    let pre = "swift build\n"@ + steps_line(s) + all_listed("\nErrors ("@, s.errors) + section(
        "\nWarnings ("@,
        s.warnings,
        10,
    );
    if s.status.len() > 0 {
        lemma_status_trimmed(clean, ls.len() as int);
        assert(ls.take(ls.len() as int) =~= ls);
        lemma_closing_at_end(pre, s.status);
    } else if s.errors.len() == 0 {
        lemma_ok_survives(pre);
    }
}

proof fn lemma_ok_survives(pre: Seq<char>)
    ensures
        occurs("ok"@, trimmed(pre + "ok\n"@)),
{
    reveal_strlit("ok\n");
    reveal_strlit("ok");
    let whole = pre + "ok\n"@;
    assert(whole.subrange(pre.len() as int, pre.len() as int + 2) =~= "ok"@);
    assert(stands_at(whole, pre.len() as int, "ok"@));
    lemma_occurs_after_trim("ok"@, whole);
}

/// The steps of the report are the largest of the progress lines: none is larger,
/// and one of them is as large, unless there is none.
pub proof fn law_build_steps(ls: Seq<BuildLine<Seq<char>, FoundText>>, k: int)
    ensures
        forall|i: int| 0 <= i < ls.len() ==> progress_number(#[trigger] ls[i], k) <= largest(ls, k),
        largest(ls, k) == 0 || exists|i: int|
            0 <= i < ls.len() && progress_number(#[trigger] ls[i], k) == largest(ls, k),
    decreases ls.len(),
{
    if ls.len() > 0 {
        let before = ls.drop_last();
        law_build_steps(before, k);
        assert forall|i: int| 0 <= i < ls.len() implies progress_number(#[trigger] ls[i], k)
            <= largest(ls, k) by {
            if i < before.len() {
                assert(before[i] == ls[i]);
            }
        }
        if largest(ls, k) == largest(before, k) && largest(before, k) != 0 {
            let i = choose|i: int|
                0 <= i < before.len() && progress_number(#[trigger] before[i], k) == largest(
                    before,
                    k,
                );
            assert(progress_number(ls[i], k) == largest(ls, k));
        } else {
            assert(largest(ls, k) == 0 || progress_number(ls[ls.len() - 1], k) == largest(ls, k));
        }
    }
}

} // verus!
