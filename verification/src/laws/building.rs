//! `swift build`: which line of the output becomes what in the report.

use crate::ansi::without_ansi;
use crate::cmds::apple::swift_cmd::building::{
    build_line, build_lines, build_report, build_status, build_summary, error_of, largest,
    progress_number, swift_build_filtered, warning_of, BuildLine, BuildSummaryView,
};
use crate::laws::picks::{last_before, lemma_last_before_prefix, lemma_pick_mapped};
use crate::pattern::{
    group_text, regex_captures, regex_matches, FoundText, BUILD_COMPLETE, BUILD_FAILED,
    BUILD_PROGRESS, ERROR_LINE, WARNING_LINE,
};
use crate::report::{all_listed, section};
use crate::text::{decimal, lines_of, trimmed, u32_or_zero};
use vstd::prelude::*;

verus! {

/// The errors of the summary are the lines that match the pattern of errors, the
/// warnings those that match the pattern of warnings and are no errors: all of them,
/// in the order of the output.
pub proof fn law_build_messages_are_lines(output: Seq<char>)
    ensures
        build_summary(build_lines(without_ansi(output))).errors == lines_of(
            without_ansi(output),
        ).filter_map(
            |line: Seq<char>|
                if trimmed(line).len() > 0 && regex_matches(ERROR_LINE@, trimmed(line)) {
                    Some(trimmed(line))
                } else {
                    None
                },
        ),
        build_summary(build_lines(without_ansi(output))).warnings == lines_of(
            without_ansi(output),
        ).filter_map(
            |line: Seq<char>|
                if trimmed(line).len() > 0 && regex_matches(WARNING_LINE@, trimmed(line))
                    && !regex_matches(ERROR_LINE@, trimmed(line)) {
                    Some(trimmed(line))
                } else {
                    None
                },
        ),
{
    let lines = lines_of(without_ansi(output));
    let read = |line: Seq<char>| build_line(line);
    let error = |line: Seq<char>|
        if trimmed(line).len() > 0 && regex_matches(ERROR_LINE@, trimmed(line)) {
            Some(trimmed(line))
        } else {
            None
        };
    let warning = |line: Seq<char>|
        if trimmed(line).len() > 0 && regex_matches(WARNING_LINE@, trimmed(line))
            && !regex_matches(ERROR_LINE@, trimmed(line)) {
            Some(trimmed(line))
        } else {
            None
        };
    lemma_pick_mapped(
        lines,
        read,
        |l: BuildLine<Seq<char>, FoundText>| error_of(l),
        error,
    );
    lemma_pick_mapped(
        lines,
        read,
        |l: BuildLine<Seq<char>, FoundText>| warning_of(l),
        warning,
    );
}

/// The status of the summary is the last line that tells that the build is complete
/// or that it failed, and empty where no line does.
pub proof fn law_build_status_is_last(output: Seq<char>)
    ensures
        build_summary(build_lines(without_ansi(output))).status == (match last_before(
            lines_of(without_ansi(output)),
            lines_of(without_ansi(output)).len() as int,
            |line: Seq<char>|
                trimmed(line).len() > 0 && (regex_matches(BUILD_COMPLETE@, trimmed(line))
                    || regex_matches(BUILD_FAILED@, trimmed(line))),
        ) {
            Some(line) => trimmed(line),
            None => seq![],
        }),
{
    lemma_status_is_last(lines_of(without_ansi(output)));
}

proof fn lemma_status_is_last(lines: Seq<Seq<char>>)
    ensures
        build_status(lines.map_values(|line: Seq<char>| build_line(line))) == (match last_before(
            lines,
            lines.len() as int,
            |line: Seq<char>|
                trimmed(line).len() > 0 && (regex_matches(BUILD_COMPLETE@, trimmed(line))
                    || regex_matches(BUILD_FAILED@, trimmed(line))),
        ) {
            Some(line) => trimmed(line),
            None => seq![],
        }),
    decreases lines.len(),
{
    let read = |line: Seq<char>| build_line(line);
    let status = |line: Seq<char>|
        trimmed(line).len() > 0 && (regex_matches(BUILD_COMPLETE@, trimmed(line)) || regex_matches(
            BUILD_FAILED@,
            trimmed(line),
        ));
    if lines.len() > 0 {
        let n = lines.len() - 1;
        lemma_status_is_last(lines.drop_last());
        assert(lines.map_values(read).drop_last() =~= lines.drop_last().map_values(read));
        assert(lines.drop_last() =~= lines.take(n));
        lemma_last_before_prefix(lines, n, n, status);
    }
}

/// The steps of the summary are the largest that a line of progress gives, done and
/// in all, each by itself; without such a line they are zero.
pub proof fn law_build_steps_are_largest(output: Seq<char>, k: int)
    requires
        k == 1 || k == 2,
    ensures
        ({
            let lines = lines_of(without_ansi(output));
            let s = build_summary(build_lines(without_ansi(output)));
            let n = if k == 1 {
                s.steps
            } else {
                s.total_steps
            };
            &&& forall|i: int|
                #![trigger lines[i]]
                0 <= i < lines.len() && trimmed(lines[i]).len() > 0 && regex_matches(
                    BUILD_PROGRESS@,
                    trimmed(lines[i]),
                ) ==> n >= u32_or_zero(
                    group_text(regex_captures(BUILD_PROGRESS@, trimmed(lines[i])), k),
                )
            &&& n == 0 || exists|i: int|
                #![trigger lines[i]]
                0 <= i < lines.len() && trimmed(lines[i]).len() > 0 && regex_matches(
                    BUILD_PROGRESS@,
                    trimmed(lines[i]),
                ) && n == u32_or_zero(
                    group_text(regex_captures(BUILD_PROGRESS@, trimmed(lines[i])), k),
                )
        }),
{
    lemma_largest(lines_of(without_ansi(output)), k);
}

proof fn lemma_largest(lines: Seq<Seq<char>>, k: int)
    ensures
        ({
            let n = largest(lines.map_values(|line: Seq<char>| build_line(line)), k);
            &&& forall|i: int|
                #![trigger lines[i]]
                0 <= i < lines.len() && trimmed(lines[i]).len() > 0 && regex_matches(
                    BUILD_PROGRESS@,
                    trimmed(lines[i]),
                ) ==> n >= u32_or_zero(
                    group_text(regex_captures(BUILD_PROGRESS@, trimmed(lines[i])), k),
                )
            &&& n == 0 || exists|i: int|
                #![trigger lines[i]]
                0 <= i < lines.len() && trimmed(lines[i]).len() > 0 && regex_matches(
                    BUILD_PROGRESS@,
                    trimmed(lines[i]),
                ) && n == u32_or_zero(
                    group_text(regex_captures(BUILD_PROGRESS@, trimmed(lines[i])), k),
                )
        }),
    decreases lines.len(),
{
    let read = |line: Seq<char>| build_line(line);
    let ls = lines.map_values(read);
    if lines.len() > 0 {
        let before = lines.drop_last();
        lemma_largest(before, k);
        assert(ls.drop_last() =~= before.map_values(read));
        let n = largest(ls, k);
        let here = progress_number(ls.last(), k);
        assert(ls.last() == build_line(lines.last()));
        assert forall|i: int|
            #![trigger lines[i]]
            0 <= i < lines.len() && trimmed(lines[i]).len() > 0 && regex_matches(
                BUILD_PROGRESS@,
                trimmed(lines[i]),
            ) implies n >= u32_or_zero(
            group_text(regex_captures(BUILD_PROGRESS@, trimmed(lines[i])), k),
        ) by {
            if i < before.len() {
                assert(before[i] == lines[i]);
            }
        }
        if n > 0 {
            if here > largest(ls.drop_last(), k) {
                assert(lines[lines.len() - 1] == lines.last());
            } else {
                let i = choose|i: int|
                    #![trigger before[i]]
                    0 <= i < before.len() && trimmed(before[i]).len() > 0 && regex_matches(
                        BUILD_PROGRESS@,
                        trimmed(before[i]),
                    ) && n == u32_or_zero(
                        group_text(regex_captures(BUILD_PROGRESS@, trimmed(before[i])), k),
                    );
                assert(lines[i] == before[i]);
            }
        }
    }
}

/// The report begins with the title. Then come the steps, the errors, all of them,
/// the warnings, no more than ten of them, and the status; where the build had
/// neither a status nor an error, it went well.
pub proof fn law_build_layout(s: BuildSummaryView)
    ensures
        build_report(s) == trimmed(
            "swift build\n"@ + (if s.total_steps > 0 {
                "Compiled "@ + decimal(s.steps) + "/"@ + decimal(s.total_steps) + " steps\n"@
            } else {
                seq![]
            }) + all_listed("\nErrors ("@, s.errors) + section("\nWarnings ("@, s.warnings, 10) + (
            if s.status.len() > 0 {
                "\n"@ + s.status + "\n"@
            } else if s.errors.len() == 0 {
                "ok\n"@
            } else {
                seq![]
            }),
        ),
{
}

/// Every output is reported on.
pub proof fn law_build_reported(output: Seq<char>)
    ensures
        swift_build_filtered(output) == build_report(
            build_summary(build_lines(without_ansi(output))),
        ),
{
}

} // verus!
