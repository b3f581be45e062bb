//! `swift test`: which line of the output becomes what in the report.

use crate::ansi::without_ansi;
use crate::cmds::apple::swift_cmd::testing::{
    swift_test_filtered, test_failures, test_line, test_lines, test_report, test_summary,
    testing_passed, xctest_passed, TestLine, TestSummaryView,
};
use crate::laws::picks::lemma_pick_mapped;
use crate::pattern::{
    group_text, regex_captures, regex_matches, FoundText, ERROR_LINE, SWIFT_TEST_FAIL,
    SWIFT_TEST_ISSUE, SWIFT_TEST_PASS, SWIFT_TEST_RUN, XCTEST_ERROR, XCTEST_RESULT,
};
use crate::report::{all_listed, capped, listed};
use crate::text::{decimal, lines_of, trimmed};
use vstd::prelude::*;

verus! {

/// The tests that passed are as many as there are lines that tell so, by framework.
/// A line about the whole run is no test.
pub proof fn law_test_passes_are_lines(output: Seq<char>)
    ensures
        test_summary(test_lines(without_ansi(output))).xctest_passed == lines_of(
            without_ansi(output),
        ).filter_map(
            |line: Seq<char>|
                if regex_matches(XCTEST_RESULT@, trimmed(line)) && group_text(
                    regex_captures(XCTEST_RESULT@, trimmed(line)),
                    4,
                ) == "passed"@ {
                    Some(line)
                } else {
                    None
                },
        ).len(),
        test_summary(test_lines(without_ansi(output))).testing_passed == lines_of(
            without_ansi(output),
        ).filter_map(
            |line: Seq<char>|
                if regex_matches(SWIFT_TEST_PASS@, trimmed(line)) && !regex_matches(
                    SWIFT_TEST_RUN@,
                    trimmed(line),
                ) {
                    Some(line)
                } else {
                    None
                },
        ).len(),
{
    lemma_passes(lines_of(without_ansi(output)));
}

proof fn lemma_passes(lines: Seq<Seq<char>>)
    ensures
        xctest_passed(lines.map_values(|line: Seq<char>| test_line(line))) == lines.filter_map(
            |line: Seq<char>|
                if regex_matches(XCTEST_RESULT@, trimmed(line)) && group_text(
                    regex_captures(XCTEST_RESULT@, trimmed(line)),
                    4,
                ) == "passed"@ {
                    Some(line)
                } else {
                    None
                },
        ).len(),
        testing_passed(lines.map_values(|line: Seq<char>| test_line(line))) == lines.filter_map(
            |line: Seq<char>|
                if regex_matches(SWIFT_TEST_PASS@, trimmed(line)) && !regex_matches(
                    SWIFT_TEST_RUN@,
                    trimmed(line),
                ) {
                    Some(line)
                } else {
                    None
                },
        ).len(),
    decreases lines.len(),
{
    let read = |line: Seq<char>| test_line(line);
    if lines.len() > 0 {
        lemma_passes(lines.drop_last());
        assert(lines.map_values(read).drop_last() =~= lines.drop_last().map_values(read));
    }
}

/// The entries that a line gives: one for a result of XCTest that is no pass, and
/// one for a failure of Swift Testing that is not that of the whole run.
pub open spec fn failure_entries(line: Seq<char>) -> Seq<Seq<char>> {
    let quoted = regex_captures(XCTEST_RESULT@, trimmed(line));
    let marked = regex_captures(SWIFT_TEST_FAIL@, trimmed(line));
    (if quoted is Some && group_text(quoted, 4) != "passed"@ {
        seq![
            "FAIL "@ + group_text(quoted, 2) + "."@ + group_text(quoted, 3) + " ("@ + group_text(
                quoted,
                5,
            ) + "s)"@,
        ]
    } else {
        seq![]
    }) + (if marked is Some && !regex_matches(SWIFT_TEST_RUN@, trimmed(line)) {
        seq!["FAIL "@ + group_text(marked, 1) + " ("@ + group_text(marked, 2) + "s)"@]
    } else {
        seq![]
    })
}

/// The failures of the summary are what the lines give, all of it, in the order of
/// the output.
pub proof fn law_test_failures_are_lines(output: Seq<char>)
    ensures
        test_summary(test_lines(without_ansi(output))).failures == lines_of(
            without_ansi(output),
        ).map_values(|line: Seq<char>| failure_entries(line)).flatten(),
{
    lemma_failures(lines_of(without_ansi(output)));
}

proof fn lemma_failures(lines: Seq<Seq<char>>)
    ensures
        test_failures(lines.map_values(|line: Seq<char>| test_line(line))) == lines.map_values(
            |line: Seq<char>| failure_entries(line),
        ).flatten(),
    decreases lines.len(),
{
    let read = |line: Seq<char>| test_line(line);
    let give = |line: Seq<char>| failure_entries(line);
    let given = lines.map_values(give);
    given.lemma_flatten_and_flatten_alt_are_equivalent();
    if lines.len() > 0 {
        lemma_failures(lines.drop_last());
        given.drop_last().lemma_flatten_and_flatten_alt_are_equivalent();
        assert(given.drop_last() =~= lines.drop_last().map_values(give));
        assert(lines.map_values(read).drop_last() =~= lines.drop_last().map_values(read));
    }
}

/// The details of the summary are the lines with an assertion of XCTest. The errors
/// are the other lines with an error or with an issue that Swift Testing recorded.
/// All of them are there, in the order of the output.
pub proof fn law_test_messages_are_lines(output: Seq<char>)
    ensures
        test_summary(test_lines(without_ansi(output))).details == lines_of(
            without_ansi(output),
        ).filter_map(
            |line: Seq<char>|
                if regex_matches(XCTEST_ERROR@, trimmed(line)) {
                    Some(trimmed(line))
                } else {
                    None
                },
        ),
        test_summary(test_lines(without_ansi(output))).errors == lines_of(
            without_ansi(output),
        ).filter_map(
            |line: Seq<char>|
                if !regex_matches(XCTEST_ERROR@, trimmed(line)) && (regex_matches(
                    ERROR_LINE@,
                    trimmed(line),
                ) || regex_matches(SWIFT_TEST_ISSUE@, trimmed(line))) {
                    Some(trimmed(line))
                } else {
                    None
                },
        ),
{
    let lines = lines_of(without_ansi(output));
    let read = |line: Seq<char>| test_line(line);
    let detail = |line: Seq<char>|
        if regex_matches(XCTEST_ERROR@, trimmed(line)) {
            Some(trimmed(line))
        } else {
            None
        };
    let error = |line: Seq<char>|
        if !regex_matches(XCTEST_ERROR@, trimmed(line)) && (regex_matches(
            ERROR_LINE@,
            trimmed(line),
        ) || regex_matches(SWIFT_TEST_ISSUE@, trimmed(line))) {
            Some(trimmed(line))
        } else {
            None
        };
    lemma_pick_mapped(
        lines,
        read,
        |l: TestLine<Seq<char>, FoundText>|
            if l.detail {
                Some(l.text)
            } else {
                None
            },
        detail,
    );
    lemma_pick_mapped(
        lines,
        read,
        |l: TestLine<Seq<char>, FoundText>|
            if l.error && !l.detail {
                Some(l.text)
            } else {
                None
            },
        error,
    );
}

/// The report begins with the title and the counts, or says that there were no
/// tests. Then come the failures, all of them, the details, no more than twenty of
/// them, and the errors, all of them.
pub proof fn law_test_layout(s: TestSummaryView)
    ensures
        test_report(s) == trimmed(
            (if s.failures.len() > 0 {
                "swift test\n"@ + (decimal(s.xctest_passed + s.testing_passed) + " passed, "@
                    + decimal(s.failures.len()) + " failed (of "@ + decimal(
                    s.xctest_passed + s.testing_passed + s.failures.len(),
                ) + ")"@) + "\n\n"@ + listed(s.failures, "  "@)
            } else if s.xctest_passed + s.testing_passed > 0 {
                "swift test\n"@ + decimal(s.xctest_passed + s.testing_passed)
                    + " passed, 0 failed\n"@
            } else {
                "swift test\nNo tests found\n"@
            }) + ((if s.details.len() > 0 {
                "\n"@ + capped(s.details, "  "@, 20, " more errors\n"@)
            } else {
                seq![]
            }) + all_listed("\nErrors ("@, s.errors)),
        ),
{
}

/// Every output is reported on.
pub proof fn law_test_reported(output: Seq<char>)
    ensures
        swift_test_filtered(output) == test_report(test_summary(test_lines(without_ansi(output)))),
{
}

} // verus!
