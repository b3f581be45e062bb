//! `xcodebuild`: which line of the output becomes what in the report.

use crate::ansi::without_ansi;
use crate::cmds::apple::xcodebuild_cmd::{
    any_build_marker, compiled_lines, error_text, is_build_marker, linked_part, package_list,
    tests_part, xcode_event, xcode_events, xcode_line, xcode_lines, xcode_passed, xcode_report,
    xcode_result, xcode_summary, xcodebuild_filtered, XcodeEvent, XcodeLine, XcodeSummaryView,
};
use crate::groups::grouped;
use crate::laws::picks::{last_before, lemma_last_before_prefix, lemma_pick_mapped};
use crate::pattern::{
    group_text, regex_captures, regex_matches, FoundText, ERROR_LINE, RESOLVED_PACKAGE,
    WARNING_LINE, XCODE_COMPILE, XCODE_EMIT_MODULE, XCODE_LINK, XCODE_NOISE, XCODE_RESULT,
    XCODE_TEST_RESULT, XCTEST_RESULT,
};
use crate::report::{capped, closing, lemma_head_first, section};
use crate::text::{begins_with, decimal, is_space, joined, lines_of, trimmed};
use vstd::prelude::*;

verus! {

/// Whether a line, taken without the whitespace at its ends, tells something that
/// is not told by a banner and is no noise.
pub open spec fn tells(text: Seq<char>) -> bool {
    text.len() > 0 && !regex_matches(XCODE_RESULT@, text) && !regex_matches(XCODE_NOISE@, text)
}

/// Whether a line is about a compiler or linker call or a module that is emitted.
pub open spec fn is_step(text: Seq<char>) -> bool {
    regex_matches(XCODE_COMPILE@, text) || regex_matches(XCODE_LINK@, text) || regex_matches(
        XCODE_EMIT_MODULE@,
        text,
    )
}

/// Whether a line names a resolved package: it is not empty, noise, a banner, a
/// step or an error.
pub open spec fn names_package(line: Seq<char>) -> bool {
    let text = trimmed(line);
    tells(text) && !is_step(text) && regex_matches(RESOLVED_PACKAGE@, text) && !regex_matches(
        ERROR_LINE@,
        text,
    )
}

/// Whether a line is left for the tests and the warnings.
pub open spec fn is_left(text: Seq<char>) -> bool {
    tells(text) && !is_step(text) && (regex_matches(RESOLVED_PACKAGE@, text) ==> regex_matches(
        ERROR_LINE@,
        text,
    ))
}

proof fn lemma_summary_of_lines<B>(
    lines: Seq<Seq<char>>,
    f: spec_fn(XcodeEvent<Seq<char>>) -> Option<B>,
    h: spec_fn(Seq<char>) -> Option<B>,
)
    requires
        forall|line: Seq<char>| #[trigger] h(line) == f(xcode_event(xcode_line(line))),
    ensures
        xcode_events(lines.map_values(|line: Seq<char>| xcode_line(line))).filter_map(f)
            == lines.filter_map(h),
{
    let read = |line: Seq<char>| xcode_line(line);
    let class = |l: XcodeLine<Seq<char>, FoundText>| xcode_event(l);
    let after = |l: XcodeLine<Seq<char>, FoundText>| f(xcode_event(l));
    lemma_pick_mapped(lines.map_values(read), class, f, after);
    lemma_pick_mapped(lines, read, after, h);
}

/// The packages of the summary are the lines that name a resolved package, each
/// with its name and version, all of them, in the order of the output.
pub proof fn law_xcode_packages_are_lines(output: Seq<char>)
    ensures
        xcode_summary(xcode_lines(without_ansi(output))).packages == lines_of(
            without_ansi(output),
        ).filter_map(
            |line: Seq<char>|
                if names_package(line) {
                    Some(
                        (
                            group_text(regex_captures(RESOLVED_PACKAGE@, trimmed(line)), 1),
                            group_text(regex_captures(RESOLVED_PACKAGE@, trimmed(line)), 2),
                        ),
                    )
                } else {
                    None
                },
        ),
{
    let h = |line: Seq<char>|
        if names_package(line) {
            Some(
                (
                    group_text(regex_captures(RESOLVED_PACKAGE@, trimmed(line)), 1),
                    group_text(regex_captures(RESOLVED_PACKAGE@, trimmed(line)), 2),
                ),
            )
        } else {
            None
        };
    let f = |e: XcodeEvent<Seq<char>>|
        match e {
            XcodeEvent::Package { name, version } => Some((name, version)),
            _ => None,
        };
    lemma_summary_of_lines(lines_of(without_ansi(output)), f, h);
}

/// The compiled files of the summary are the lines with a compiler call, each with
/// its target and its file, all of them, in the order of the output.
pub proof fn law_xcode_compiled_are_lines(output: Seq<char>)
    ensures
        xcode_summary(xcode_lines(without_ansi(output))).compiled == lines_of(
            without_ansi(output),
        ).filter_map(
            |line: Seq<char>|
                if tells(trimmed(line)) && regex_matches(XCODE_COMPILE@, trimmed(line)) {
                    Some(
                        (
                            group_text(regex_captures(XCODE_COMPILE@, trimmed(line)), 2),
                            group_text(regex_captures(XCODE_COMPILE@, trimmed(line)), 1),
                        ),
                    )
                } else {
                    None
                },
        ),
{
    let h = |line: Seq<char>|
        if tells(trimmed(line)) && regex_matches(XCODE_COMPILE@, trimmed(line)) {
            Some(
                (
                    group_text(regex_captures(XCODE_COMPILE@, trimmed(line)), 2),
                    group_text(regex_captures(XCODE_COMPILE@, trimmed(line)), 1),
                ),
            )
        } else {
            None
        };
    let f = |e: XcodeEvent<Seq<char>>|
        match e {
            XcodeEvent::Compiled { target, file } => Some((target, file)),
            _ => None,
        };
    lemma_summary_of_lines(lines_of(without_ansi(output)), f, h);
}

/// The linked targets of the summary are the lines with a linker call, all of them,
/// in the order of the output.
pub proof fn law_xcode_linked_are_lines(output: Seq<char>)
    ensures
        xcode_summary(xcode_lines(without_ansi(output))).linked == lines_of(
            without_ansi(output),
        ).filter_map(
            |line: Seq<char>|
                if tells(trimmed(line)) && !regex_matches(XCODE_COMPILE@, trimmed(line))
                    && regex_matches(XCODE_LINK@, trimmed(line)) {
                    Some(group_text(regex_captures(XCODE_LINK@, trimmed(line)), 1))
                } else {
                    None
                },
        ),
{
    let h = |line: Seq<char>|
        if tells(trimmed(line)) && !regex_matches(XCODE_COMPILE@, trimmed(line)) && regex_matches(
            XCODE_LINK@,
            trimmed(line),
        ) {
            Some(group_text(regex_captures(XCODE_LINK@, trimmed(line)), 1))
        } else {
            None
        };
    let f = |e: XcodeEvent<Seq<char>>|
        match e {
            XcodeEvent::Linked(target) => Some(target),
            _ => None,
        };
    lemma_summary_of_lines(lines_of(without_ansi(output)), f, h);
}

/// The errors of the summary are the lines that match the pattern of errors, all of
/// them, whatever else they match, in the order of the output.
pub proof fn law_xcode_errors_are_lines(output: Seq<char>)
    ensures
        xcode_summary(xcode_lines(without_ansi(output))).errors == lines_of(
            without_ansi(output),
        ).filter_map(
            |line: Seq<char>|
                if trimmed(line).len() > 0 && regex_matches(ERROR_LINE@, trimmed(line)) {
                    Some(trimmed(line))
                } else {
                    None
                },
        ),
{
    let h = |line: Seq<char>|
        if trimmed(line).len() > 0 && regex_matches(ERROR_LINE@, trimmed(line)) {
            Some(trimmed(line))
        } else {
            None
        };
    let read = |line: Seq<char>| xcode_line(line);
    let f = |l: XcodeLine<Seq<char>, FoundText>| error_text(l);
    lemma_pick_mapped(lines_of(without_ansi(output)), read, f, h);
}

/// The warnings of the summary are the lines that match the pattern of warnings and
/// were not taken for anything else, all of them, in the order of the output.
pub proof fn law_xcode_warnings_are_lines(output: Seq<char>)
    ensures
        xcode_summary(xcode_lines(without_ansi(output))).warnings == lines_of(
            without_ansi(output),
        ).filter_map(
            |line: Seq<char>|
                if is_left(trimmed(line)) && !regex_matches(XCTEST_RESULT@, trimmed(line))
                    && !regex_matches(XCODE_TEST_RESULT@, trimmed(line)) && regex_matches(
                    WARNING_LINE@,
                    trimmed(line),
                ) && !regex_matches(ERROR_LINE@, trimmed(line)) {
                    Some(trimmed(line))
                } else {
                    None
                },
        ),
{
    let h = |line: Seq<char>|
        if is_left(trimmed(line)) && !regex_matches(XCTEST_RESULT@, trimmed(line))
            && !regex_matches(XCODE_TEST_RESULT@, trimmed(line)) && regex_matches(
            WARNING_LINE@,
            trimmed(line),
        ) && !regex_matches(ERROR_LINE@, trimmed(line)) {
            Some(trimmed(line))
        } else {
            None
        };
    let f = |e: XcodeEvent<Seq<char>>|
        match e {
            XcodeEvent::Warning(text) => Some(text),
            _ => None,
        };
    lemma_summary_of_lines(lines_of(without_ansi(output)), f, h);
}

/// Whether a line tells that a test passed.
pub open spec fn tells_pass(line: Seq<char>) -> bool {
    let text = trimmed(line);
    is_left(text) && if regex_matches(XCTEST_RESULT@, text) {
        group_text(regex_captures(XCTEST_RESULT@, text), 4) == "passed"@
    } else {
        regex_matches(XCODE_TEST_RESULT@, text) && group_text(
            regex_captures(XCODE_TEST_RESULT@, text),
            3,
        ) == "passed"@
    }
}

/// What a line tells of a test that did not pass: the suite, the test and the time.
pub open spec fn tells_failure(line: Seq<char>) -> Option<(Seq<char>, Seq<char>, Seq<char>)> {
    let text = trimmed(line);
    let quoted = regex_captures(XCTEST_RESULT@, text);
    let dotted = regex_captures(XCODE_TEST_RESULT@, text);
    if !is_left(text) || tells_pass(line) {
        None
    } else if quoted is Some {
        Some((group_text(quoted, 2), group_text(quoted, 3), group_text(quoted, 5)))
    } else if dotted is Some {
        Some((group_text(dotted, 1), group_text(dotted, 2), group_text(dotted, 4)))
    } else {
        None
    }
}

/// The failures of the summary are the lines with the result of a test that did not
/// pass, all of them, in the order of the output.
pub proof fn law_xcode_failures_are_lines(output: Seq<char>)
    ensures
        xcode_summary(xcode_lines(without_ansi(output))).failures == lines_of(
            without_ansi(output),
        ).filter_map(
            |line: Seq<char>|
                match tells_failure(line) {
                    Some((suite, test, time)) => Some(suite + "."@ + test + " ("@ + time + "s)"@),
                    None => None,
                },
        ),
{
    let h = |line: Seq<char>|
        match tells_failure(line) {
            Some((suite, test, time)) => Some(suite + "."@ + test + " ("@ + time + "s)"@),
            None => None,
        };
    let f = |e: XcodeEvent<Seq<char>>|
        match e {
            XcodeEvent::TestFailed(test) => Some(test),
            _ => None,
        };
    lemma_summary_of_lines(lines_of(without_ansi(output)), f, h);
}

/// The passes of the summary are as many as there are lines with the result of a
/// test that passed.
pub proof fn law_xcode_passes_are_lines(output: Seq<char>)
    ensures
        xcode_summary(xcode_lines(without_ansi(output))).passed == lines_of(
            without_ansi(output),
        ).filter_map(
            |line: Seq<char>|
                if tells_pass(line) {
                    Some(line)
                } else {
                    None
                },
        ).len(),
{
    lemma_passes_are_lines(lines_of(without_ansi(output)));
}

proof fn lemma_passes_are_lines(lines: Seq<Seq<char>>)
    ensures
        xcode_passed(xcode_events(lines.map_values(|line: Seq<char>| xcode_line(line))))
            == lines.filter_map(
            |line: Seq<char>|
                if tells_pass(line) {
                    Some(line)
                } else {
                    None
                },
        ).len(),
    decreases lines.len(),
{
    let read = |line: Seq<char>| xcode_line(line);
    let es = xcode_events(lines.map_values(read));
    if lines.len() > 0 {
        lemma_passes_are_lines(lines.drop_last());
        assert(es.drop_last() =~= xcode_events(lines.drop_last().map_values(read)));
    }
}

/// The result of the summary is the last banner of the output, and empty where the
/// output has none.
pub proof fn law_xcode_result_is_last_banner(output: Seq<char>)
    ensures
        xcode_summary(xcode_lines(without_ansi(output))).result == (match last_before(
            lines_of(without_ansi(output)),
            lines_of(without_ansi(output)).len() as int,
            |line: Seq<char>|
                trimmed(line).len() > 0 && regex_matches(XCODE_RESULT@, trimmed(line)),
        ) {
            Some(line) => trimmed(line),
            None => seq![],
        }),
{
    lemma_result_is_last_banner(lines_of(without_ansi(output)));
}

proof fn lemma_result_is_last_banner(lines: Seq<Seq<char>>)
    ensures
        xcode_result(xcode_events(lines.map_values(|line: Seq<char>| xcode_line(line)))) == (
        match last_before(
            lines,
            lines.len() as int,
            |line: Seq<char>|
                trimmed(line).len() > 0 && regex_matches(XCODE_RESULT@, trimmed(line)),
        ) {
            Some(line) => trimmed(line),
            None => seq![],
        }),
    decreases lines.len(),
{
    let read = |line: Seq<char>| xcode_line(line);
    let banner = |line: Seq<char>|
        trimmed(line).len() > 0 && regex_matches(XCODE_RESULT@, trimmed(line));
    let es = xcode_events(lines.map_values(read));
    if lines.len() > 0 {
        let n = lines.len() - 1;
        lemma_result_is_last_banner(lines.drop_last());
        assert(es.drop_last() =~= xcode_events(lines.drop_last().map_values(read)));
        assert(lines.drop_last() =~= lines.take(n));
        lemma_last_before_prefix(lines, n, n, banner);
    }
}

/// The report begins with the title. Then come the packages, the compiled targets,
/// the linked targets, the errors, the warnings, the tests and the result, each part
/// only where there is something to report.
pub proof fn law_xcode_layout(s: XcodeSummaryView)
    ensures
        xcode_report(s) == trimmed(
            "xcodebuild\n"@ + (if s.packages.len() > 0 {
                "Packages ("@ + decimal(s.packages.len()) + "):"@ + s.packages.map_values(
                    |p: (Seq<char>, Seq<char>)| " "@ + p.0 + "@"@ + p.1,
                ).flatten() + "\n"@
            } else {
                seq![]
            }) + grouped(s.compiled).map_values(
                |g: (Seq<char>, Seq<Seq<char>>)|
                    "Compiled "@ + g.0 + " ("@ + decimal(g.1.len()) + " files)\n"@,
            ).flatten() + (if s.linked.len() > 0 {
                "Linked: "@ + joined(s.linked, ", "@) + "\n"@
            } else {
                seq![]
            }) + section("\nErrors ("@, s.errors, 20) + section("\nWarnings ("@, s.warnings, 10)
                + (if s.failures.len() > 0 {
                "\nTests: "@ + decimal(s.passed) + " passed, "@ + decimal(s.failures.len())
                    + " failed (of "@ + decimal(s.passed + s.failures.len()) + ")\n"@ + capped(
                    s.failures,
                    "  FAIL "@,
                    20,
                    " more\n"@,
                )
            } else if s.passed > 0 {
                "\nTests: "@ + decimal(s.passed) + " passed, 0 failed\n"@
            } else {
                seq![]
            }) + (if s.result.len() > 0 {
                "\n"@ + s.result + "\n"@
            } else {
                seq![]
            }),
        ),
{
    lemma_package_list_flat(s.packages);
    lemma_compiled_flat(grouped(s.compiled));
}

proof fn lemma_package_list_flat(ps: Seq<(Seq<char>, Seq<char>)>)
    ensures
        package_list(ps) == ps.map_values(
            |p: (Seq<char>, Seq<char>)| " "@ + p.0 + "@"@ + p.1,
        ).flatten(),
    decreases ps.len(),
{
    let write = |p: (Seq<char>, Seq<char>)| " "@ + p.0 + "@"@ + p.1;
    let written = ps.map_values(write);
    written.lemma_flatten_and_flatten_alt_are_equivalent();
    if ps.len() > 0 {
        lemma_package_list_flat(ps.drop_last());
        assert(written.drop_last() =~= ps.drop_last().map_values(write));
        written.drop_last().lemma_flatten_and_flatten_alt_are_equivalent();
        assert(package_list(ps) =~= package_list(ps.drop_last()) + write(ps.last()));
    }
}

proof fn lemma_compiled_flat(g: Seq<(Seq<char>, Seq<Seq<char>>)>)
    ensures
        compiled_lines(g) == g.map_values(
            |g: (Seq<char>, Seq<Seq<char>>)|
                "Compiled "@ + g.0 + " ("@ + decimal(g.1.len()) + " files)\n"@,
        ).flatten(),
    decreases g.len(),
{
    let write = |g: (Seq<char>, Seq<Seq<char>>)|
        "Compiled "@ + g.0 + " ("@ + decimal(g.1.len()) + " files)\n"@;
    let written = g.map_values(write);
    written.lemma_flatten_and_flatten_alt_are_equivalent();
    if g.len() > 0 {
        lemma_compiled_flat(g.drop_last());
        assert(written.drop_last() =~= g.drop_last().map_values(write));
        written.drop_last().lemma_flatten_and_flatten_alt_are_equivalent();
        assert(compiled_lines(g) =~= compiled_lines(g.drop_last()) + write(g.last()));
    }
}

/// Whether a line is one that only a build or a test run prints.
pub open spec fn shows_build(line: Seq<char>) -> bool {
    let text = trimmed(line);
    text.len() > 0 && (is_step(text) || regex_matches(XCODE_RESULT@, text) || regex_matches(
        XCTEST_RESULT@,
        text,
    ) || regex_matches(XCODE_TEST_RESULT@, text) || regex_matches(ERROR_LINE@, text)
        || regex_matches(WARNING_LINE@, text) || regex_matches(RESOLVED_PACKAGE@, text))
}

/// Output with a line that only a build or a test run prints is reported on, and so
/// is empty output. Other output comes back as it is, without the escape sequences
/// and the whitespace at its ends.
pub proof fn law_xcode_reported_or_passed_on(output: Seq<char>)
    ensures
        ({
            let clean = without_ansi(output);
            let lines = lines_of(clean);
            if trimmed(clean).len() == 0 || exists|i: int|
                0 <= i < lines.len() && shows_build(#[trigger] lines[i]) {
                xcodebuild_filtered(output) == xcode_report(xcode_summary(xcode_lines(clean)))
            } else {
                xcodebuild_filtered(output) == trimmed(clean)
            }
        }),
{
    let clean = without_ansi(output);
    let lines = lines_of(clean);
    let ls = xcode_lines(clean);
    assert forall|i: int| 0 <= i < lines.len() implies shows_build(#[trigger] lines[i])
        == is_build_marker(ls[i]) by {}
    if exists|i: int| 0 <= i < lines.len() && shows_build(#[trigger] lines[i]) {
        let i = choose|i: int| 0 <= i < lines.len() && shows_build(#[trigger] lines[i]);
        assert(is_build_marker(ls[i]));
    } else if any_build_marker(ls) {
        let i = choose|i: int| 0 <= i < ls.len() && is_build_marker(#[trigger] ls[i]);
        assert(shows_build(lines[i]));
    }
}

/// Each line that names a resolved package is in the report with its name and
/// version, in the order of the output, and the number behind `Packages (` is the
/// number of these lines. (The last version ends in no whitespace, as the pattern
/// has it.)
pub proof fn law_xcode_packages_reported(output: Seq<char>)
    requires
        ({
            let named = lines_of(without_ansi(output)).filter_map(
                |line: Seq<char>|
                    if names_package(line) {
                        Some(
                            (
                                group_text(regex_captures(RESOLVED_PACKAGE@, trimmed(line)), 1),
                                group_text(regex_captures(RESOLVED_PACKAGE@, trimmed(line)), 2),
                            ),
                        )
                    } else {
                        None
                    },
            );
            named.len() > 0 && named.last().1.len() > 0 && !is_space(named.last().1.last())
        }),
    ensures
        ({
            let named = lines_of(without_ansi(output)).filter_map(
                |line: Seq<char>|
                    if names_package(line) {
                        Some(
                            (
                                group_text(regex_captures(RESOLVED_PACKAGE@, trimmed(line)), 1),
                                group_text(regex_captures(RESOLVED_PACKAGE@, trimmed(line)), 2),
                            ),
                        )
                    } else {
                        None
                    },
            );
            begins_with(
                xcodebuild_filtered(output),
                "xcodebuild\n"@ + ("Packages ("@ + decimal(named.len()) + "):"@ + named.map_values(
                    |p: (Seq<char>, Seq<char>)| " "@ + p.0 + "@"@ + p.1,
                ).flatten()),
            )
        }),
{
    let clean = without_ansi(output);
    let lines = lines_of(clean);
    let s = xcode_summary(xcode_lines(clean));
    law_xcode_packages_are_lines(output);
    law_xcode_reported_or_passed_on(output);
    let pick = |line: Seq<char>|
        if names_package(line) {
            Some(
                (
                    group_text(regex_captures(RESOLVED_PACKAGE@, trimmed(line)), 1),
                    group_text(regex_captures(RESOLVED_PACKAGE@, trimmed(line)), 2),
                ),
            )
        } else {
            None
        };
    let i = lemma_picked_from(lines, pick, s.packages.len() - 1);
    assert(shows_build(lines[i]));
    lemma_package_list_flat(s.packages);
    lemma_packages_begin(s);
}

proof fn lemma_packages_begin(s: XcodeSummaryView)
    requires
        s.packages.len() > 0,
        s.packages.last().1.len() > 0,
        !is_space(s.packages.last().1.last()),
    ensures
        begins_with(
            xcode_report(s),
            "xcodebuild\n"@ + ("Packages ("@ + decimal(s.packages.len()) + "):"@ + package_list(
                s.packages,
            )),
        ),
{
    let title = "xcodebuild\n"@;
    let list = "Packages ("@ + decimal(s.packages.len()) + "):"@ + package_list(s.packages);
    let head = title + list;
    assert(head.len() > 0 && !is_space(head[0])) by {
        reveal_strlit("xcodebuild\n");
    }
    assert(head.last() == s.packages.last().1.last());
    lemma_begun(
        title,
        list,
        "\n"@,
        compiled_lines(grouped(s.compiled)),
        linked_part(s.linked),
        section("\nErrors ("@, s.errors, 20),
        section("\nWarnings ("@, s.warnings, 10),
        tests_part(s.passed, s.failures),
        closing(s.result),
    );
    lemma_head_first(
        head,
        "\n"@ + compiled_lines(grouped(s.compiled)) + linked_part(s.linked) + section(
            "\nErrors ("@,
            s.errors,
            20,
        ) + section("\nWarnings ("@, s.warnings, 10) + tests_part(s.passed, s.failures) + closing(
            s.result,
        ),
    );
}

proof fn lemma_begun(
    a: Seq<char>,
    b: Seq<char>,
    c: Seq<char>,
    d: Seq<char>,
    e: Seq<char>,
    f: Seq<char>,
    g: Seq<char>,
    h: Seq<char>,
    i: Seq<char>,
)
    ensures
        a + (b + c) + d + e + f + g + h + i == (a + b) + (c + d + e + f + g + h + i),
{
    assert(a + (b + c) + d + e + f + g + h + i =~= (a + b) + (c + d + e + f + g + h + i));
}

proof fn lemma_picked_from<A, B>(s: Seq<A>, f: spec_fn(A) -> Option<B>, k: int) -> (i: int)
    requires
        0 <= k < s.filter_map(f).len(),
    ensures
        0 <= i < s.len(),
        f(s[i]) == Some(s.filter_map(f)[k]),
    decreases s.len(),
{
    if k < s.drop_last().filter_map(f).len() {
        lemma_picked_from(s.drop_last(), f, k)
    } else {
        s.len() - 1
    }
}

} // verus!
