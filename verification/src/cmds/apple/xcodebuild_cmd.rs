//! Filters `xcodebuild` output: strips compiler invocations, DerivedData paths and
//! build system noise; keeps errors, warnings, resolved packages, test results and
//! the final status.

use crate::ansi::{strip_ansi, without_ansi};
use crate::groups::{group_total, grouped, keys_ascend, law_group_total, law_grouped, Groups};
use crate::invocation::{copied, notice, notice_of, Filter, Invocation, InvocationView};
use crate::pattern::{
    group_text, regex_captures, regex_matches, Found, FoundText, Pattern, ERROR_LINE,
    RESOLVED_PACKAGE, WARNING_LINE, XCODE_COMPILE, XCODE_EMIT_MODULE, XCODE_LINK, XCODE_NOISE,
    XCODE_RESULT, XCODE_TEST_RESULT, XCTEST_RESULT,
};
use crate::report::{
    all_trimmed, capped, capped_lines, closing, closing_text, ends_line, in_order, is_trimmed,
    law_picked_in_order, law_trimmed_is_trimmed, lemma_capped_ends, lemma_capped_keeps,
    lemma_closes, lemma_joined_keeps, lemma_line_ends, lemma_note_survives, lemma_occurs_after_trim,
    lemma_occurs_in_begun, lemma_occurs_in_itself, lemma_occurs_in_middle, lemma_occurs_in_parts,
    lemma_occurs_through, lemma_section_ends, lemma_section_survives, listed, remainder_note,
    section, section_text, shown,
};
use crate::text::{
    begins_with, decimal, decimal_text, decimal_wide, is_space, join, joined, lines, lines_of,
    occurs, same_text, stands_at, trim, trimmed, views,
};
use vstd::prelude::*;

verus! {

// ─── Lines ──────────────────────────────────────────────────────────────────

/// A trimmed line with what each pattern finds in it. `T` is the type of text,
/// `F` that of a search result.
pub struct XcodeLine<T, F> {
    pub text: T,
    pub noise: bool,
    pub compile: F,
    pub link: F,
    pub emit_module: bool,
    pub package: F,
    pub xctest: F,
    pub test: F,
    pub result: bool,
    pub error: bool,
    pub warning: bool,
}

impl View for XcodeLine<String, Found> {
    type V = XcodeLine<Seq<char>, FoundText>;

    open spec fn view(&self) -> XcodeLine<Seq<char>, FoundText> {
        XcodeLine {
            text: self.text@,
            noise: self.noise,
            compile: self.compile@,
            link: self.link@,
            emit_module: self.emit_module,
            package: self.package@,
            xctest: self.xctest@,
            test: self.test@,
            result: self.result,
            error: self.error,
            warning: self.warning,
        }
    }
}

/// What the patterns find in a line of output.
pub open spec fn xcode_line(line: Seq<char>) -> XcodeLine<Seq<char>, FoundText> {
    let text = trimmed(line);
    XcodeLine {
        text,
        noise: regex_matches(XCODE_NOISE@, text),
        compile: regex_captures(XCODE_COMPILE@, text),
        link: regex_captures(XCODE_LINK@, text),
        emit_module: regex_matches(XCODE_EMIT_MODULE@, text),
        package: regex_captures(RESOLVED_PACKAGE@, text),
        xctest: regex_captures(XCTEST_RESULT@, text),
        test: regex_captures(XCODE_TEST_RESULT@, text),
        result: regex_matches(XCODE_RESULT@, text),
        error: regex_matches(ERROR_LINE@, text),
        warning: regex_matches(WARNING_LINE@, text),
    }
}

/// What the patterns find in each line of `clean`.
pub open spec fn xcode_lines(clean: Seq<char>) -> Seq<XcodeLine<Seq<char>, FoundText>> {
    lines_of(clean).map_values(|line: Seq<char>| xcode_line(line))
}

/// Searches each line of `clean` for the patterns.
pub fn read_xcode_lines(clean: &str) -> (r: Vec<XcodeLine<String, Found>>)
    ensures
        views(r@) == xcode_lines(clean@),
{
    let noise = Pattern::compile(XCODE_NOISE);
    let compile = Pattern::compile(XCODE_COMPILE);
    let link = Pattern::compile(XCODE_LINK);
    let emit_module = Pattern::compile(XCODE_EMIT_MODULE);
    let package = Pattern::compile(RESOLVED_PACKAGE);
    let xctest = Pattern::compile(XCTEST_RESULT);
    let test = Pattern::compile(XCODE_TEST_RESULT);
    let result = Pattern::compile(XCODE_RESULT);
    let error = Pattern::compile(ERROR_LINE);
    let warning = Pattern::compile(WARNING_LINE);
    let raw = lines(clean);
    let mut out: Vec<XcodeLine<String, Found>> = Vec::new();
    for i in 0..raw.len()
        invariant
            noise.source() == XCODE_NOISE@,
            compile.source() == XCODE_COMPILE@,
            link.source() == XCODE_LINK@,
            emit_module.source() == XCODE_EMIT_MODULE@,
            package.source() == RESOLVED_PACKAGE@,
            xctest.source() == XCTEST_RESULT@,
            test.source() == XCODE_TEST_RESULT@,
            result.source() == XCODE_RESULT@,
            error.source() == ERROR_LINE@,
            warning.source() == WARNING_LINE@,
            views(raw@) == lines_of(clean@),
            views(out@) == xcode_lines(clean@).take(i as int),
    {
        let text = trim(raw[i].as_str());
        let line = XcodeLine {
            noise: noise.is_match(text.as_str()),
            compile: compile.captures(text.as_str()),
            link: link.captures(text.as_str()),
            emit_module: emit_module.is_match(text.as_str()),
            package: package.captures(text.as_str()),
            xctest: xctest.captures(text.as_str()),
            test: test.captures(text.as_str()),
            result: result.is_match(text.as_str()),
            error: error.is_match(text.as_str()),
            warning: warning.is_match(text.as_str()),
            text,
        };
        assert(line@ == xcode_line(views(raw@)[i as int]));
        assert(xcode_lines(clean@)[i as int] == line@);
        let ghost before = views(out@);
        out.push(line);
        assert(views(out@) =~= before.push(line@));
        assert(views(out@) =~= xcode_lines(clean@).take(i + 1));
    }
    assert(views(out@) =~= xcode_lines(clean@));
    out
}

/// Whether a line holds a marker of build output.
pub open spec fn is_build_marker(line: XcodeLine<Seq<char>, FoundText>) -> bool {
    line.text.len() > 0 && (line.compile is Some || line.link is Some || line.emit_module
        || line.result || line.xctest is Some || line.test is Some || line.error || line.warning
        || line.package is Some)
}

/// Whether any line holds a marker of build output.
pub open spec fn any_build_marker(ls: Seq<XcodeLine<Seq<char>, FoundText>>) -> bool {
    exists|i: int| 0 <= i < ls.len() && is_build_marker(#[trigger] ls[i])
}

/// Whether the output holds anything that the filter knows: a compile, link or
/// emit line, a result banner, a test result, an error, a warning or a resolved
/// package. Other output comes from an informational subcommand (`-list`,
/// `-version`, `-showsdks`).
pub fn looks_like_build_output(ls: &Vec<XcodeLine<String, Found>>) -> (r: bool)
    ensures
        r == any_build_marker(views(ls@)),
{
    for i in 0..ls.len()
        invariant
            forall|j: int| 0 <= j < i ==> !is_build_marker(#[trigger] views(ls@)[j]),
    {
        let l = &ls[i];
        assert(views(ls@)[i as int] == l@);
        if !l.text.as_str().is_empty() && (l.compile.is_match() || l.link.is_match()
            || l.emit_module || l.result || l.xctest.is_match() || l.test.is_match() || l.error
            || l.warning || l.package.is_match()) {
            return true;
        }
    }
    false
}

// ─── Events ─────────────────────────────────────────────────────────────────

/// What a line reports, errors aside.
pub enum XcodeEvent<T> {
    Ignored,
    Compiled { target: T, file: T },
    Linked(T),
    Package { name: T, version: T },
    TestPassed,
    TestFailed(T),
    Result(T),
    Warning(T),
}

impl View for XcodeEvent<String> {
    type V = XcodeEvent<Seq<char>>;

    open spec fn view(&self) -> XcodeEvent<Seq<char>> {
        match self {
            XcodeEvent::Ignored => XcodeEvent::Ignored,
            XcodeEvent::Compiled { target, file } => XcodeEvent::Compiled {
                target: target@,
                file: file@,
            },
            XcodeEvent::Linked(target) => XcodeEvent::Linked(target@),
            XcodeEvent::Package { name, version } => XcodeEvent::Package {
                name: name@,
                version: version@,
            },
            XcodeEvent::TestPassed => XcodeEvent::TestPassed,
            XcodeEvent::TestFailed(test) => XcodeEvent::TestFailed(test@),
            XcodeEvent::Result(text) => XcodeEvent::Result(text@),
            XcodeEvent::Warning(text) => XcodeEvent::Warning(text@),
        }
    }
}

/// `Suite.test (0.1s)`.
pub open spec fn failure_text(
    suite: Seq<char>,
    test: Seq<char>,
    duration: Seq<char>,
) -> Seq<char> {
    suite + "."@ + test + " ("@ + duration + "s)"@
}

/// Writes `Suite.test (0.1s)`.
pub fn describe_failure(suite: &str, test: &str, duration: &str) -> (r: String)
    ensures
        r@ == failure_text(suite@, test@, duration@),
{
    let mut out = suite.to_owned();
    out.append(".");
    out.append(test);
    out.append(" (");
    out.append(duration);
    out.append("s)");
    out
}

/// What a line reports, errors aside: the first of the rules below that applies. A
/// line that reports an error is on the list of errors whatever it reports besides,
/// so that no rule can hide it; it is taken for neither a package nor a warning.
pub open spec fn xcode_event(l: XcodeLine<Seq<char>, FoundText>) -> XcodeEvent<Seq<char>> {
    if l.text.len() == 0 {
        XcodeEvent::Ignored
    } else if l.result {
        XcodeEvent::Result(l.text)
    } else if l.noise {
        XcodeEvent::Ignored
    } else if l.compile is Some {
        XcodeEvent::Compiled { target: group_text(l.compile, 2), file: group_text(l.compile, 1) }
    } else if l.link is Some {
        XcodeEvent::Linked(group_text(l.link, 1))
    } else if l.emit_module {
        XcodeEvent::Ignored
    } else if l.package is Some && !l.error {
        XcodeEvent::Package { name: group_text(l.package, 1), version: group_text(l.package, 2) }
    } else if l.xctest is Some {
        if group_text(l.xctest, 4) == "passed"@ {
            XcodeEvent::TestPassed
        } else {
            XcodeEvent::TestFailed(
                failure_text(
                    group_text(l.xctest, 2),
                    group_text(l.xctest, 3),
                    group_text(l.xctest, 5),
                ),
            )
        }
    } else if l.test is Some {
        if group_text(l.test, 3) == "passed"@ {
            XcodeEvent::TestPassed
        } else {
            XcodeEvent::TestFailed(
                failure_text(group_text(l.test, 1), group_text(l.test, 2), group_text(l.test, 4)),
            )
        }
    } else if l.warning && !l.error {
        XcodeEvent::Warning(l.text)
    } else {
        XcodeEvent::Ignored
    }
}

/// Tells what a line reports.
pub fn classify_xcode_line(l: &XcodeLine<String, Found>) -> (r: XcodeEvent<String>)
    ensures
        r@ == xcode_event(l@),
{
    if l.text.as_str().is_empty() {
        XcodeEvent::Ignored
    } else if l.result {
        XcodeEvent::Result(l.text.clone())
    } else if l.noise {
        XcodeEvent::Ignored
    } else if l.compile.is_match() {
        XcodeEvent::Compiled { target: l.compile.group(2), file: l.compile.group(1) }
    } else if l.link.is_match() {
        XcodeEvent::Linked(l.link.group(1))
    } else if l.emit_module {
        XcodeEvent::Ignored
    } else if l.package.is_match() && !l.error {
        XcodeEvent::Package { name: l.package.group(1), version: l.package.group(2) }
    } else if l.xctest.is_match() {
        if same_text(l.xctest.group(4).as_str(), "passed") {
            XcodeEvent::TestPassed
        } else {
            XcodeEvent::TestFailed(
                describe_failure(
                    l.xctest.group(2).as_str(),
                    l.xctest.group(3).as_str(),
                    l.xctest.group(5).as_str(),
                ),
            )
        }
    } else if l.test.is_match() {
        if same_text(l.test.group(3).as_str(), "passed") {
            XcodeEvent::TestPassed
        } else {
            XcodeEvent::TestFailed(
                describe_failure(
                    l.test.group(1).as_str(),
                    l.test.group(2).as_str(),
                    l.test.group(4).as_str(),
                ),
            )
        }
    } else if l.warning && !l.error {
        XcodeEvent::Warning(l.text.clone())
    } else {
        XcodeEvent::Ignored
    }
}

/// What each line reports.
pub open spec fn xcode_events(ls: Seq<XcodeLine<Seq<char>, FoundText>>) -> Seq<
    XcodeEvent<Seq<char>>,
> {
    ls.map_values(|l: XcodeLine<Seq<char>, FoundText>| xcode_event(l))
}

// ─── Summary ────────────────────────────────────────────────────────────────

/// The summary of a run, as text sequences.
pub struct XcodeSummaryView {
    pub packages: Seq<(Seq<char>, Seq<char>)>,
    pub compiled: Seq<(Seq<char>, Seq<char>)>,
    pub linked: Seq<Seq<char>>,
    pub errors: Seq<Seq<char>>,
    pub warnings: Seq<Seq<char>>,
    pub passed: nat,
    pub failures: Seq<Seq<char>>,
    pub result: Seq<char>,
}

/// The summary of a run: the resolved packages (name, version), the compiled files
/// (target, file), the linked targets, the errors and warnings, the test results
/// and the result banner, each in the order of the output.
pub struct XcodeSummary {
    pub packages: Vec<(String, String)>,
    pub compiled: Vec<(String, String)>,
    pub linked: Vec<String>,
    pub errors: Vec<String>,
    pub warnings: Vec<String>,
    pub passed: usize,
    pub failures: Vec<String>,
    pub result: String,
}

impl View for XcodeSummary {
    type V = XcodeSummaryView;

    open spec fn view(&self) -> XcodeSummaryView {
        XcodeSummaryView {
            packages: views(self.packages@),
            compiled: views(self.compiled@),
            linked: views(self.linked@),
            errors: views(self.errors@),
            warnings: views(self.warnings@),
            passed: self.passed as nat,
            failures: views(self.failures@),
            result: self.result@,
        }
    }
}

/// The resolved packages among `es`.
pub open spec fn xcode_packages(es: Seq<XcodeEvent<Seq<char>>>) -> Seq<(Seq<char>, Seq<char>)> {
    es.filter_map(
        |e: XcodeEvent<Seq<char>>|
            match e {
                XcodeEvent::Package { name, version } => Some((name, version)),
                _ => None,
            },
    )
}

/// The compiled files among `es`, each behind its target.
pub open spec fn xcode_compiled(es: Seq<XcodeEvent<Seq<char>>>) -> Seq<(Seq<char>, Seq<char>)> {
    es.filter_map(
        |e: XcodeEvent<Seq<char>>|
            match e {
                XcodeEvent::Compiled { target, file } => Some((target, file)),
                _ => None,
            },
    )
}

/// The linked targets among `es`.
pub open spec fn xcode_linked(es: Seq<XcodeEvent<Seq<char>>>) -> Seq<Seq<char>> {
    es.filter_map(
        |e: XcodeEvent<Seq<char>>|
            match e {
                XcodeEvent::Linked(target) => Some(target),
                _ => None,
            },
    )
}

/// The text of a line that reports an error.
pub open spec fn error_text(l: XcodeLine<Seq<char>, FoundText>) -> Option<Seq<char>> {
    if l.text.len() > 0 && l.error {
        Some(l.text)
    } else {
        None
    }
}

/// The lines among `ls` that report an error.
pub open spec fn xcode_errors(ls: Seq<XcodeLine<Seq<char>, FoundText>>) -> Seq<Seq<char>> {
    ls.filter_map(|l: XcodeLine<Seq<char>, FoundText>| error_text(l))
}

/// The warning lines among `es`.
pub open spec fn xcode_warnings(es: Seq<XcodeEvent<Seq<char>>>) -> Seq<Seq<char>> {
    es.filter_map(
        |e: XcodeEvent<Seq<char>>|
            match e {
                XcodeEvent::Warning(text) => Some(text),
                _ => None,
            },
    )
}

/// The failed tests among `es`.
pub open spec fn xcode_failures(es: Seq<XcodeEvent<Seq<char>>>) -> Seq<Seq<char>> {
    es.filter_map(
        |e: XcodeEvent<Seq<char>>|
            match e {
                XcodeEvent::TestFailed(test) => Some(test),
                _ => None,
            },
    )
}

/// The number of passed tests among `es`.
pub open spec fn xcode_passed(es: Seq<XcodeEvent<Seq<char>>>) -> nat
    decreases es.len(),
{
    if es.len() == 0 {
        0
    } else if es.last() is TestPassed {
        xcode_passed(es.drop_last()) + 1
    } else {
        xcode_passed(es.drop_last())
    }
}

/// The last result banner among `es`; empty if there is none.
pub open spec fn xcode_result(es: Seq<XcodeEvent<Seq<char>>>) -> Seq<char>
    decreases es.len(),
{
    if es.len() == 0 {
        seq![]
    } else {
        match es.last() {
            XcodeEvent::Result(text) => text,
            _ => xcode_result(es.drop_last()),
        }
    }
}

/// The summary of what the lines report.
pub open spec fn xcode_summary(ls: Seq<XcodeLine<Seq<char>, FoundText>>) -> XcodeSummaryView {
    let es = xcode_events(ls);
    XcodeSummaryView {
        packages: xcode_packages(es),
        compiled: xcode_compiled(es),
        linked: xcode_linked(es),
        errors: xcode_errors(ls),
        warnings: xcode_warnings(es),
        passed: xcode_passed(es),
        failures: xcode_failures(es),
        result: xcode_result(es),
    }
}

/// Sums up what the lines report.
pub fn summarize_xcode(ls: &Vec<XcodeLine<String, Found>>) -> (r: XcodeSummary)
    ensures
        r@ == xcode_summary(views(ls@)),
{
    let mut packages: Vec<(String, String)> = Vec::new();
    let mut compiled: Vec<(String, String)> = Vec::new();
    let mut linked: Vec<String> = Vec::new();
    let mut errors: Vec<String> = Vec::new();
    let mut warnings: Vec<String> = Vec::new();
    let mut passed: usize = 0;
    let mut failures: Vec<String> = Vec::new();
    let mut result = String::new();
    let ghost all = views(ls@);
    let ghost es = xcode_events(all);
    for i in 0..ls.len()
        invariant
            all == views(ls@),
            es == xcode_events(all),
            views(packages@) == xcode_packages(es.take(i as int)),
            views(compiled@) == xcode_compiled(es.take(i as int)),
            views(linked@) == xcode_linked(es.take(i as int)),
            views(errors@) == xcode_errors(all.take(i as int)),
            views(warnings@) == xcode_warnings(es.take(i as int)),
            passed == xcode_passed(es.take(i as int)),
            views(failures@) == xcode_failures(es.take(i as int)),
            result@ == xcode_result(es.take(i as int)),
            passed + failures@.len() <= i,
    {
        assert(es.take(i + 1).drop_last() =~= es.take(i as int));
        let event = classify_xcode_line(&ls[i]);
        assert(es.take(i + 1).last() == event@);
        assert(all.take(i + 1).drop_last() =~= all.take(i as int));
        assert(all.take(i + 1).last() == ls@[i as int]@);
        if !ls[i].text.as_str().is_empty() && ls[i].error {
            errors.push(ls[i].text.clone());
        }
        match event {
            XcodeEvent::Ignored => {},
            XcodeEvent::Compiled { target, file } => {
                compiled.push((target, file));
            },
            XcodeEvent::Linked(target) => {
                linked.push(target);
            },
            XcodeEvent::Package { name, version } => {
                packages.push((name, version));
            },
            XcodeEvent::TestPassed => {
                passed += 1;
            },
            XcodeEvent::TestFailed(test) => {
                failures.push(test);
            },
            XcodeEvent::Result(text) => {
                result = text;
            },
            XcodeEvent::Warning(text) => {
                warnings.push(text);
            },
        }
        assert(views(packages@) =~= xcode_packages(es.take(i + 1)));
        assert(views(compiled@) =~= xcode_compiled(es.take(i + 1)));
        assert(views(linked@) =~= xcode_linked(es.take(i + 1)));
        assert(views(errors@) =~= xcode_errors(all.take(i + 1)));
        assert(views(warnings@) =~= xcode_warnings(es.take(i + 1)));
        assert(views(failures@) =~= xcode_failures(es.take(i + 1)));
    }
    assert(es.take(es.len() as int) =~= es);
    assert(all.take(all.len() as int) =~= all);
    XcodeSummary { packages, compiled, linked, errors, warnings, passed, failures, result }
}

// ─── Report ─────────────────────────────────────────────────────────────────

/// ` name@version` for each package.
pub open spec fn package_list(ps: Seq<(Seq<char>, Seq<char>)>) -> Seq<char>
    decreases ps.len(),
{
    if ps.len() == 0 {
        seq![]
    } else {
        package_list(ps.drop_last()) + " "@ + ps.last().0 + "@"@ + ps.last().1
    }
}

/// The line of resolved packages, if there are any.
pub open spec fn packages_part(ps: Seq<(Seq<char>, Seq<char>)>) -> Seq<char> {
    if ps.len() == 0 {
        seq![]
    } else {
        "Packages ("@ + decimal(ps.len()) + "):"@ + package_list(ps) + "\n"@
    }
}

/// One line per target with the number of its compiled files.
pub open spec fn compiled_lines(g: Seq<(Seq<char>, Seq<Seq<char>>)>) -> Seq<char>
    decreases g.len(),
{
    if g.len() == 0 {
        seq![]
    } else {
        compiled_lines(g.drop_last()) + "Compiled "@ + g.last().0 + " ("@ + decimal(
            g.last().1.len(),
        ) + " files)\n"@
    }
}

/// The line of linked targets, if there are any.
pub open spec fn linked_part(linked: Seq<Seq<char>>) -> Seq<char> {
    if linked.len() == 0 {
        seq![]
    } else {
        "Linked: "@ + joined(linked, ", "@) + "\n"@
    }
}

/// The test results, if any test ran.
pub open spec fn tests_part(passed: nat, failures: Seq<Seq<char>>) -> Seq<char> {
    if passed + failures.len() == 0 {
        seq![]
    } else if failures.len() == 0 {
        "\nTests: "@ + decimal(passed) + " passed, 0 failed\n"@
    } else {
        "\nTests: "@ + decimal(passed) + " passed, "@ + decimal(failures.len()) + " failed (of "@
            + decimal(passed + failures.len()) + ")\n"@ + capped(
            failures,
            "  FAIL "@,
            20,
            " more\n"@,
        )
    }
}

/// The report before it is trimmed.
pub open spec fn xcode_body(s: XcodeSummaryView) -> Seq<char> {
    "xcodebuild\n"@ + packages_part(s.packages) + compiled_lines(grouped(s.compiled))
        + linked_part(s.linked) + section("\nErrors ("@, s.errors, 20) + section(
        "\nWarnings ("@,
        s.warnings,
        10,
    ) + tests_part(s.passed, s.failures) + closing(s.result)
}

/// The report on a run.
pub open spec fn xcode_report(s: XcodeSummaryView) -> Seq<char> {
    trimmed(xcode_body(s))
}

fn packages_text(ps: &Vec<(String, String)>) -> (r: String)
    ensures
        r@ == packages_part(views(ps@)),
{
    if ps.len() == 0 {
        return String::new();
    }
    let mut out = "Packages (".to_owned();
    out.append(decimal_text(ps.len()).as_str());
    out.append("):");
    let ghost head = out@;
    let ghost all = views(ps@);
    assert(head + package_list(all.take(0)) =~= head);
    for i in 0..ps.len()
        invariant
            all == views(ps@),
            out@ == head + package_list(all.take(i as int)),
    {
        assert(all.take(i + 1).drop_last() =~= all.take(i as int));
        out.append(" ");
        out.append(ps[i].0.as_str());
        out.append("@");
        out.append(ps[i].1.as_str());
        assert(out@ =~= head + package_list(all.take(i + 1)));
    }
    assert(all.take(all.len() as int) =~= all);
    out.append("\n");
    out
}

fn compiled_text(compiled: &Vec<(String, String)>) -> (r: String)
    ensures
        r@ == compiled_lines(grouped(views(compiled@))),
{
    let mut groups: Groups<String> = Groups::new();
    let ghost all = views(compiled@);
    for i in 0..compiled.len()
        invariant
            all == views(compiled@),
            groups@ == grouped(all.take(i as int)),
    {
        assert(all.take(i + 1).drop_last() =~= all.take(i as int));
        groups.add(compiled[i].0.as_str(), compiled[i].1.clone());
    }
    assert(all.take(all.len() as int) =~= all);
    let ghost g = groups@;
    let mut out = String::new();
    for i in 0..groups.entries.len()
        invariant
            g == groups@,
            out@ == compiled_lines(g.take(i as int)),
    {
        assert(g.take(i + 1).drop_last() =~= g.take(i as int));
        let entry = &groups.entries[i];
        assert(g[i as int] == (entry.0@, views(entry.1@)));
        out.append("Compiled ");
        out.append(entry.0.as_str());
        out.append(" (");
        out.append(decimal_text(entry.1.len()).as_str());
        out.append(" files)\n");
    }
    assert(g.take(g.len() as int) =~= g);
    out
}

fn linked_text(linked: &Vec<String>) -> (r: String)
    ensures
        r@ == linked_part(views(linked@)),
{
    if linked.len() == 0 {
        return String::new();
    }
    let mut out = "Linked: ".to_owned();
    out.append(join(linked, ", ").as_str());
    out.append("\n");
    out
}

fn tests_text(passed: usize, failures: &Vec<String>) -> (r: String)
    ensures
        r@ == tests_part(passed as nat, views(failures@)),
{
    let failed: usize = failures.len();
    if passed == 0 && failed == 0 {
        return String::new();
    }
    let mut out = "\nTests: ".to_owned();
    out.append(decimal_text(passed).as_str());
    if failed == 0 {
        out.append(" passed, 0 failed\n");
    } else {
        out.append(" passed, ");
        out.append(decimal_text(failed).as_str());
        out.append(" failed (of ");
        out.append(decimal_wide(passed as u128 + failed as u128).as_str());
        out.append(")\n");
        out.append(capped_lines(failures, "  FAIL ", 20, " more\n").as_str());
    }
    out
}

/// Writes the report on a run.
pub fn render_xcode(s: &XcodeSummary) -> (r: String)
    ensures
        r@ == xcode_report(s@),
{
    let mut out = "xcodebuild\n".to_owned();
    out.append(packages_text(&s.packages).as_str());
    out.append(compiled_text(&s.compiled).as_str());
    out.append(linked_text(&s.linked).as_str());
    out.append(section_text("\nErrors (", &s.errors, 20).as_str());
    out.append(section_text("\nWarnings (", &s.warnings, 10).as_str());
    out.append(tests_text(s.passed, &s.failures).as_str());
    out.append(closing_text(s.result.as_str()).as_str());
    trim(out.as_str())
}

/// What the filter makes of clean output, given what the patterns find in it:
/// output without any marker passes through, other output becomes a report.
pub open spec fn xcode_condensed(
    clean: Seq<char>,
    ls: Seq<XcodeLine<Seq<char>, FoundText>>,
) -> Seq<char> {
    if trimmed(clean).len() > 0 && !any_build_marker(ls) {
        trimmed(clean)
    } else {
        xcode_report(xcode_summary(ls))
    }
}

/// Condenses clean output, given what the patterns find in it.
pub fn condense_xcode(clean: &str, ls: &Vec<XcodeLine<String, Found>>) -> (r: String)
    ensures
        r@ == xcode_condensed(clean@, views(ls@)),
{
    let text = trim(clean);
    if !text.as_str().is_empty() && !looks_like_build_output(ls) {
        text
    } else {
        render_xcode(&summarize_xcode(ls))
    }
}

/// What the filter makes of raw output.
pub open spec fn xcodebuild_filtered(output: Seq<char>) -> Seq<char> {
    let clean = without_ansi(output);
    xcode_condensed(clean, xcode_lines(clean))
}

/// Condenses the output of `xcodebuild`.
pub fn filter_xcodebuild(output: &str) -> (r: String)
    ensures
        r@ == xcodebuild_filtered(output@),
{
    let clean = strip_ansi(output);
    condense_xcode(clean.as_str(), &read_xcode_lines(clean.as_str()))
}

// ─── Running the tool ───────────────────────────────────────────────────────

/// How `xcodebuild` is run with `args`.
pub open spec fn xcodebuild_plan(args: Seq<Seq<char>>, verbose: u8) -> InvocationView {
    InvocationView {
        program: "xcodebuild"@,
        args: args,
        notice: notice_of("xcodebuild"@, args, verbose),
        tool: "xcodebuild"@,
        display: joined(args, " "@),
        tee: Some("xcodebuild"@),
        filter: Filter::Xcodebuild,
    }
}

/// Plans a run of `xcodebuild` with `args`.
pub fn run(args: &[String], verbose: u8) -> (r: Invocation)
    ensures
        r@ == xcodebuild_plan(views(args@), verbose),
{
    let filter = Filter::Xcodebuild;
    let r = Invocation {
        program: "xcodebuild".to_owned(),
        args: copied(args),
        notice: notice("xcodebuild", args, verbose),
        tool: "xcodebuild".to_owned(),
        display: join(&copied(args), " "),
        tee: Some("xcodebuild".to_owned()),
        filter,
    };
    assert(r@ =~= xcodebuild_plan(views(args@), verbose));
    r
}

// ─── Laws ───────────────────────────────────────────────────────────────────

/// What the lines of raw output report, errors aside.
pub open spec fn xcode_reported(output: Seq<char>) -> Seq<XcodeEvent<Seq<char>>> {
    xcode_events(xcode_lines(without_ansi(output)))
}

/// Output without any marker passes through: nothing of it is lost but escape
/// sequences and the whitespace at its ends.
pub proof fn law_xcode_passthrough(output: Seq<char>)
    requires
        trimmed(without_ansi(output)).len() > 0,
        !any_build_marker(xcode_lines(without_ansi(output))),
    ensures
        xcodebuild_filtered(output) == trimmed(without_ansi(output)),
{
}

proof fn lemma_event_makes_report(output: Seq<char>, i: int)
    requires
        0 <= i < xcode_reported(output).len(),
        !(xcode_reported(output)[i] is Ignored),
    ensures
        xcodebuild_filtered(output) == xcode_report(
            xcode_summary(xcode_lines(without_ansi(output))),
        ),
{
    let ls = xcode_lines(without_ansi(output));
    assert(xcode_reported(output)[i] == xcode_event(ls[i]));
    assert(is_build_marker(ls[i]));
}

proof fn lemma_text_of_event(output: Seq<char>, i: int, text: Seq<char>)
    requires
        0 <= i < xcode_reported(output).len(),
        xcode_reported(output)[i] == XcodeEvent::Warning(text) || xcode_reported(output)[i]
            == XcodeEvent::Result(text),
    ensures
        text.len() > 0,
        is_trimmed(text),
{
    let clean = without_ansi(output);
    let ls = xcode_lines(clean);
    assert(xcode_reported(output)[i] == xcode_event(ls[i]));
    assert(ls[i] == xcode_line(lines_of(clean)[i]));
    law_trimmed_is_trimmed(lines_of(clean)[i]);
}

/// No error gets lost. Every line that matches the pattern of errors, whatever else it
/// matches, is on the list of errors; the report states the length of that list, shows
/// the first twenty of them verbatim and in the order of the output, and counts the
/// rest.
pub proof fn law_xcode_errors_kept(output: Seq<char>)
    ensures
        ({
            let ls = xcode_lines(without_ansi(output));
            let errors = xcode_errors(ls);
            let r = xcodebuild_filtered(output);
            &&& forall|i: int|
                0 <= i < ls.len() && (#[trigger] ls[i]).text.len() > 0 && ls[i].error
                    ==> errors.contains(ls[i].text)
            &&& forall|k: int|
                0 <= k < shown(errors.len(), 20) ==> occurs(#[trigger] errors[k], r)
            &&& forall|j: int, k: int|
                0 <= j < k < shown(errors.len(), 20) ==> in_order(
                    #[trigger] errors[j],
                    #[trigger] errors[k],
                    r,
                )
            &&& errors.len() > 0 ==> occurs("Errors ("@ + decimal(errors.len()) + "):"@, r)
            &&& errors.len() > 20 ==> occurs(
                "... +"@ + decimal((errors.len() - 20) as nat) + " more"@,
                r,
            )
        }),
{
    let clean = without_ansi(output);
    let ls = xcode_lines(clean);
    let s = xcode_summary(ls);
    let pick = |l: XcodeLine<Seq<char>, FoundText>| error_text(l);
    let at = law_picked_in_order(ls, pick);
    assert forall|i: int|
        0 <= i < ls.len() && (#[trigger] ls[i]).text.len() > 0
            && ls[i].error implies s.errors.contains(ls[i].text) by {
        assert(pick(ls[i]) == Some(ls[i].text));
    }
    assert(all_trimmed(s.errors)) by {
        assert forall|k: int| 0 <= k < s.errors.len() implies (#[trigger] s.errors[k]).len() > 0
            && is_trimmed(s.errors[k]) by {
            assert(pick(ls[at[k]]) == Some(s.errors[k]));
            law_trimmed_is_trimmed(lines_of(clean)[at[k]]);
        }
    }
    if s.errors.len() > 0 {
        assert(pick(ls[at[0]]) == Some(s.errors[0]));
        assert(is_build_marker(ls[at[0]]));
        let pre = "xcodebuild\n"@ + packages_part(s.packages) + compiled_lines(grouped(s.compiled))
            + linked_part(s.linked);
        let post = section("\nWarnings ("@, s.warnings, 10) + tests_part(s.passed, s.failures)
            + closing(s.result);
        assert(pre + section("\nErrors ("@, s.errors, 20) + post =~= xcode_body(s));
        reveal_strlit("\nErrors (");
        reveal_strlit("Errors (");
        reveal_strlit("\n");
        assert("\nErrors ("@ =~= "\n"@ + "Errors ("@);
        lemma_section_survives(pre, "\nErrors ("@, "Errors ("@, s.errors, 20, post);
    }
}

/// No warning gets lost: the same as for errors, with a limit of ten.
pub proof fn law_xcode_warnings_kept(output: Seq<char>)
    ensures
        ({
            let es = xcode_reported(output);
            let warnings = xcode_warnings(es);
            let r = xcodebuild_filtered(output);
            &&& forall|i: int|
                0 <= i < es.len() && #[trigger] es[i] is Warning ==> warnings.contains(
                    es[i]->Warning_0,
                )
            &&& forall|k: int|
                0 <= k < shown(warnings.len(), 10) ==> occurs(#[trigger] warnings[k], r)
            &&& forall|j: int, k: int|
                0 <= j < k < shown(warnings.len(), 10) ==> in_order(
                    #[trigger] warnings[j],
                    #[trigger] warnings[k],
                    r,
                )
            &&& warnings.len() > 0 ==> occurs("Warnings ("@ + decimal(warnings.len()) + "):"@, r)
            &&& warnings.len() > 10 ==> occurs(
                "... +"@ + decimal((warnings.len() - 10) as nat) + " more"@,
                r,
            )
        }),
{
    let es = xcode_reported(output);
    let s = xcode_summary(xcode_lines(without_ansi(output)));
    let at = law_picked_in_order(
        es,
        |e: XcodeEvent<Seq<char>>|
            match e {
                XcodeEvent::Warning(text) => Some(text),
                _ => None,
            },
    );
    assert(all_trimmed(s.warnings)) by {
        assert forall|k: int| 0 <= k < s.warnings.len() implies (#[trigger] s.warnings[k]).len() > 0
            && is_trimmed(s.warnings[k]) by {
            lemma_text_of_event(output, at[k], s.warnings[k]);
        }
    }
    if s.warnings.len() > 0 {
        lemma_event_makes_report(output, at[0]);
        let pre = "xcodebuild\n"@ + packages_part(s.packages) + compiled_lines(grouped(s.compiled))
            + linked_part(s.linked) + section("\nErrors ("@, s.errors, 20);
        let post = tests_part(s.passed, s.failures) + closing(s.result);
        assert(pre + section("\nWarnings ("@, s.warnings, 10) + post =~= xcode_body(s));
        reveal_strlit("\nWarnings (");
        reveal_strlit("Warnings (");
        reveal_strlit("\n");
        assert("\nWarnings ("@ =~= "\n"@ + "Warnings ("@);
        lemma_section_survives(pre, "\nWarnings ("@, "Warnings ("@, s.warnings, 10, post);
    }
}

/// Whether a line is a result banner.
pub open spec fn is_banner(l: XcodeLine<Seq<char>, FoundText>) -> bool {
    l.text.len() > 0 && l.result
}

proof fn lemma_last_banner(ls: Seq<XcodeLine<Seq<char>, FoundText>>, i: int)
    requires
        0 <= i < ls.len(),
        is_banner(ls[i]),
        forall|j: int| i < j < ls.len() ==> !is_banner(#[trigger] ls[j]),
    ensures
        xcode_result(xcode_events(ls)) == ls[i].text,
    decreases ls.len(),
{
    let init = ls.drop_last();
    assert(xcode_events(ls).drop_last() =~= xcode_events(init));
    assert(xcode_events(ls).last() == xcode_event(ls[ls.len() - 1]));
    if i < ls.len() - 1 {
        assert forall|j: int| i < j < init.len() implies !is_banner(#[trigger] init[j]) by {
            assert(init[j] == ls[j]);
        }
        lemma_last_banner(init, i);
    }
}

/// The last result banner of the output closes the report, behind an empty line,
/// whatever else its line matches; and the report begins with its title.
pub proof fn law_xcode_result_kept(output: Seq<char>, i: int)
    requires
        ({
            let ls = xcode_lines(without_ansi(output));
            &&& 0 <= i < ls.len()
            &&& is_banner(ls[i])
            &&& forall|j: int| i < j < ls.len() ==> !is_banner(#[trigger] ls[j])
        }),
    ensures
        ({
            let end = "\n\n"@ + xcode_lines(without_ansi(output))[i].text;
            let r = xcodebuild_filtered(output);
            &&& begins_with(r, "xcodebuild\n"@)
            &&& stands_at(r, r.len() - end.len(), end)
        }),
{
    let clean = without_ansi(output);
    let ls = xcode_lines(clean);
    let s = xcode_summary(ls);
    lemma_last_banner(ls, i);
    law_trimmed_is_trimmed(lines_of(clean)[i]);
    assert(is_build_marker(ls[i]));
    lemma_banner_closes(s);
}

proof fn lemma_banner_closes(s: XcodeSummaryView)
    requires
        s.result.len() > 0,
        is_trimmed(s.result),
    ensures
        ({
            let end = "\n\n"@ + s.result;
            let r = xcode_report(s);
            &&& begins_with(r, "xcodebuild\n"@)
            &&& stands_at(r, r.len() - end.len(), end)
        }),
{
    let head = "xcodebuild\n"@;
    let b = packages_part(s.packages);
    let c = compiled_lines(grouped(s.compiled));
    let d = linked_part(s.linked);
    let e = section("\nErrors ("@, s.errors, 20);
    let f = section("\nWarnings ("@, s.warnings, 10);
    let g = tests_part(s.passed, s.failures);
    let pre = head + b + c + d + e + f + g;
    assert(head.len() > 0 && !is_space(head[0]) && head.last() == '\n') by {
        reveal_strlit("xcodebuild\n");
    }
    lemma_packages_end(s.packages);
    lemma_compiled_end(grouped(s.compiled));
    lemma_line_ends(head, b);
    lemma_line_ends(head + b, c);
    lemma_linked_end(s.linked);
    lemma_line_ends(head + b + c, d);
    lemma_section_ends("\nErrors ("@, s.errors, 20);
    lemma_line_ends(head + b + c + d, e);
    lemma_section_ends("\nWarnings ("@, s.warnings, 10);
    lemma_line_ends(head + b + c + d + e, f);
    lemma_tests_end(s.passed, s.failures);
    lemma_line_ends(head + b + c + d + e + f, g);
    lemma_closes(pre, s.result);
    lemma_regrouped(head, b, c, d, e, f, g, "\n"@ + s.result);
    lemma_begins(head, b, c + d + e + f + g + ("\n"@ + s.result));
    assert(pre + "\n"@ + s.result =~= pre + ("\n"@ + s.result));
}

proof fn lemma_begins(head: Seq<char>, a: Seq<char>, b: Seq<char>)
    ensures
        begins_with(head + a + b, head),
{
    assert((head + a + b).subrange(0, head.len() as int) =~= head);
}

proof fn lemma_packages_end(ps: Seq<(Seq<char>, Seq<char>)>)
    ensures
        ends_line(packages_part(ps)),
{
    reveal_strlit("\n");
}

proof fn lemma_compiled_end(g: Seq<(Seq<char>, Seq<Seq<char>>)>)
    ensures
        ends_line(compiled_lines(g)),
{
    reveal_strlit(" files)\n");
}

proof fn lemma_linked_end(linked: Seq<Seq<char>>)
    ensures
        ends_line(linked_part(linked)),
{
    reveal_strlit("\n");
}

proof fn lemma_tests_end(passed: nat, failures: Seq<Seq<char>>)
    ensures
        ends_line(tests_part(passed, failures)),
{
    if failures.len() > 0 {
        let head = "\nTests: "@ + decimal(passed) + " passed, "@ + decimal(failures.len())
            + " failed (of "@ + decimal(passed + failures.len()) + ")\n"@;
        assert(head.len() > 0 && head.last() == '\n') by {
            reveal_strlit(")\n");
        }
        lemma_capped_ends(failures, "  FAIL "@, 20);
        lemma_line_ends(head, capped(failures, "  FAIL "@, 20, " more\n"@));
    } else {
        reveal_strlit(" passed, 0 failed\n");
    }
}

/// Every test result is counted, once: the passed and the failed tests of the
/// report are the test results of the output, the line with the counts is in the
/// report, and so is the name of each of the first twenty failed tests.
pub proof fn law_xcode_tests_counted(output: Seq<char>)
    ensures
        ({
            let es = xcode_reported(output);
            let passed = xcode_passed(es);
            let failures = xcode_failures(es);
            let r = xcodebuild_filtered(output);
            &&& passed + failures.len() == es.filter(
                |e: XcodeEvent<Seq<char>>| e is TestPassed || e is TestFailed,
            ).len()
            &&& forall|i: int|
                0 <= i < es.len() && #[trigger] es[i] is TestFailed ==> failures.contains(
                    es[i]->TestFailed_0,
                )
            &&& passed > 0 && failures.len() == 0 ==> occurs(
                "Tests: "@ + decimal(passed) + " passed, 0 failed"@,
                r,
            )
            &&& failures.len() > 0 ==> occurs(
                "Tests: "@ + decimal(passed) + " passed, "@ + decimal(failures.len())
                    + " failed (of "@ + decimal(passed + failures.len()) + ")"@,
                r,
            )
            &&& forall|k: int|
                0 <= k < shown(failures.len(), 20) ==> occurs(
                    "FAIL "@ + #[trigger] failures[k],
                    r,
                )
            &&& failures.len() > 20 ==> occurs(
                "... +"@ + decimal((failures.len() - 20) as nat) + " more"@,
                r,
            )
        }),
{
    let es = xcode_reported(output);
    let s = xcode_summary(xcode_lines(without_ansi(output)));
    let passed = s.passed;
    let failures = s.failures;
    let at = law_picked_in_order(
        es,
        |e: XcodeEvent<Seq<char>>|
            match e {
                XcodeEvent::TestFailed(test) => Some(test),
                _ => None,
            },
    );
    lemma_tests_partition(es);
    let pre = "xcodebuild\n"@ + packages_part(s.packages) + compiled_lines(grouped(s.compiled))
        + linked_part(s.linked) + section("\nErrors ("@, s.errors, 20) + section(
        "\nWarnings ("@,
        s.warnings,
        10,
    );
    assert(pre + tests_part(passed, failures) + closing(s.result) =~= xcode_body(s));
    if failures.len() > 0 {
        lemma_event_makes_report(output, at[0]);
        assert forall|k: int| 0 <= k < failures.len() implies is_trimmed(
            "FAIL "@ + #[trigger] failures[k],
        ) by {
            lemma_failure_is_trimmed(es, output, at[k], failures[k]);
        }
        lemma_failures_survive(pre, passed, failures, closing(s.result));
        if failures.len() > 20 {
            lemma_failure_note_survives(pre, passed, failures, closing(s.result));
        }
    } else if passed > 0 {
        let i = lemma_passed_source(es);
        lemma_event_makes_report(output, i);
        lemma_passes_survive(pre, passed, failures, closing(s.result));
    }
}

proof fn lemma_passes_survive(
    pre: Seq<char>,
    passed: nat,
    failures: Seq<Seq<char>>,
    post: Seq<char>,
)
    requires
        passed > 0,
        failures.len() == 0,
    ensures
        occurs(
            "Tests: "@ + decimal(passed) + " passed, 0 failed"@,
            trimmed(pre + tests_part(passed, failures) + post),
        ),
{
    let needle = "Tests: "@ + decimal(passed) + " passed, 0 failed"@;
    let part = tests_part(passed, failures);
    reveal_strlit("\nTests: ");
    reveal_strlit("Tests: ");
    reveal_strlit("\n");
    reveal_strlit(" passed, 0 failed\n");
    reveal_strlit(" passed, 0 failed");
    assert(part =~= "\n"@ + needle + "\n"@);
    lemma_occurs_in_itself(needle);
    lemma_occurs_in_middle(needle, "\n"@, needle, "\n"@);
    lemma_occurs_in_middle(needle, pre, part, post);
    assert(needle.last() == 'd');
    lemma_occurs_after_trim(needle, pre + part + post);
}

proof fn lemma_failure_note_survives(
    pre: Seq<char>,
    passed: nat,
    failures: Seq<Seq<char>>,
    post: Seq<char>,
)
    requires
        failures.len() > 20,
    ensures
        occurs(
            "... +"@ + decimal((failures.len() - 20) as nat) + " more"@,
            trimmed(pre + tests_part(passed, failures) + post),
        ),
{
    let head = "\nTests: "@ + decimal(passed) + " passed, "@ + decimal(failures.len())
        + " failed (of "@ + decimal(passed + failures.len()) + ")\n"@;
    let list = listed(failures.take(20), "  FAIL "@);
    let note = remainder_note(failures.len(), 20, " more\n"@);
    assert(" more\n"@ =~= " more"@ + "\n"@ && " more"@.len() > 0 && !is_space(" more"@.last())) by {
        reveal_strlit(" more\n");
        reveal_strlit(" more");
        reveal_strlit("\n");
    }
    assert(tests_part(passed, failures) == head + (list + note));
    assert(pre + (head + (list + note)) + post =~= pre + head + list + note + post);
    lemma_note_survives(pre + head + list, failures.len(), 20, " more"@, post);
}

proof fn lemma_failures_survive(
    pre: Seq<char>,
    passed: nat,
    failures: Seq<Seq<char>>,
    post: Seq<char>,
)
    requires
        failures.len() > 0,
        forall|k: int|
            0 <= k < failures.len() ==> is_trimmed("FAIL "@ + #[trigger] failures[k]),
    ensures
        occurs(
            "Tests: "@ + decimal(passed) + " passed, "@ + decimal(failures.len()) + " failed (of "@
                + decimal(passed + failures.len()) + ")"@,
            trimmed(pre + tests_part(passed, failures) + post),
        ),
        forall|k: int|
            0 <= k < shown(failures.len(), 20) ==> occurs(
                "FAIL "@ + #[trigger] failures[k],
                trimmed(pre + tests_part(passed, failures) + post),
            ),
{
    let part = tests_part(passed, failures);
    let body = pre + part + post;
    let list = capped(failures, "  FAIL "@, 20, " more\n"@);
    let head = "\nTests: "@ + decimal(passed) + " passed, "@ + decimal(failures.len())
        + " failed (of "@ + decimal(passed + failures.len()) + ")\n"@;
    let needle = "Tests: "@ + decimal(passed) + " passed, "@ + decimal(failures.len())
        + " failed (of "@ + decimal(passed + failures.len()) + ")"@;
    assert(occurs(needle, trimmed(body))) by {
        reveal_strlit("\nTests: ");
        reveal_strlit("Tests: ");
        reveal_strlit("\n");
        reveal_strlit(")\n");
        reveal_strlit(")");
        assert(head =~= "\n"@ + needle + "\n"@);
        lemma_occurs_in_itself(needle);
        lemma_occurs_in_middle(needle, "\n"@, needle, "\n"@);
        lemma_occurs_in_parts(needle, head, list);
        lemma_occurs_in_middle(needle, pre, part, post);
        assert(needle.last() == ')');
        lemma_occurs_after_trim(needle, body);
    }
    assert forall|k: int| 0 <= k < shown(failures.len(), 20) implies occurs(
        "FAIL "@ + #[trigger] failures[k],
        trimmed(body),
    ) by {
        let name = "FAIL "@ + failures[k];
        lemma_capped_keeps(failures, "  FAIL "@, 20, " more\n"@, k);
        assert("  FAIL "@ + failures[k] =~= "  "@ + name + Seq::<char>::empty()) by {
            reveal_strlit("  FAIL ");
            reveal_strlit("FAIL ");
            reveal_strlit("  ");
        }
        lemma_occurs_in_itself(name);
        lemma_occurs_in_middle(name, "  "@, name, seq![]);
        lemma_occurs_through(name, "  FAIL "@ + failures[k], list);
        lemma_occurs_in_parts(name, head, list);
        lemma_occurs_in_middle(name, pre, part, post);
        lemma_occurs_after_trim(name, body);
    }
}

proof fn lemma_tests_partition(es: Seq<XcodeEvent<Seq<char>>>)
    ensures
        xcode_passed(es) + xcode_failures(es).len() == es.filter(
            |e: XcodeEvent<Seq<char>>| e is TestPassed || e is TestFailed,
        ).len(),
    decreases es.len(),
{
    reveal(Seq::filter);
    if es.len() > 0 {
        lemma_tests_partition(es.drop_last());
    }
}

proof fn lemma_passed_source(es: Seq<XcodeEvent<Seq<char>>>) -> (i: int)
    requires
        xcode_passed(es) > 0,
    ensures
        0 <= i < es.len(),
        es[i] is TestPassed,
    decreases es.len(),
{
    if es.last() is TestPassed {
        es.len() - 1
    } else {
        lemma_passed_source(es.drop_last())
    }
}

proof fn lemma_failure_is_trimmed(
    es: Seq<XcodeEvent<Seq<char>>>,
    output: Seq<char>,
    i: int,
    failure: Seq<char>,
)
    requires
        es == xcode_reported(output),
        0 <= i < es.len(),
        es[i] == XcodeEvent::TestFailed(failure),
    ensures
        is_trimmed("FAIL "@ + failure),
{
    let ls = xcode_lines(without_ansi(output));
    assert(es[i] == xcode_event(ls[i]));
    reveal_strlit("FAIL ");
    reveal_strlit("s)");
    assert(failure.last() == ')');
}

proof fn lemma_regrouped(
    a: Seq<char>,
    b: Seq<char>,
    c: Seq<char>,
    d: Seq<char>,
    e: Seq<char>,
    f: Seq<char>,
    g: Seq<char>,
    h: Seq<char>,
)
    ensures
        a + b + c + d + e + f + g + h == a + b + (c + d + e + f + g + h),
        a + b + c + d + e + f + g + h == a + b + c + (d + e + f + g + h),
        a + b + c + d + e + f + g + h == a + b + c + d + (e + f + g + h),
{
    assert(a + b + c + d + e + f + g + h =~= a + b + (c + d + e + f + g + h));
    assert(a + b + c + d + e + f + g + h =~= a + b + c + (d + e + f + g + h));
    assert(a + b + c + d + e + f + g + h =~= a + b + c + d + (e + f + g + h));
}

/// What occurs in the packages, the compiled targets or the linked targets, and ends
/// in text, is in the report.
proof fn lemma_upper_parts_survive(s: XcodeSummaryView, needle: Seq<char>)
    requires
        needle.len() > 0,
        !is_space(needle.last()),
        occurs(needle, packages_part(s.packages)) || occurs(
            needle,
            compiled_lines(grouped(s.compiled)),
        ) || occurs(needle, linked_part(s.linked)),
    ensures
        occurs(needle, xcode_report(s)),
{
    let a = "xcodebuild\n"@;
    let b = packages_part(s.packages);
    let c = compiled_lines(grouped(s.compiled));
    let d = linked_part(s.linked);
    let e = section("\nErrors ("@, s.errors, 20);
    let f = section("\nWarnings ("@, s.warnings, 10);
    let g = tests_part(s.passed, s.failures);
    let h = closing(s.result);
    lemma_regrouped(a, b, c, d, e, f, g, h);
    if occurs(needle, b) {
        lemma_occurs_in_middle(needle, a, b, c + d + e + f + g + h);
    } else if occurs(needle, c) {
        lemma_occurs_in_middle(needle, a + b, c, d + e + f + g + h);
    } else {
        lemma_occurs_in_middle(needle, a + b + c, d, e + f + g + h);
    }
    assert(a.len() > 0 && !is_space(a[0])) by {
        reveal_strlit("xcodebuild\n");
    }
    assert(xcode_body(s)[0] == a[0]);
    lemma_occurs_in_begun(needle, xcode_body(s));
}

proof fn lemma_tail(a: Seq<char>, b: Seq<char>, c: Seq<char>, d: Seq<char>, e: Seq<char>)
    ensures
        a + b + c + d + e == a + b + (c + d + e),
        a + b + c + d + e == a + (b + c + d + e),
{
    assert(a + b + c + d + e =~= a + b + (c + d + e));
    assert(a + b + c + d + e =~= a + (b + c + d + e));
}

proof fn lemma_package_listed(ps: Seq<(Seq<char>, Seq<char>)>, k: int)
    requires
        0 <= k < ps.len(),
    ensures
        occurs(ps[k].0 + "@"@ + ps[k].1, package_list(ps)),
    decreases ps.len(),
{
    let needle = ps[k].0 + "@"@ + ps[k].1;
    let before = package_list(ps.drop_last());
    let (name, version) = ps.last();
    lemma_tail(before, " "@, name, "@"@, version);
    if k < ps.len() - 1 {
        lemma_package_listed(ps.drop_last(), k);
        lemma_occurs_in_parts(needle, before, " "@ + name + "@"@ + version);
    } else {
        lemma_occurs_in_itself(needle);
        lemma_occurs_in_parts(needle, before + " "@, name + "@"@ + version);
    }
}

/// Every resolved package whose version ends in text is in the report.
pub proof fn law_xcode_packages_kept(s: XcodeSummaryView, k: int)
    requires
        0 <= k < s.packages.len(),
        s.packages[k].1.len() > 0,
        !is_space(s.packages[k].1.last()),
    ensures
        occurs(s.packages[k].0 + "@"@ + s.packages[k].1, xcode_report(s)),
{
    let needle = s.packages[k].0 + "@"@ + s.packages[k].1;
    let head = "Packages ("@ + decimal(s.packages.len()) + "):"@;
    lemma_package_listed(s.packages, k);
    lemma_occurs_in_middle(needle, head, package_list(s.packages), "\n"@);
    assert(needle.last() == s.packages[k].1.last());
    lemma_upper_parts_survive(s, needle);
}

proof fn lemma_target_line(
    before: Seq<char>,
    a: Seq<char>,
    b: Seq<char>,
    c: Seq<char>,
    d: Seq<char>,
    end: Seq<char>,
)
    ensures
        before + a + b + c + d + (end + "\n"@) == before + (a + b + c + d + end) + "\n"@,
        before + a + b + c + d + (end + "\n"@) == before + (a + b + c + d + end + "\n"@),
{
    assert(before + a + b + c + d + (end + "\n"@) =~= before + (a + b + c + d + end) + "\n"@);
    assert(before + a + b + c + d + (end + "\n"@) =~= before + (a + b + c + d + end + "\n"@));
}

proof fn lemma_target_listed(g: Seq<(Seq<char>, Seq<Seq<char>>)>, i: int)
    requires
        0 <= i < g.len(),
    ensures
        occurs(
            "Compiled "@ + g[i].0 + " ("@ + decimal(g[i].1.len()) + " files)"@,
            compiled_lines(g),
        ),
    decreases g.len(),
{
    let needle = "Compiled "@ + g[i].0 + " ("@ + decimal(g[i].1.len()) + " files)"@;
    let before = compiled_lines(g.drop_last());
    let count = decimal(g.last().1.len());
    let line = "Compiled "@ + g.last().0 + " ("@ + count + " files)"@;
    assert(" files)\n"@ =~= " files)"@ + "\n"@) by {
        reveal_strlit(" files)\n");
        reveal_strlit(" files)");
        reveal_strlit("\n");
    }
    lemma_target_line(before, "Compiled "@, g.last().0, " ("@, count, " files)"@);
    if i < g.len() - 1 {
        lemma_target_listed(g.drop_last(), i);
        lemma_occurs_in_parts(needle, before, line + "\n"@);
    } else {
        lemma_occurs_in_itself(needle);
        lemma_occurs_in_middle(needle, before, line, "\n"@);
    }
}

/// Every compiled file is in the count of its target: the counts add up to the
/// number of compiled files, the targets come in order, none twice, and each of
/// them is in the report.
pub proof fn law_xcode_compiled_accounted(s: XcodeSummaryView)
    ensures
        group_total(grouped(s.compiled)) == s.compiled.len(),
        keys_ascend(grouped(s.compiled)),
        forall|i: int|
            0 <= i < grouped(s.compiled).len() ==> occurs(
                "Compiled "@ + (#[trigger] grouped(s.compiled)[i]).0 + " ("@ + decimal(
                    grouped(s.compiled)[i].1.len(),
                ) + " files)"@,
                xcode_report(s),
            ),
{
    let g = grouped(s.compiled);
    law_group_total(s.compiled);
    law_grouped(s.compiled);
    assert forall|i: int| 0 <= i < g.len() implies occurs(
        "Compiled "@ + (#[trigger] g[i]).0 + " ("@ + decimal(g[i].1.len()) + " files)"@,
        xcode_report(s),
    ) by {
        let needle = "Compiled "@ + g[i].0 + " ("@ + decimal(g[i].1.len()) + " files)"@;
        lemma_target_listed(g, i);
        assert(" files)"@.len() > 0 && !is_space(" files)"@.last())) by {
            reveal_strlit(" files)");
        }
        assert(needle.last() == " files)"@.last());
        lemma_upper_parts_survive(s, needle);
    }
}

/// Every linked target whose name ends in text is in the report.
pub proof fn law_xcode_linked_kept(s: XcodeSummaryView, k: int)
    requires
        0 <= k < s.linked.len(),
        s.linked[k].len() > 0,
        !is_space(s.linked[k].last()),
    ensures
        occurs(s.linked[k], xcode_report(s)),
{
    lemma_joined_keeps(s.linked, ", "@, k);
    lemma_occurs_in_middle(s.linked[k], "Linked: "@, joined(s.linked, ", "@), "\n"@);
    lemma_upper_parts_survive(s, s.linked[k]);
}

} // verus!
