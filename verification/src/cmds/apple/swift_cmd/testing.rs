//! `swift test`: counts the tests of XCTest and of Swift Testing, lists the
//! failures and their details, and keeps what else went wrong.

use crate::ansi::{strip_ansi, without_ansi};
use crate::pattern::{
    group_text, regex_captures, regex_matches, Found, FoundText, Pattern, ERROR_LINE,
    SWIFT_TEST_FAIL, SWIFT_TEST_ISSUE, SWIFT_TEST_PASS, SWIFT_TEST_RUN, XCTEST_ERROR,
    XCTEST_RESULT,
};
use crate::report::{
    all_listed, all_listed_text, all_trimmed, capped, capped_lines, in_order, is_trimmed,
    law_picked_in_order, law_trimmed_is_trimmed, lemma_all_listed_is_section,
    lemma_capped_survives, lemma_part_kept, lemma_section_survives, list_lines, listed,
    remainder_note, shown,
};
use crate::text::{
    decimal, decimal_text, decimal_wide, is_space, lines, lines_of, occurs, same_text, trim,
    trimmed, views,
};
use vstd::prelude::*;

verus! {

/// How many error details a report lists.
pub const DETAIL_LIMIT: usize = 20;

// ─── Lines ──────────────────────────────────────────────────────────────────

/// A trimmed line with what each pattern finds in it. `T` is the type of text,
/// `F` that of a search result. A `detail` is an error of XCTest; an `error` is any
/// error, or an issue that Swift Testing recorded.
pub struct TestLine<T, F> {
    pub text: T,
    pub xctest: F,
    pub detail: bool,
    pub error: bool,
    pub run: bool,
    pub pass: bool,
    pub fail: F,
}

impl View for TestLine<String, Found> {
    type V = TestLine<Seq<char>, FoundText>;

    open spec fn view(&self) -> TestLine<Seq<char>, FoundText> {
        TestLine {
            text: self.text@,
            xctest: self.xctest@,
            detail: self.detail,
            error: self.error,
            run: self.run,
            pass: self.pass,
            fail: self.fail@,
        }
    }
}

/// What the patterns find in a line of output.
pub open spec fn test_line(line: Seq<char>) -> TestLine<Seq<char>, FoundText> {
    let text = trimmed(line);
    TestLine {
        text,
        xctest: regex_captures(XCTEST_RESULT@, text),
        detail: regex_matches(XCTEST_ERROR@, text),
        error: regex_matches(ERROR_LINE@, text) || regex_matches(SWIFT_TEST_ISSUE@, text),
        run: regex_matches(SWIFT_TEST_RUN@, text),
        pass: regex_matches(SWIFT_TEST_PASS@, text),
        fail: regex_captures(SWIFT_TEST_FAIL@, text),
    }
}

/// What the patterns find in each line of `clean`.
pub open spec fn test_lines(clean: Seq<char>) -> Seq<TestLine<Seq<char>, FoundText>> {
    lines_of(clean).map_values(|line: Seq<char>| test_line(line))
}

/// Searches each line of `clean` for the patterns.
pub fn read_test_lines(clean: &str) -> (r: Vec<TestLine<String, Found>>)
    ensures
        views(r@) == test_lines(clean@),
{
    let xctest = Pattern::compile(XCTEST_RESULT);
    let detail = Pattern::compile(XCTEST_ERROR);
    let error = Pattern::compile(ERROR_LINE);
    let issue = Pattern::compile(SWIFT_TEST_ISSUE);
    let run = Pattern::compile(SWIFT_TEST_RUN);
    let pass = Pattern::compile(SWIFT_TEST_PASS);
    let fail = Pattern::compile(SWIFT_TEST_FAIL);
    let raw = lines(clean);
    let mut out: Vec<TestLine<String, Found>> = Vec::new();
    for i in 0..raw.len()
        invariant
            xctest.source() == XCTEST_RESULT@,
            detail.source() == XCTEST_ERROR@,
            error.source() == ERROR_LINE@,
            issue.source() == SWIFT_TEST_ISSUE@,
            run.source() == SWIFT_TEST_RUN@,
            pass.source() == SWIFT_TEST_PASS@,
            fail.source() == SWIFT_TEST_FAIL@,
            views(raw@) == lines_of(clean@),
            views(out@) == test_lines(clean@).take(i as int),
    {
        let text = trim(raw[i].as_str());
        let line = TestLine {
            xctest: xctest.captures(text.as_str()),
            detail: detail.is_match(text.as_str()),
            error: error.is_match(text.as_str()) || issue.is_match(text.as_str()),
            run: run.is_match(text.as_str()),
            pass: pass.is_match(text.as_str()),
            fail: fail.captures(text.as_str()),
            text,
        };
        assert(line@ == test_line(views(raw@)[i as int]));
        assert(test_lines(clean@)[i as int] == line@);
        let ghost before = views(out@);
        out.push(line);
        assert(views(out@) =~= before.push(line@));
        assert(views(out@) =~= test_lines(clean@).take(i + 1));
    }
    assert(views(out@) =~= test_lines(clean@));
    out
}

// ─── Summary ────────────────────────────────────────────────────────────────

/// Whether the line reports a passed test of XCTest.
pub open spec fn xctest_passes(l: TestLine<Seq<char>, FoundText>) -> bool {
    l.xctest is Some && group_text(l.xctest, 4) == "passed"@
}

/// Whether the line reports a failed test of XCTest.
pub open spec fn xctest_fails(l: TestLine<Seq<char>, FoundText>) -> bool {
    l.xctest is Some && group_text(l.xctest, 4) != "passed"@
}

/// Whether the line reports a passed test of Swift Testing. The line on the whole
/// run is none.
pub open spec fn testing_passes(l: TestLine<Seq<char>, FoundText>) -> bool {
    !l.run && l.pass
}

/// Whether the line reports a failed test of Swift Testing. The line on the whole
/// run is none.
pub open spec fn testing_fails(l: TestLine<Seq<char>, FoundText>) -> bool {
    !l.run && l.fail is Some
}

/// `FAIL Suite.test (0.1s)` for a failed test of XCTest.
pub open spec fn xctest_failure(found: FoundText) -> Seq<char> {
    "FAIL "@ + group_text(found, 2) + "."@ + group_text(found, 3) + " ("@ + group_text(found, 5)
        + "s)"@
}

/// `FAIL test() (0.1s)` for a failed test of Swift Testing.
pub open spec fn testing_failure(found: FoundText) -> Seq<char> {
    "FAIL "@ + group_text(found, 1) + " ("@ + group_text(found, 2) + "s)"@
}

/// The failures that a line reports.
pub open spec fn failures_in(l: TestLine<Seq<char>, FoundText>) -> Seq<Seq<char>> {
    let first = if xctest_fails(l) {
        seq![xctest_failure(l.xctest)]
    } else {
        seq![]
    };
    let second = if testing_fails(l) {
        seq![testing_failure(l.fail)]
    } else {
        seq![]
    };
    first + second
}

/// The number of lines that report a passed test of XCTest.
pub open spec fn xctest_passed(ls: Seq<TestLine<Seq<char>, FoundText>>) -> nat
    decreases ls.len(),
{
    if ls.len() == 0 {
        0
    } else {
        xctest_passed(ls.drop_last()) + if xctest_passes(ls.last()) {
            1nat
        } else {
            0nat
        }
    }
}

/// The number of lines that report a passed test of Swift Testing.
pub open spec fn testing_passed(ls: Seq<TestLine<Seq<char>, FoundText>>) -> nat
    decreases ls.len(),
{
    if ls.len() == 0 {
        0
    } else {
        testing_passed(ls.drop_last()) + if testing_passes(ls.last()) {
            1nat
        } else {
            0nat
        }
    }
}

/// The failures, in their order.
pub open spec fn test_failures(ls: Seq<TestLine<Seq<char>, FoundText>>) -> Seq<Seq<char>>
    decreases ls.len(),
{
    if ls.len() == 0 {
        seq![]
    } else {
        test_failures(ls.drop_last()) + failures_in(ls.last())
    }
}

/// The errors and issues that are no errors of XCTest, in their order.
pub open spec fn test_errors(ls: Seq<TestLine<Seq<char>, FoundText>>) -> Seq<Seq<char>> {
    ls.filter_map(
        |l: TestLine<Seq<char>, FoundText>|
            if l.error && !l.detail {
                Some(l.text)
            } else {
                None
            },
    )
}

/// The errors of XCTest, in their order.
pub open spec fn test_details(ls: Seq<TestLine<Seq<char>, FoundText>>) -> Seq<Seq<char>> {
    ls.filter_map(
        |l: TestLine<Seq<char>, FoundText>|
            if l.detail {
                Some(l.text)
            } else {
                None
            },
    )
}

/// What has been read of a test run, as text sequences.
#[verifier::ext_equal]
pub struct TestSummaryView {
    pub xctest_passed: nat,
    pub testing_passed: nat,
    pub failures: Seq<Seq<char>>,
    pub details: Seq<Seq<char>>,
    pub errors: Seq<Seq<char>>,
}

/// What has been read of a test run: the passed tests of XCTest and of Swift
/// Testing, the failures of both, the errors of XCTest, and the other errors and
/// issues.
pub struct TestSummary {
    pub xctest_passed: usize,
    pub testing_passed: usize,
    pub failures: Vec<String>,
    pub details: Vec<String>,
    pub errors: Vec<String>,
}

impl View for TestSummary {
    type V = TestSummaryView;

    open spec fn view(&self) -> TestSummaryView {
        TestSummaryView {
            xctest_passed: self.xctest_passed as nat,
            testing_passed: self.testing_passed as nat,
            failures: views(self.failures@),
            details: views(self.details@),
            errors: views(self.errors@),
        }
    }
}

/// What there is to read in the lines of a test run.
pub open spec fn test_summary(ls: Seq<TestLine<Seq<char>, FoundText>>) -> TestSummaryView {
    TestSummaryView {
        xctest_passed: xctest_passed(ls),
        testing_passed: testing_passed(ls),
        failures: test_failures(ls),
        details: test_details(ls),
        errors: test_errors(ls),
    }
}

proof fn lemma_passed_bounded(ls: Seq<TestLine<Seq<char>, FoundText>>)
    ensures
        xctest_passed(ls) <= ls.len(),
        testing_passed(ls) <= ls.len(),
    decreases ls.len(),
{
    if ls.len() > 0 {
        lemma_passed_bounded(ls.drop_last());
    }
}

fn xctest_failure_text(found: &Found) -> (r: String)
    ensures
        r@ == xctest_failure(found@),
{
    let mut out = "FAIL ".to_owned();
    out.append(found.group(2).as_str());
    out.append(".");
    out.append(found.group(3).as_str());
    out.append(" (");
    out.append(found.group(5).as_str());
    out.append("s)");
    out
}

fn testing_failure_text(found: &Found) -> (r: String)
    ensures
        r@ == testing_failure(found@),
{
    let mut out = "FAIL ".to_owned();
    out.append(found.group(1).as_str());
    out.append(" (");
    out.append(found.group(2).as_str());
    out.append("s)");
    out
}

impl TestSummary {
    fn add_failure(&mut self, text: String)
        ensures
            final(self)@ == (TestSummaryView {
                failures: old(self)@.failures.push(text@),
                ..old(self)@
            }),
    {
        let ghost before = views(self.failures@);
        self.failures.push(text);
        assert(views(self.failures@) =~= before.push(text@));
    }
}

/// Reads the lines of a test run.
pub fn summarize_tests(ls: &Vec<TestLine<String, Found>>) -> (r: TestSummary)
    ensures
        r@ == test_summary(views(ls@)),
{
    let mut s = TestSummary {
        xctest_passed: 0,
        testing_passed: 0,
        failures: Vec::new(),
        details: Vec::new(),
        errors: Vec::new(),
    };
    let ghost all = views(ls@);
    assert(s@ =~= test_summary(all.take(0)));
    for i in 0..ls.len()
        invariant
            all == views(ls@),
            s@ == test_summary(all.take(i as int)),
    {
        proof {
            lemma_passed_bounded(all.take(i as int));
        }
        let ghost before = s@;
        let l = &ls[i];
        assert(all.take(i + 1).drop_last() =~= all.take(i as int));
        assert(all.take(i + 1).last() == l@);
        if l.xctest.is_match() {
            if same_text(l.xctest.group(4).as_str(), "passed") {
                s.xctest_passed = s.xctest_passed + 1;
            } else {
                s.add_failure(xctest_failure_text(&l.xctest));
            }
        }
        if l.detail {
            s.details.push(l.text.clone());
        } else if l.error {
            s.errors.push(l.text.clone());
        }
        if !l.run {
            if l.pass {
                s.testing_passed = s.testing_passed + 1;
            }
            if l.fail.is_match() {
                s.add_failure(testing_failure_text(&l.fail));
            }
        }
        assert(views(s.failures@) =~= before.failures + failures_in(l@));
        assert(views(s.details@) =~= test_details(all.take(i + 1)));
        assert(views(s.errors@) =~= test_errors(all.take(i + 1)));
        assert(s@ =~= test_summary(all.take(i + 1)));
    }
    assert(all.take(all.len() as int) =~= all);
    s
}

// ─── Report ─────────────────────────────────────────────────────────────────

/// The number of passed tests.
pub open spec fn passed_in(s: TestSummaryView) -> nat {
    s.xctest_passed + s.testing_passed
}

/// The errors of XCTest, if there are any.
pub open spec fn details_part(details: Seq<Seq<char>>) -> Seq<char> {
    if details.len() == 0 {
        seq![]
    } else {
        "\n"@ + capped(details, "  "@, DETAIL_LIMIT as nat, " more errors\n"@)
    }
}

/// What went wrong: the errors of XCTest, and behind them all other errors and issues
/// with their number.
pub open spec fn errors_part(s: TestSummaryView) -> Seq<char> {
    details_part(s.details) + all_listed("\nErrors ("@, s.errors)
}

/// The line of counts of a run with failures.
pub open spec fn failed_line(s: TestSummaryView) -> Seq<char> {
    decimal(passed_in(s)) + " passed, "@ + decimal(s.failures.len()) + " failed (of "@ + decimal(
        passed_in(s) + s.failures.len(),
    ) + ")"@
}

/// The report before it is trimmed.
pub open spec fn test_body(s: TestSummaryView) -> Seq<char> {
    if s.failures.len() > 0 {
        "swift test\n"@ + failed_line(s) + "\n\n"@ + listed(s.failures, "  "@) + errors_part(s)
    } else if passed_in(s) > 0 {
        "swift test\n"@ + decimal(passed_in(s)) + " passed, 0 failed\n"@ + errors_part(s)
    } else {
        "swift test\nNo tests found\n"@ + errors_part(s)
    }
}

/// The report on a test run.
pub open spec fn test_report(s: TestSummaryView) -> Seq<char> {
    trimmed(test_body(s))
}

fn details_text(details: &Vec<String>) -> (r: String)
    ensures
        r@ == details_part(views(details@)),
{
    if details.len() == 0 {
        return String::new();
    }
    let mut out = "\n".to_owned();
    out.append(capped_lines(details, "  ", DETAIL_LIMIT, " more errors\n").as_str());
    out
}

fn errors_text(s: &TestSummary) -> (r: String)
    ensures
        r@ == errors_part(s@),
{
    let mut out = details_text(&s.details);
    out.append(all_listed_text("\nErrors (", &s.errors).as_str());
    out
}

/// Writes the report on a test run.
pub fn render_tests(s: &TestSummary) -> (r: String)
    ensures
        r@ == test_report(s@),
{
    let passed: u128 = s.xctest_passed as u128 + s.testing_passed as u128;
    if s.failures.len() > 0 {
        let total: u128 = passed + s.failures.len() as u128;
        let mut counts = decimal_wide(passed);
        counts.append(" passed, ");
        counts.append(decimal_text(s.failures.len()).as_str());
        counts.append(" failed (of ");
        counts.append(decimal_wide(total).as_str());
        counts.append(")");
        assert(counts@ == failed_line(s@));
        let mut out = "swift test\n".to_owned();
        out.append(counts.as_str());
        out.append("\n\n");
        out.append(list_lines(&s.failures, s.failures.len(), "  ").as_str());
        assert(views(s.failures@).take(s.failures@.len() as int) =~= views(s.failures@));
        out.append(errors_text(s).as_str());
        trim(out.as_str())
    } else if passed > 0 {
        let mut out = "swift test\n".to_owned();
        out.append(decimal_wide(passed).as_str());
        out.append(" passed, 0 failed\n");
        out.append(errors_text(s).as_str());
        trim(out.as_str())
    } else {
        let mut out = "swift test\nNo tests found\n".to_owned();
        out.append(errors_text(s).as_str());
        trim(out.as_str())
    }
}

/// What the filter makes of raw output.
pub open spec fn swift_test_filtered(output: Seq<char>) -> Seq<char> {
    test_report(test_summary(test_lines(without_ansi(output))))
}

/// Condenses the output of `swift test`.
pub fn filter_swift_test(output: &str) -> (r: String)
    ensures
        r@ == swift_test_filtered(output@),
{
    let clean = strip_ansi(output);
    render_tests(&summarize_tests(&read_test_lines(clean.as_str())))
}

// ─── Laws ───────────────────────────────────────────────────────────────────

/// The line on the whole run of Swift Testing counts as no test, be it passed or
/// failed.
pub proof fn law_test_run_line_not_counted(
    ls: Seq<TestLine<Seq<char>, FoundText>>,
    l: TestLine<Seq<char>, FoundText>,
)
    requires
        l.run,
        l.xctest is None,
        !l.detail,
        !l.error,
    ensures
        test_summary(ls.push(l)) == test_summary(ls),
{
    assert(ls.push(l).drop_last() =~= ls);
    assert(test_failures(ls.push(l)) =~= test_failures(ls));
}

proof fn lemma_failures_listed(ls: Seq<TestLine<Seq<char>, FoundText>>)
    ensures
        all_trimmed(test_failures(ls)),
        forall|i: int|
            0 <= i < ls.len() && xctest_fails(#[trigger] ls[i]) ==> test_failures(ls).contains(
                xctest_failure(ls[i].xctest),
            ),
        forall|i: int|
            0 <= i < ls.len() && testing_fails(#[trigger] ls[i]) ==> test_failures(ls).contains(
                testing_failure(ls[i].fail),
            ),
    decreases ls.len(),
{
    if ls.len() > 0 {
        let before = ls.drop_last();
        let l = ls.last();
        let old_list = test_failures(before);
        let new = failures_in(l);
        lemma_failures_listed(before);
        assert(all_trimmed(new)) by {
            lemma_failure_trimmed(l.xctest);
            lemma_failure_trimmed(l.fail);
        }
        assert forall|i: int| 0 <= i < ls.len() && xctest_fails(#[trigger] ls[i]) implies (old_list
            + new).contains(xctest_failure(ls[i].xctest)) by {
            if i < before.len() {
                assert(before[i] == ls[i]);
                lemma_still_there(old_list, new, xctest_failure(ls[i].xctest));
            } else {
                assert((old_list + new)[old_list.len() as int] == xctest_failure(l.xctest));
            }
        }
        assert forall|i: int| 0 <= i < ls.len() && testing_fails(#[trigger] ls[i]) implies (old_list
            + new).contains(testing_failure(ls[i].fail)) by {
            if i < before.len() {
                assert(before[i] == ls[i]);
                lemma_still_there(old_list, new, testing_failure(ls[i].fail));
            } else {
                assert(new.last() == testing_failure(l.fail));
                assert((old_list + new)[old_list.len() + new.len() - 1] == testing_failure(l.fail));
            }
        }
    }
}

proof fn lemma_still_there<A>(a: Seq<A>, b: Seq<A>, x: A)
    requires
        a.contains(x),
    ensures
        (a + b).contains(x),
{
    let k = choose|k: int| 0 <= k < a.len() && a[k] == x;
    assert((a + b)[k] == x);
}

proof fn lemma_failure_trimmed(found: FoundText)
    ensures
        is_trimmed(xctest_failure(found)),
        is_trimmed(testing_failure(found)),
{
    reveal_strlit("FAIL ");
    reveal_strlit("s)");
    assert(xctest_failure(found)[0] == 'F' && xctest_failure(found).last() == ')');
    assert(testing_failure(found)[0] == 'F' && testing_failure(found).last() == ')');
}

/// No failure gets lost: every failed test, of either framework, is in the list of
/// failures, and the report shows all of them, in the order of the output.
pub proof fn law_test_failures_kept(output: Seq<char>)
    ensures
        ({
            let ls = test_lines(without_ansi(output));
            let failures = test_failures(ls);
            let r = swift_test_filtered(output);
            &&& forall|i: int|
                0 <= i < ls.len() && xctest_fails(#[trigger] ls[i]) ==> failures.contains(
                    xctest_failure(ls[i].xctest),
                )
            &&& forall|i: int|
                0 <= i < ls.len() && testing_fails(#[trigger] ls[i]) ==> failures.contains(
                    testing_failure(ls[i].fail),
                )
            &&& forall|k: int| 0 <= k < failures.len() ==> occurs(#[trigger] failures[k], r)
            &&& forall|j: int, k: int|
                0 <= j < k < failures.len() ==> in_order(
                    #[trigger] failures[j],
                    #[trigger] failures[k],
                    r,
                )
        }),
{
    let ls = test_lines(without_ansi(output));
    let s = test_summary(ls);
    lemma_failures_listed(ls);
    if s.failures.len() > 0 {
        lemma_failures_in_report(s);
    }
}

proof fn lemma_failures_in_report(s: TestSummaryView)
    requires
        s.failures.len() > 0,
        all_trimmed(s.failures),
    ensures
        forall|k: int|
            0 <= k < s.failures.len() ==> occurs(#[trigger] s.failures[k], test_report(s)),
        forall|j: int, k: int|
            0 <= j < k < s.failures.len() ==> in_order(
                #[trigger] s.failures[j],
                #[trigger] s.failures[k],
                test_report(s),
            ),
{
    let n = s.failures.len();
    let pre = "swift test\n"@ + failed_line(s) + "\n\n"@;
    let post = errors_part(s);
    assert(" more"@.len() > 0 && !is_space(" more"@.last())) by {
        reveal_strlit(" more");
    }
    lemma_capped_survives(pre, s.failures, "  "@, n, " more"@, post);
    assert(s.failures.take(n as int) =~= s.failures);
    assert(remainder_note(n, n, " more"@ + "\n"@) =~= seq![]);
    assert(capped(s.failures, "  "@, n, " more"@ + "\n"@) =~= listed(s.failures, "  "@));
}

/// The report states the counts: of passed, failed and all tests where one
/// failed, of passed tests where none failed, and else that there are no tests.
pub proof fn law_test_counts_kept(s: TestSummaryView)
    ensures
        s.failures.len() > 0 ==> occurs(failed_line(s), test_report(s)),
        s.failures.len() == 0 && passed_in(s) > 0 ==> occurs(
            decimal(passed_in(s)) + " passed, 0 failed"@,
            test_report(s),
        ),
        s.failures.len() == 0 && passed_in(s) == 0 ==> occurs("No tests found"@, test_report(s)),
{
    assert("swift test\n"@.len() > 0 && !is_space("swift test\n"@[0])) by {
        reveal_strlit("swift test\n");
    }
    if s.failures.len() > 0 {
        let post = "\n\n"@ + listed(s.failures, "  "@) + errors_part(s);
        assert("swift test\n"@ + failed_line(s) + post =~= test_body(s));
        assert(failed_line(s).len() > 0 && failed_line(s).last() == ')') by {
            reveal_strlit(")");
        }
        lemma_part_kept("swift test\n"@, failed_line(s), post);
    } else if passed_in(s) > 0 {
        lemma_passed_line_kept(s);
    } else {
        lemma_no_tests_line_kept(s);
    }
}

proof fn lemma_passed_line_kept(s: TestSummaryView)
    requires
        s.failures.len() == 0,
        passed_in(s) > 0,
    ensures
        occurs(decimal(passed_in(s)) + " passed, 0 failed"@, test_report(s)),
{
    let needle = decimal(passed_in(s)) + " passed, 0 failed"@;
    assert(" passed, 0 failed\n"@ =~= " passed, 0 failed"@ + "\n"@ && needle.len() > 0
        && needle.last() == 'd') by {
        reveal_strlit(" passed, 0 failed\n");
        reveal_strlit(" passed, 0 failed");
        reveal_strlit("\n");
    }
    assert("swift test\n"@.len() > 0 && !is_space("swift test\n"@[0])) by {
        reveal_strlit("swift test\n");
    }
    let post = "\n"@ + errors_part(s);
    assert("swift test\n"@ + needle + post =~= test_body(s));
    lemma_part_kept("swift test\n"@, needle, post);
}

proof fn lemma_no_tests_line_kept(s: TestSummaryView)
    requires
        s.failures.len() == 0,
        passed_in(s) == 0,
    ensures
        occurs("No tests found"@, test_report(s)),
{
    let needle = "No tests found"@;
    assert("swift test\nNo tests found\n"@ =~= "swift test\n"@ + needle + "\n"@ && needle.len() > 0
        && needle.last() == 'd') by {
        reveal_strlit("swift test\nNo tests found\n");
        reveal_strlit("swift test\n");
        reveal_strlit("No tests found");
        reveal_strlit("\n");
    }
    assert("swift test\n"@.len() > 0 && !is_space("swift test\n"@[0])) by {
        reveal_strlit("swift test\n");
    }
    let post = "\n"@ + errors_part(s);
    assert("swift test\n"@ + needle + post =~= test_body(s));
    lemma_part_kept("swift test\n"@, needle, post);
}

/// The assertion messages of XCTest are kept, with file and line, whatever else went
/// wrong: the report shows the first twenty of the lines verbatim, in the order of the
/// output, and counts the rest.
pub proof fn law_test_details_kept(output: Seq<char>)
    ensures
        ({
            let ls = test_lines(without_ansi(output));
            let details = test_details(ls);
            let r = swift_test_filtered(output);
            &&& forall|i: int|
                0 <= i < ls.len() && regex_matches(XCTEST_ERROR@, (#[trigger] ls[i]).text)
                    ==> details.contains(ls[i].text)
            &&& forall|k: int|
                0 <= k < shown(details.len(), 20) ==> occurs(#[trigger] details[k], r)
            &&& forall|j: int, k: int|
                0 <= j < k < shown(details.len(), 20) ==> in_order(
                    #[trigger] details[j],
                    #[trigger] details[k],
                    r,
                )
            &&& details.len() > 20 ==> occurs(
                "... +"@ + decimal((details.len() - 20) as nat) + " more errors"@,
                r,
            )
        }),
{
    let clean = without_ansi(output);
    let ls = test_lines(clean);
    let s = test_summary(ls);
    let pick = |l: TestLine<Seq<char>, FoundText>|
        if l.detail {
            Some(l.text)
        } else {
            None
        };
    let at = law_picked_in_order(ls, pick);
    assert(ls.filter_map(pick) == s.details);
    assert forall|i: int|
        0 <= i < ls.len() && regex_matches(
            XCTEST_ERROR@,
            (#[trigger] ls[i]).text,
        ) implies s.details.contains(ls[i].text) by {
        assert(ls[i] == test_line(lines_of(clean)[i]));
        assert(pick(ls[i]) == Some(ls[i].text));
    }
    assert(all_trimmed(s.details)) by {
        assert forall|k: int| 0 <= k < s.details.len() implies is_trimmed(
            #[trigger] s.details[k],
        ) by {
            assert(pick(ls[at[k]]) == Some(s.details[k]));
            law_trimmed_is_trimmed(lines_of(clean)[at[k]]);
        }
    }
    if s.details.len() > 0 {
        lemma_details_in_report(s);
    }
}

/// The report up to what went wrong.
spec fn report_start(s: TestSummaryView) -> Seq<char> {
    if s.failures.len() > 0 {
        "swift test\n"@ + failed_line(s) + "\n\n"@ + listed(s.failures, "  "@)
    } else if passed_in(s) > 0 {
        "swift test\n"@ + decimal(passed_in(s)) + " passed, 0 failed\n"@
    } else {
        "swift test\nNo tests found\n"@
    }
}

proof fn lemma_details_in_report(s: TestSummaryView)
    requires
        s.details.len() > 0,
        all_trimmed(s.details),
    ensures
        ({
            let r = test_report(s);
            &&& forall|k: int|
                0 <= k < shown(s.details.len(), 20) ==> occurs(#[trigger] s.details[k], r)
            &&& forall|j: int, k: int|
                0 <= j < k < shown(s.details.len(), 20) ==> in_order(
                    #[trigger] s.details[j],
                    #[trigger] s.details[k],
                    r,
                )
            &&& s.details.len() > 20 ==> occurs(
                "... +"@ + decimal((s.details.len() - 20) as nat) + " more errors"@,
                r,
            )
        }),
{
    let start = report_start(s);
    let pre = start + "\n"@;
    let list = capped(s.details, "  "@, 20, " more errors"@ + "\n"@);
    let post = all_listed("\nErrors ("@, s.errors);
    assert(" more errors\n"@ =~= " more errors"@ + "\n"@ && " more errors"@.len() > 0 && !is_space(
        " more errors"@.last(),
    )) by {
        reveal_strlit(" more errors\n");
        reveal_strlit(" more errors");
        reveal_strlit("\n");
    }
    lemma_capped_survives(pre, s.details, "  "@, 20, " more errors"@, post);
    assert(test_body(s) == start + ("\n"@ + list + post));
    assert(start + ("\n"@ + list + post) =~= pre + list + post);
}

/// No error gets lost, whatever became of the tests: every line that reports an error
/// or an issue is among the errors of XCTest or among the other errors. The report
/// states the number of the others and shows all of them verbatim, in the order of the
/// output.
pub proof fn law_test_errors_kept(output: Seq<char>)
    ensures
        ({
            let ls = test_lines(without_ansi(output));
            let errors = test_errors(ls);
            let r = swift_test_filtered(output);
            &&& forall|i: int|
                0 <= i < ls.len() && (regex_matches(ERROR_LINE@, (#[trigger] ls[i]).text)
                    || regex_matches(SWIFT_TEST_ISSUE@, ls[i].text)) ==> errors.contains(
                    ls[i].text,
                ) || test_details(ls).contains(ls[i].text)
            &&& forall|k: int| 0 <= k < errors.len() ==> occurs(#[trigger] errors[k], r)
            &&& forall|j: int, k: int|
                0 <= j < k < errors.len() ==> in_order(
                    #[trigger] errors[j],
                    #[trigger] errors[k],
                    r,
                )
            &&& errors.len() > 0 ==> occurs("Errors ("@ + decimal(errors.len()) + "):"@, r)
        }),
{
    let clean = without_ansi(output);
    let ls = test_lines(clean);
    let s = test_summary(ls);
    let pick = |l: TestLine<Seq<char>, FoundText>|
        if l.error && !l.detail {
            Some(l.text)
        } else {
            None
        };
    let at = law_picked_in_order(ls, pick);
    assert(ls.filter_map(pick) == s.errors);
    law_test_details_kept(output);
    assert forall|i: int|
        0 <= i < ls.len() && (regex_matches(ERROR_LINE@, (#[trigger] ls[i]).text)
            || regex_matches(SWIFT_TEST_ISSUE@, ls[i].text)) implies s.errors.contains(ls[i].text)
        || test_details(ls).contains(ls[i].text) by {
        assert(ls[i] == test_line(lines_of(clean)[i]));
        if !ls[i].detail {
            assert(pick(ls[i]) == Some(ls[i].text));
        }
    }
    assert(all_trimmed(s.errors)) by {
        assert forall|k: int| 0 <= k < s.errors.len() implies is_trimmed(
            #[trigger] s.errors[k],
        ) by {
            assert(pick(ls[at[k]]) == Some(s.errors[k]));
            law_trimmed_is_trimmed(lines_of(clean)[at[k]]);
        }
    }
    lemma_errors_in_report(s);
}

proof fn lemma_errors_in_report(s: TestSummaryView)
    requires
        all_trimmed(s.errors),
    ensures
        ({
            let r = test_report(s);
            &&& forall|k: int| 0 <= k < s.errors.len() ==> occurs(#[trigger] s.errors[k], r)
            &&& forall|j: int, k: int|
                0 <= j < k < s.errors.len() ==> in_order(
                    #[trigger] s.errors[j],
                    #[trigger] s.errors[k],
                    r,
                )
            &&& s.errors.len() > 0 ==> occurs("Errors ("@ + decimal(s.errors.len()) + "):"@, r)
        }),
{
    let none = Seq::<char>::empty();
    let start = report_start(s);
    let pre = start + details_part(s.details);
    let n = s.errors.len();
    let part = all_listed("\nErrors ("@, s.errors);
    assert("\nErrors ("@ =~= "\n"@ + "Errors ("@ && "Errors ("@.len() > 0 && !is_space(
        "Errors ("@[0],
    )) by {
        reveal_strlit("\n");
        reveal_strlit("\nErrors (");
        reveal_strlit("Errors (");
    }
    lemma_all_listed_is_section("\nErrors ("@, s.errors);
    lemma_section_survives(pre, "\nErrors ("@, "Errors ("@, s.errors, n, none);
    assert(test_body(s) == start + (details_part(s.details) + part));
    assert(start + (details_part(s.details) + part) =~= pre + part + none);
}

} // verus!
