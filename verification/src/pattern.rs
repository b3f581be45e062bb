//! Regular expressions: the patterns that the filters use, and the calls into
//! the `regex` crate.
//!
//! What a pattern matches is the business of the `regex` crate. Here the result
//! of a search has a name, [`regex_captures`], and the contracts of the filters
//! speak of that name.

use regex::Regex;
use vstd::prelude::*;

verus! {

// ─── swift build ────────────────────────────────────────────────────────────

/// `[12/40] Compiling Foo Bar.swift`; groups: step, total.
pub const BUILD_PROGRESS: &'static str = r"^\[(\d+)/(\d+)\]";

/// An error line: of a source file, of a package or project, or top-level. The
/// path may hold spaces.
pub const ERROR_LINE: &'static str = r"^(?:.+?:\s+)?error:\s";

/// A warning line, in the same forms as an error line.
pub const WARNING_LINE: &'static str = r"^(?:.+?:\s+)?warning:\s";

/// `Build complete! (3.42s)` or `Build of product 'Foo' complete! (0.28s)`.
pub const BUILD_COMPLETE: &'static str = r"^Build (?:of product '.+' )?complete!";

/// A build that failed.
pub const BUILD_FAILED: &'static str = r"(?i)^build .*(failed|error)";

// ─── swift test ─────────────────────────────────────────────────────────────

/// `Test Case '-[Module.Suite testName]' passed (0.003 seconds).`; groups:
/// module, suite, test, status, duration. A test name is anything without a closing
/// bracket.
pub const XCTEST_RESULT: &'static str =
    r"^Test Case '-\[(\S+)\.(\S+) ([^\]]+)\]' (passed|failed) \(([0-9.]+) seconds\)";

/// `/path/File.swift:42: error: -[Module.Suite testFoo] : XCTAssert...`.
pub const XCTEST_ERROR: &'static str = r"^\S+:\d+: error: -\[";

/// `✔ Test name() passed after 0.001 seconds.`; groups: name, duration.
pub const SWIFT_TEST_PASS: &'static str = r"^[✔✓] Test (.+) passed after ([0-9.]+) seconds";

/// `✘ Test name() failed after 0.001 seconds.`; groups: name, duration.
pub const SWIFT_TEST_FAIL: &'static str = r"^[✘✗] Test (.+) failed after ([0-9.]+) seconds";

/// `✘ Test name() recorded an issue at File.swift:10:5: Expectation failed`.
pub const SWIFT_TEST_ISSUE: &'static str = r"^[✘✗] Test .+ recorded an issue";

/// The summary line of a whole Swift Testing run, with or without the number of
/// suites.
pub const SWIFT_TEST_RUN: &'static str =
    r"^[✔✓✘✗] Test run with (\d+) tests?(?: .*)? (passed|failed)";

// ─── swift package ──────────────────────────────────────────────────────────

/// `Name: value` at the start of a line; group: value.
pub const PACKAGE_NAME: &'static str = r"^Name:\s+(.+)";

/// `Name: value` behind four whitespace characters; group: value.
pub const INDENTED_NAME: &'static str = r"^\s{4}Name:\s+(.+)";

/// `Version: value` behind four whitespace characters; group: value.
pub const INDENTED_VERSION: &'static str = r"^\s{4}Version:\s+(.+)";

/// `Type: value` behind four whitespace characters; group: value.
pub const INDENTED_TYPE: &'static str = r"^\s{4}Type:\s+(.+)";

// ─── xcodebuild ─────────────────────────────────────────────────────────────

/// `SwiftCompile normal arm64 /p/File.swift (in target 'Foo' from project 'Bar')`;
/// groups: file, target.
pub const XCODE_COMPILE: &'static str =
    r"^SwiftCompile .+ /\S+/(\S+\.swift) \(in target '([^']+)'";

/// `Ld /path/binary normal arm64 (in target 'Foo' from project 'Bar')`; group:
/// target.
pub const XCODE_LINK: &'static str = r"^Ld .+ \(in target '([^']+)'";

/// `SwiftEmitModule normal arm64 ...`; group: target.
pub const XCODE_EMIT_MODULE: &'static str = r"^SwiftEmitModule .+ \(in target '([^']+)'";

/// `Name: https://host/repo @ 1.2.3`; groups: name, version.
pub const RESOLVED_PACKAGE: &'static str = r"^(\S+):\s+\S+\s+@\s+(\S+)";

/// `** BUILD SUCCEEDED **` and its relatives; groups: action, result.
pub const XCODE_RESULT: &'static str = r"^\*\* (BUILD|TEST|CLEAN) (SUCCEEDED|FAILED) \*\*";

/// `Test case 'Suite.testName()' passed on 'My Mac - xctest (1)' (0.003 seconds)`;
/// groups: suite, test, status, duration.
pub const XCODE_TEST_RESULT: &'static str =
    r"^Test case '(\S+?)\.(\S+?)\(\)' (passed|failed) on '[^']+' \(([0-9.]+) seconds\)";

/// Lines of `xcodebuild` that carry nothing worth keeping.
pub const XCODE_NOISE: &'static str =
    r"^(?:CreateBuildDirectory|cd |/Applications/Xcode|Build description|note: |User defaults|Command line invocation|\s+/(?:Applications|usr|Library/Developer|var/folders)/|Test Suite |Test Case .* started)";

// ─── swiftlint ──────────────────────────────────────────────────────────────

/// `/path/File.swift:10:5: warning: Line Length Violation: ... (line_length)`;
/// groups: path, line, severity, message, rule.
pub const LINT_VIOLATION: &'static str =
    r"^(.+?):(\d+):\d+:\s+(warning|error):\s+(.+?)\s+\((\w+)\)\s*$";

/// `Done linting! Found 47 violations, 3 serious in 12 files.`; groups:
/// violations, serious.
pub const LINT_SUMMARY: &'static str =
    r"(?i)^Done linting!.*Found (\d+) violations?,\s*(\d+) serious";

/// The closing line of a run that corrected violations.
pub const LINT_CORRECTED: &'static str = r"(?i)^Done correcting!|corrected \d+ violations?";

// ─── simctl ─────────────────────────────────────────────────────────────────

/// `== Device Types ==`; group: title.
pub const SECTION_HEADER: &'static str = r"^== (.+) ==$";

/// `iOS 17.5 (17.5 - 21F79) - com.apple...`; group: name and version.
pub const RUNTIME: &'static str = r"^(\w+(?:\s*OS)?\s+[\d.]+)\s+\(";

/// `-- iOS 17.5 --`; group: runtime.
pub const DEVICE_GROUP: &'static str = r"^-- (.+) --$";

/// `iPhone 15 Pro (UUID) (Booted)`; groups: name, state.
pub const SIM_DEVICE: &'static str = r"^(.+?)\s+\([A-F0-9-]{36}\)\s+\((\w+)\)";

/// The header of a runtime that is no longer installed.
pub const UNAVAILABLE: &'static str = r"^-- Unavailable:";

// ─── xctrace ────────────────────────────────────────────────────────────────

/// The name of an Instruments template.
pub const TEMPLATE_NAME: &'static str = r"^[A-Z][A-Za-z0-9 /-]+$";

/// `iPhone (UUID)`; group: name.
pub const DEVICE_HEADER: &'static str = r"^(.+?)\s+\([A-F0-9-]{36}\)\s*$";

/// `    OS: iOS 18.0 (22A3354)`; group: system.
pub const DEVICE_OS: &'static str = r"^\s+OS:\s+(.+)";

/// `Duration: 30.12 seconds`; group: value.
pub const RECORD_DURATION: &'static str = r"Duration:\s+(.+)";

/// `Trace file: /path/file.trace`; group: path.
pub const RECORD_TRACE_FILE: &'static str = r"Trace file:\s+(.+)";

/// `Trace file size: 48.3 MB`; group: size.
pub const RECORD_TRACE_SIZE: &'static str = r"Trace file size:\s+(.+)";

/// `Template: Time Profiler`; group: name.
pub const RECORD_TEMPLATE: &'static str = r"Template:\s+(.+)";

/// `Target: ProcessName [pid: 12345]`; group: target.
pub const RECORD_TARGET: &'static str = r"Target:\s+(.+)";

/// `30.2%  SimpleHTTPServer`; groups: share, name.
pub const RECORD_STACK: &'static str = r"^(\d+\.\d+)%\s+(.+)";

/// `CPU utilization: 67.2% (avg)`; groups: metric, value.
pub const RECORD_METRIC: &'static str =
    r"^(Samples|Threads sampled|CPU utilization|Hitch-free|os_signpost):\s+(.+)";

/// Lines of `xctrace record` that carry nothing worth keeping.
pub const RECORD_NOISE: &'static str =
    r"^(Starting recording|Tracing process|Recording\.\.\.|Output file saved|Recording completed|Run complete|To view)";

/// The patterns above: each of them is a valid regular expression.
pub open spec fn is_pattern(source: Seq<char>) -> bool {
    ||| source == BUILD_PROGRESS@
    ||| source == ERROR_LINE@
    ||| source == WARNING_LINE@
    ||| source == BUILD_COMPLETE@
    ||| source == BUILD_FAILED@
    ||| source == XCTEST_RESULT@
    ||| source == XCTEST_ERROR@
    ||| source == SWIFT_TEST_PASS@
    ||| source == SWIFT_TEST_FAIL@
    ||| source == SWIFT_TEST_ISSUE@
    ||| source == SWIFT_TEST_RUN@
    ||| source == PACKAGE_NAME@
    ||| source == INDENTED_NAME@
    ||| source == INDENTED_VERSION@
    ||| source == INDENTED_TYPE@
    ||| source == XCODE_COMPILE@
    ||| source == XCODE_LINK@
    ||| source == XCODE_EMIT_MODULE@
    ||| source == RESOLVED_PACKAGE@
    ||| source == XCODE_RESULT@
    ||| source == XCODE_TEST_RESULT@
    ||| source == XCODE_NOISE@
    ||| source == LINT_VIOLATION@
    ||| source == LINT_SUMMARY@
    ||| source == LINT_CORRECTED@
    ||| source == SECTION_HEADER@
    ||| source == RUNTIME@
    ||| source == DEVICE_GROUP@
    ||| source == SIM_DEVICE@
    ||| source == UNAVAILABLE@
    ||| source == TEMPLATE_NAME@
    ||| source == DEVICE_HEADER@
    ||| source == DEVICE_OS@
    ||| source == RECORD_DURATION@
    ||| source == RECORD_TRACE_FILE@
    ||| source == RECORD_TRACE_SIZE@
    ||| source == RECORD_TEMPLATE@
    ||| source == RECORD_TARGET@
    ||| source == RECORD_STACK@
    ||| source == RECORD_METRIC@
    ||| source == RECORD_NOISE@
}

// ─── Search results ─────────────────────────────────────────────────────────

/// What a search found, as plain text: nothing, or the text of each group, group
/// 0 being the whole match. A group that took no part in the match has no text.
pub type FoundText = Option<Seq<Option<Seq<char>>>>;

/// What a search found.
pub struct Found {
    pub groups: Option<Vec<Option<String>>>,
}

/// The text of a group, if it took part in the match.
pub open spec fn group_view(group: Option<String>) -> Option<Seq<char>> {
    match group {
        Some(text) => Some(text@),
        None => None,
    }
}

impl View for Found {
    type V = FoundText;

    open spec fn view(&self) -> FoundText {
        match self.groups {
            Some(groups) => Some(groups@.map_values(|g: Option<String>| group_view(g))),
            None => None,
        }
    }
}

/// The text of group `k`; empty where the search found nothing or the group took
/// no part in the match.
pub open spec fn group_text(found: FoundText, k: int) -> Seq<char> {
    match found {
        Some(groups) => if 0 <= k < groups.len() {
            match groups[k] {
                Some(text) => text,
                None => seq![],
            }
        } else {
            seq![]
        },
        None => seq![],
    }
}

impl Found {
    /// Whether there was a match.
    pub fn is_match(&self) -> (r: bool)
        ensures
            r == (self@ is Some),
    {
        self.groups.is_some()
    }

    /// The text of group `k`.
    pub fn group(&self, k: usize) -> (r: String)
        ensures
            r@ == group_text(self@, k as int),
    {
        match &self.groups {
            Some(groups) => {
                if k < groups.len() {
                    match &groups[k] {
                        Some(text) => text.clone(),
                        None => String::new(),
                    }
                } else {
                    String::new()
                }
            },
            None => String::new(),
        }
    }
}

// ─── The regex crate ────────────────────────────────────────────────────────

/// The compiled regular expression of the `regex` crate.
#[verifier::external_type_specification]
#[verifier::external_body]
pub struct ExRegex(regex::Regex);

/// What `regex::Regex::captures` finds when `pattern` is searched for in `text`:
/// the groups of the leftmost match, or `None` where there is no match.
pub uninterp spec fn regex_captures(pattern: Seq<char>, text: Seq<char>) -> FoundText;

/// Whether `pattern` matches somewhere in `text`.
pub open spec fn regex_matches(pattern: Seq<char>, text: Seq<char>) -> bool {
    regex_captures(pattern, text) is Some
}

/// A compiled pattern together with its source. The fields are private to this
/// module, and `compile` is the only function that fills them in.
pub struct Pattern {
    source: String,
    compiled: Regex,
}

impl Pattern {
    /// The regular expression that this was compiled from.
    pub closed spec fn source(self) -> Seq<char> {
        self.source@
    }

    /// `regex::Regex::new`. Claimed: it accepts each of the patterns of this
    /// module, so that unwrapping its result does not panic.
    #[verifier::external_body]
    pub(crate) fn compile(source: &str) -> (r: Pattern)
        requires
            is_pattern(source@),
        ensures
            r.source() == source@,
    {
        Pattern { source: source.to_string(), compiled: Regex::new(source).unwrap() }
    }

    /// `regex::Regex::is_match`. Claimed: it tells whether there is a match, that
    /// is, whether a search for the groups finds any.
    #[verifier::external_body]
    pub(crate) fn is_match(&self, text: &str) -> (r: bool)
        ensures
            r == regex_matches(self.source(), text@),
    {
        self.compiled.is_match(text)
    }

    /// `regex::Regex::captures`, with the text of each group copied out by
    /// `Captures::iter`. Claimed: the result depends on the pattern and the text
    /// alone. What matches what is left to the `regex` crate.
    #[verifier::external_body]
    pub(crate) fn captures(&self, text: &str) -> (r: Found)
        ensures
            r@ == regex_captures(self.source(), text@),
    {
        Found {
            groups: self.compiled.captures(text).map(
                |caps| caps.iter().map(|m| m.map(|m| m.as_str().to_string())).collect(),
            ),
        }
    }
}

} // verus!
