//! The patterns, letter for letter: what a line is taken for depends on nothing else,
//! so a report changes with them.

use crate::pattern::{
    BUILD_COMPLETE, BUILD_FAILED, BUILD_PROGRESS, DEVICE_GROUP, DEVICE_HEADER, DEVICE_OS,
    ERROR_LINE, INDENTED_NAME, INDENTED_TYPE, INDENTED_VERSION, LINT_CORRECTED, LINT_SUMMARY,
    LINT_VIOLATION, PACKAGE_NAME, RECORD_DURATION, RECORD_METRIC, RECORD_NOISE, RECORD_STACK,
    RECORD_TARGET, RECORD_TEMPLATE, RECORD_TRACE_FILE, RECORD_TRACE_SIZE, RESOLVED_PACKAGE,
    RUNTIME, SECTION_HEADER, SIM_DEVICE, SWIFT_TEST_FAIL, SWIFT_TEST_ISSUE, SWIFT_TEST_PASS,
    SWIFT_TEST_RUN, TEMPLATE_NAME, UNAVAILABLE, WARNING_LINE, XCODE_COMPILE, XCODE_EMIT_MODULE,
    XCODE_LINK, XCODE_NOISE, XCODE_RESULT, XCODE_TEST_RESULT, XCTEST_ERROR, XCTEST_RESULT,
};
use vstd::prelude::*;

verus! {

/// The patterns for the output of `swift build`.
pub proof fn law_build_patterns()
    ensures
        BUILD_PROGRESS@ == r"^\[(\d+)/(\d+)\]"@,
        ERROR_LINE@ == r"^(?:.+?:\s+)?error:\s"@,
        WARNING_LINE@ == r"^(?:.+?:\s+)?warning:\s"@,
        BUILD_COMPLETE@ == r"^Build (?:of product '.+' )?complete!"@,
        BUILD_FAILED@ == r"(?i)^build .*(failed|error)"@,
{
}

/// The patterns for the output of `swift test`.
pub proof fn law_test_patterns()
    ensures
        XCTEST_RESULT@ == r"^Test Case '-\[(\S+)\.(\S+) ([^\]]+)\]' (passed|failed) \(([0-9.]+) seconds\)"@,
        XCTEST_ERROR@ == r"^\S+:\d+: error: -\["@,
        SWIFT_TEST_PASS@ == r"^[✔✓] Test (.+) passed after ([0-9.]+) seconds"@,
        SWIFT_TEST_FAIL@ == r"^[✘✗] Test (.+) failed after ([0-9.]+) seconds"@,
        SWIFT_TEST_ISSUE@ == r"^[✘✗] Test .+ recorded an issue"@,
        SWIFT_TEST_RUN@ == r"^[✔✓✘✗] Test run with (\d+) tests?(?: .*)? (passed|failed)"@,
{
}

/// The patterns for the output of `swift package`.
pub proof fn law_package_patterns()
    ensures
        PACKAGE_NAME@ == r"^Name:\s+(.+)"@,
        INDENTED_NAME@ == r"^\s{4}Name:\s+(.+)"@,
        INDENTED_VERSION@ == r"^\s{4}Version:\s+(.+)"@,
        INDENTED_TYPE@ == r"^\s{4}Type:\s+(.+)"@,
{
}

/// The patterns for the output of `xcodebuild`.
pub proof fn law_xcode_patterns()
    ensures
        XCODE_COMPILE@ == r"^SwiftCompile .+ /\S+/(\S+\.swift) \(in target '([^']+)'"@,
        XCODE_LINK@ == r"^Ld .+ \(in target '([^']+)'"@,
        XCODE_EMIT_MODULE@ == r"^SwiftEmitModule .+ \(in target '([^']+)'"@,
        RESOLVED_PACKAGE@ == r"^(\S+):\s+\S+\s+@\s+(\S+)"@,
        XCODE_RESULT@ == r"^\*\* (BUILD|TEST|CLEAN) (SUCCEEDED|FAILED) \*\*"@,
        XCODE_TEST_RESULT@ == r"^Test case '(\S+?)\.(\S+?)\(\)' (passed|failed) on '[^']+' \(([0-9.]+) seconds\)"@,
        XCODE_NOISE@ == r"^(?:CreateBuildDirectory|cd |/Applications/Xcode|Build description|note: |User defaults|Command line invocation|\s+/(?:Applications|usr|Library/Developer|var/folders)/|Test Suite |Test Case .* started)"@,
{
}

/// The patterns for the output of `swiftlint`.
pub proof fn law_lint_patterns()
    ensures
        LINT_VIOLATION@ == r"^(.+?):(\d+):\d+:\s+(warning|error):\s+(.+?)\s+\((\w+)\)\s*$"@,
        LINT_SUMMARY@ == r"(?i)^Done linting!.*Found (\d+) violations?,\s*(\d+) serious"@,
        LINT_CORRECTED@ == r"(?i)^Done correcting!|corrected \d+ violations?"@,
{
}

/// The patterns for the output of `simctl`.
pub proof fn law_sim_patterns()
    ensures
        SECTION_HEADER@ == r"^== (.+) ==$"@,
        RUNTIME@ == r"^(\w+(?:\s*OS)?\s+[\d.]+)\s+\("@,
        DEVICE_GROUP@ == r"^-- (.+) --$"@,
        SIM_DEVICE@ == r"^(.+?)\s+\([A-F0-9-]{36}\)\s+\((\w+)\)"@,
        UNAVAILABLE@ == r"^-- Unavailable:"@,
{
}

/// The patterns for the output of `xctrace`.
pub proof fn law_xctrace_patterns()
    ensures
        TEMPLATE_NAME@ == r"^[A-Z][A-Za-z0-9 /-]+$"@,
        DEVICE_HEADER@ == r"^(.+?)\s+\([A-F0-9-]{36}\)\s*$"@,
        DEVICE_OS@ == r"^\s+OS:\s+(.+)"@,
        RECORD_DURATION@ == r"Duration:\s+(.+)"@,
        RECORD_TRACE_FILE@ == r"Trace file:\s+(.+)"@,
        RECORD_TRACE_SIZE@ == r"Trace file size:\s+(.+)"@,
        RECORD_TEMPLATE@ == r"Template:\s+(.+)"@,
        RECORD_TARGET@ == r"Target:\s+(.+)"@,
        RECORD_STACK@ == r"^(\d+\.\d+)%\s+(.+)"@,
        RECORD_METRIC@ == r"^(Samples|Threads sampled|CPU utilization|Hitch-free|os_signpost):\s+(.+)"@,
        RECORD_NOISE@ == r"^(Starting recording|Tracing process|Recording\.\.\.|Output file saved|Recording completed|Run complete|To view)"@,
{
}

} // verus!
