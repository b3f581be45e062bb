//! The filters for `swift build`, `swift test`, `swift package` and `swift run`.

use rtk::cmds::apple::swift_cmd::building::{
    filter_swift_build, read_build_lines, render_build, summarize_build, BuildSummary,
};
use rtk::cmds::apple::swift_cmd::package::filter_swift_package;
use rtk::cmds::apple::swift_cmd::running::{filter_swift_run, program_output, read_run_lines, RunLine};
use rtk::cmds::apple::swift_cmd::testing::{
    filter_swift_test, render_tests, summarize_tests, TestLine, TestSummary,
};
use rtk::cmds::apple::swift_cmd::{run, SwiftCommand};
use rtk::invocation::Filter;
use rtk::pattern::Found;

fn count_tokens(text: &str) -> usize {
    text.split_whitespace().count()
}

fn savings(input: &str, output: &str) -> f64 {
    100.0 - (count_tokens(output) as f64 / count_tokens(input) as f64 * 100.0)
}

fn words(list: &[&str]) -> Vec<String> {
    list.iter().map(|w| w.to_string()).collect()
}

fn swift_build_raw() -> String {
    let mut text = String::from("Building for debugging...\n[0/41] Write sources\n");
    text.push_str("[1/41] Copying Shaders.metal\n");
    for i in 2..41 {
        text.push_str(&format!(
            "[{}/41] Compiling PsyScopeFramework File{}.swift Helper{}.swift Support{}.swift\n",
            i, i, i, i
        ));
    }
    text.push_str("[41/41] Applying PsyScopeTahoe\nBuild complete! (12.34s)\n");
    text
}

fn swift_test_raw() -> String {
    let mut text = String::from("Building for debugging...\n[1/1] Planning build\n");
    text.push_str("Build complete! (0.82s)\nTest Suite 'All tests' started at 2026-04-12 10:00:00.000.\n");
    for i in 0..50 {
        text.push_str(&format!("Test Case '-[TahoeTests.ScriptTests testCase{}]' started.\n", i));
        text.push_str(&format!(
            "Test Case '-[TahoeTests.ScriptTests testCase{}]' passed (0.00{} seconds).\n",
            i,
            i % 10
        ));
    }
    for i in 0..3 {
        text.push_str(&format!("Test Case '-[TahoeTests.TimingTests testDrift{}]' started.\n", i));
        text.push_str(&format!(
            "/src/Tests/TimingTests.swift:{}: error: -[TahoeTests.TimingTests testDrift{}] : XCTAssertEqual failed\n",
            40 + i,
            i
        ));
        text.push_str(&format!(
            "Test Case '-[TahoeTests.TimingTests testDrift{}]' failed (0.10{} seconds).\n",
            i, i
        ));
    }
    text.push_str("\t Executed 53 tests, with 3 failures (0 unexpected) in 0.400 (0.410) seconds\n");
    text.push_str("\u{25c7} Test run started.\n\u{21b3} Testing Library Version: 1501\n");
    for s in 0..22 {
        text.push_str(&format!("\u{25c7} Suite Suite{} started.\n", s));
    }
    for i in 0..55 {
        text.push_str(&format!("\u{25c7} Test check{}() started.\n", i));
        text.push_str(&format!("\u{2714} Test check{}() passed after 0.001 seconds.\n", i));
    }
    for i in 0..4 {
        text.push_str(&format!("\u{25c7} Test broken{}() started.\n", i));
        text.push_str(&format!(
            "\u{2718} Test broken{}() recorded an issue at BrokenTests.swift:{}:5: Expectation failed\n",
            i,
            10 + i
        ));
        text.push_str(&format!("\u{2718} Test broken{}() failed after 0.002 seconds with 1 issue.\n", i));
    }
    text.push_str("\u{2718} Test run with 59 tests in 22 suites failed after 0.120 seconds with 4 issues.\n");
    text
}

fn swift_package_raw() -> String {
    let mut text = String::from("Name: PsyScopeTahoe\nManifest display name: PsyScopeTahoe\nPath: /src/PsyScopeTahoe\nTools version: 6.0\n");
    text.push_str("Platforms:\n    Name: macos\n    Version: 14.0\n\nProducts:\n    Name: PsyScopeTahoe\n    Type:\n        Executable\n    Targets:\n        PsyScopeTahoe\n\n");
    text.push_str("Targets:\n");
    for name in ["PsyScopeTahoe", "PsyScopeFramework", "PsyScopeTests", "PsyScopeBench"] {
        text.push_str(&format!(
            "    Name: {}\n    C99name: {}\n    Type: library\n    Module type: SwiftTarget\n    Path: /src/PsyScopeTahoe/Sources/{}\n    Sources:\n        A.swift\n        B.swift\n        C.swift\n        D.swift\n        E.swift\n        F.swift\n\n",
            name, name, name
        ));
    }
    text
}

fn swift_run_raw() -> String {
    let mut text = String::from("Building for debugging...\n[0/19] Write swift-version--58304C5D6DBC2206.txt\n");
    for i in 1..19 {
        text.push_str(&format!("[{}/19] Compiling PsyScopeFramework Unit{}.swift Detail{}.swift\n", i, i, i));
    }
    text.push_str("[19/19] Linking PsyScopeTest\nBuild of product 'PsyScopeTest' complete! (2.11s)\n");
    text.push_str("PsyScope Tahoe self test\n3 checks passed\n");
    text
}

// ── swift build ──────────────────────────────────────────────────────────

#[test]
fn test_filter_swift_build_format() {
    let input = swift_build_raw();
    let output = filter_swift_build(&input);
    assert!(output.contains("swift build"));
    assert!(output.contains("Compiled"));
    assert!(output.contains("Build complete!"));
    assert!(!output.contains("Compiling PsyScopeFramework"));
}

#[test]
fn test_filter_swift_build_savings() {
    let input = swift_build_raw();
    let output = filter_swift_build(&input);
    assert!(savings(&input, &output) >= 60.0);
}

#[test]
fn test_filter_swift_build_empty() {
    let output = filter_swift_build("");
    assert!(output.contains("swift build"));
}

#[test]
fn test_filter_swift_build_errors() {
    let input = "Building for debugging...\n\
        [1/3] Compiling Foo Bar.swift\n\
        /path/Bar.swift:10:5: error: use of undeclared type 'Baz'\n\
        /path/Bar.swift:15:1: warning: result unused\n\
        Build complete! (0.5s)\n";
    let output = filter_swift_build(input);
    assert!(output.contains("Errors (1)"));
    assert!(output.contains("Warnings (1)"));
}

#[test]
fn build_report_is_exact() {
    let input = "[1/3] Compiling Foo Bar.swift\n\
        [2/7] Compiling Foo Baz.swift\n\
        /path/Bar.swift:10:5: error: use of undeclared type 'Baz'\n\
        error: no such module\n\
        /path/Bar.swift:15:1: warning: result unused\n\
        Build complete! (0.5s)\n";
    assert_eq!(
        filter_swift_build(input),
        "swift build\nCompiled 2/7 steps\n\nErrors (2):\n  /path/Bar.swift:10:5: error: use of undeclared type 'Baz'\n  error: no such module\n\nWarnings (1):\n  /path/Bar.swift:15:1: warning: result unused\n\nBuild complete! (0.5s)"
    );
}

#[test]
fn build_without_status_is_ok_unless_it_has_errors() {
    assert_eq!(filter_swift_build(""), "swift build\nok");
    assert_eq!(
        filter_swift_build("error: no such module\n"),
        "swift build\n\nErrors (1):\n  error: no such module"
    );
}

#[test]
fn build_keeps_every_error_in_order() {
    let mut input = String::new();
    for i in 0..30 {
        input.push_str(&format!("/p/F.swift:{}:1: error: number {}\n", i, i));
    }
    let output = filter_swift_build(&input);
    assert!(output.contains("Errors (30):"));
    let mut last = 0;
    for i in 0..30 {
        let at = output.find(&format!("/p/F.swift:{}:1: error: number {}\n", i, i));
        if i < 29 {
            assert!(at.is_some() && at.unwrap() >= last);
            last = at.unwrap();
        }
    }
    assert!(output.ends_with("error: number 29"));
}

#[test]
fn build_shows_ten_warnings_and_counts_the_rest() {
    let mut input = String::new();
    for i in 0..26 {
        input.push_str(&format!("/p/F.swift:{}:1: warning: number {}\n", i, i));
    }
    let output = filter_swift_build(&input);
    assert!(output.contains("Warnings (26):"));
    assert!(output.contains("warning: number 9"));
    assert!(!output.contains("warning: number 10"));
    assert!(output.contains("  ... +16 more"));
}

#[test]
fn build_steps_are_the_largest() {
    let lines = read_build_lines("[5/9] a\n[7/8] b\n[99999999999/3] c\n");
    let summary = summarize_build(&lines);
    assert_eq!(summary.steps, 7);
    assert_eq!(summary.total_steps, 9);
}

#[test]
fn build_status_is_the_last_one() {
    let output = filter_swift_build("Build complete! (1s)\nbuild task FAILED\n");
    assert!(output.ends_with("build task FAILED"));
    assert!(!output.contains("complete"));
}

#[test]
fn build_report_of_a_summary() {
    let summary = BuildSummary {
        steps: 0,
        total_steps: 0,
        errors: Vec::new(),
        warnings: words(&["w"]),
        status: String::new(),
    };
    assert_eq!(render_build(&summary), "swift build\n\nWarnings (1):\n  w\nok");
}

// ── swift test ───────────────────────────────────────────────────────────

#[test]
fn test_filter_swift_test_format() {
    let input = swift_test_raw();
    let output = filter_swift_test(&input);
    assert!(output.contains("swift test"));
    assert!(output.contains("105 passed"));
    assert!(output.contains("7 failed"));
    assert!(!output.contains("\u{25c7} Test"));
    assert!(!output.contains("\u{25c7} Suite"));
    assert!(!output.contains("Testing Library Version"));
    assert!(!output.contains("FAIL run with"));
}

#[test]
fn test_filter_swift_test_savings() {
    let input = swift_test_raw();
    let output = filter_swift_test(&input);
    assert!(savings(&input, &output) >= 60.0);
}

#[test]
fn test_filter_swift_test_empty() {
    let output = filter_swift_test("");
    assert!(output.contains("No tests found"));
}

#[test]
fn test_filter_swift_test_all_pass() {
    let input = "Test Case '-[M.S testA]' passed (0.001 seconds).\n\
        Test Case '-[M.S testB]' passed (0.002 seconds).\n\
        \t Executed 2 tests, with 0 failures (0 unexpected) in 0.003 seconds\n";
    let output = filter_swift_test(input);
    assert!(output.contains("2 passed, 0 failed"));
}

#[test]
fn test_report_is_exact() {
    let input = "Test Case '-[M.S testA]' passed (0.001 seconds).\n\
        /p/S.swift:42: error: -[M.S testB] : XCTAssertTrue failed\n\
        Test Case '-[M.S testB]' failed (0.002 seconds).\n\
        \u{2718} Test broken() failed after 0.003 seconds with 1 issue.\n\
        \u{2714} Test fine() passed after 0.001 seconds.\n\
        \u{2718} Test run with 2 tests in 1 suite failed after 0.1 seconds with 1 issue.\n";
    assert_eq!(
        filter_swift_test(input),
        "swift test\n2 passed, 2 failed (of 4)\n\n  FAIL S.testB (0.002s)\n  FAIL broken() (0.003s)\n\n  /p/S.swift:42: error: -[M.S testB] : XCTAssertTrue failed"
    );
}

#[test]
fn test_without_failures_is_exact() {
    assert_eq!(
        filter_swift_test("Test Case '-[M.S testA]' passed (0.001 seconds).\n"),
        "swift test\n1 passed, 0 failed"
    );
    assert_eq!(filter_swift_test("nothing here\n"), "swift test\nNo tests found");
}

#[test]
fn test_run_line_counts_as_no_test() {
    let output = filter_swift_test(
        "\u{2714} Test run with 3 tests in 1 suite passed after 0.010 seconds.\n",
    );
    assert_eq!(output, "swift test\nNo tests found");
}

#[test]
fn test_details_are_cut_off_at_twenty() {
    let mut input = String::from("Test Case '-[M.S testB]' failed (0.002 seconds).\n");
    for i in 0..23 {
        input.push_str(&format!("/p/S.swift:{}: error: -[M.S testB] : failed\n", 100 + i));
    }
    let output = filter_swift_test(&input);
    assert!(output.contains("/p/S.swift:119:"));
    assert!(!output.contains("/p/S.swift:120:"));
    assert!(output.ends_with("... +3 more errors"));
}

#[test]
fn test_compile_error_is_shown_without_tests() {
    assert_eq!(
        filter_swift_test("/p/Foo.swift:10:5: error: cannot find 'Bar' in scope\n"),
        "swift test\nNo tests found\n\nErrors (1):\n  /p/Foo.swift:10:5: error: cannot find 'Bar' in scope"
    );
    assert_eq!(
        filter_swift_test("error: no such module 'Bar'\n"),
        "swift test\nNo tests found\n\nErrors (1):\n  error: no such module 'Bar'"
    );
}

#[test]
fn test_errors_are_shown_where_no_test_failed() {
    let input = "/p/S.swift:42: error: -[M.S testB] : XCTAssertTrue failed\n\
        Test Case '-[M.S testA]' passed (0.001 seconds).\n";
    assert_eq!(
        filter_swift_test(input),
        "swift test\n1 passed, 0 failed\n\n  /p/S.swift:42: error: -[M.S testB] : XCTAssertTrue failed"
    );
}

#[test]
fn test_assertion_messages_are_kept_beside_other_errors() {
    let mut input = String::new();
    for i in 0..20 {
        input.push_str(&format!("/p/G.swift:{}:1: error: number {}.\n", i, i));
    }
    input.push_str("Test Case '-[M.S t]' failed (0.1 seconds).\n");
    input.push_str("/p/F.swift:42: error: -[M.S t] : XCTAssertTrue failed\n");
    let output = filter_swift_test(&input);
    assert!(output.starts_with(
        "swift test\n0 passed, 1 failed (of 1)\n\n  FAIL S.t (0.1s)\n\n  /p/F.swift:42: error: -[M.S t] : XCTAssertTrue failed\n\nErrors (20):\n  /p/G.swift:0:1: error: number 0.\n"
    ));
    for i in 0..20 {
        assert!(output.contains(&format!("error: number {}.", i)));
    }
    assert!(!output.contains("more"));
}

#[test]
fn test_issues_are_kept_with_their_place() {
    let input = "\u{2718} Test b() recorded an issue at BTests.swift:10:5: Expectation failed: 1 == 2\n\
        \u{2718} Test b() failed after 0.002 seconds with 1 issue.\n";
    assert_eq!(
        filter_swift_test(input),
        "swift test\n0 passed, 1 failed (of 1)\n\n  FAIL b() (0.002s)\n\nErrors (1):\n  \u{2718} Test b() recorded an issue at BTests.swift:10:5: Expectation failed: 1 == 2"
    );
}

#[test]
fn test_run_line_without_suites_counts_as_no_test() {
    let failed = "\u{2718} Test b() failed after 0.002 seconds with 1 issue.\n\u{2718} Test run with 1 test failed after 0.003 seconds with 1 issue.\n";
    assert_eq!(
        filter_swift_test(failed),
        "swift test\n0 passed, 1 failed (of 1)\n\n  FAIL b() (0.002s)"
    );
    let passed = "\u{2714} Test a() passed after 0.001 seconds.\n\u{2714} Test run with 1 test passed after 0.001 seconds.\n";
    assert_eq!(filter_swift_test(passed), "swift test\n1 passed, 0 failed");
    let suites = "\u{2714} Test a() passed after 0.001 seconds.\n\u{2714} Test run with 1 test in 1 suite passed after 0.001 seconds.\n";
    assert_eq!(filter_swift_test(suites), "swift test\n1 passed, 0 failed");
}

#[test]
fn test_names_may_hold_any_character() {
    let input = "Test Case '-[M.S test\u{1f680}]' failed (0.2 seconds).\n\
        Test Case '-[M.S test\u{4e2d}\u{6587}]' passed (0.1 seconds).\n";
    assert_eq!(
        filter_swift_test(input),
        "swift test\n1 passed, 1 failed (of 2)\n\n  FAIL S.test\u{1f680} (0.2s)"
    );
}

#[test]
fn test_summary_of_search_results() {
    let none = || Found { groups: None };
    let fail = Found {
        groups: Some(vec![
            Some("all".to_string()),
            Some("name()".to_string()),
            Some("1.5".to_string()),
        ]),
    };
    let line = TestLine {
        text: "text".to_string(),
        xctest: none(),
        detail: true,
        error: true,
        run: false,
        pass: true,
        fail,
    };
    let summary = summarize_tests(&vec![line]);
    assert_eq!(summary.testing_passed, 1);
    assert_eq!(summary.xctest_passed, 0);
    assert_eq!(summary.failures, words(&["FAIL name() (1.5s)"]));
    assert_eq!(summary.details, words(&["text"]));
    assert!(summary.errors.is_empty());
}

#[test]
fn test_counts_add_up_beyond_one_counter() {
    let summary = TestSummary {
        xctest_passed: usize::MAX,
        testing_passed: 1,
        failures: Vec::new(),
        details: Vec::new(),
        errors: Vec::new(),
    };
    let sum = usize::MAX as u128 + 1;
    assert_eq!(render_tests(&summary), format!("swift test\n{} passed, 0 failed", sum));
}

// ── swift package ────────────────────────────────────────────────────────

#[test]
fn test_filter_swift_package_format() {
    let input = swift_package_raw();
    let output = filter_swift_package(&input);
    assert!(output.contains("Package: PsyScopeTahoe"));
    assert!(output.contains("Targets"));
    assert!(!output.contains("C99name"));
    assert!(!output.contains("Module type"));
    assert!(!output.contains("Path:"));
}

#[test]
fn test_filter_swift_package_savings() {
    let input = swift_package_raw();
    let output = filter_swift_package(&input);
    assert!(savings(&input, &output) >= 60.0);
}

#[test]
fn test_filter_swift_package_empty() {
    let output = filter_swift_package("");
    assert!(output.contains("Package:"));
}

#[test]
fn test_filter_swift_package_resolve_output() {
    let input = "Fetching https://github.com/apple/swift-nio.git\n\
        Computed swift-nio at 2.64.0 (0.01s)\n\
        Working copy of swift-nio resolved at 2.64.0\n";
    let output = filter_swift_package(input);
    assert!(output.contains("Fetching"));
    assert!(output.contains("swift-nio"));
    assert!(output.contains("2.64.0"));
}

#[test]
fn test_filter_swift_package_dump_package_json() {
    let input = "{\n  \"name\" : \"MyPackage\",\n  \"dependencies\" : []\n}\n";
    let output = filter_swift_package(input);
    assert!(output.contains("\"name\""));
    assert!(output.contains("MyPackage"));
}

#[test]
fn package_report_is_exact() {
    let input = "Name: Demo\nPath: /src/Demo\nPlatforms:\n    Name: macos\n\nDependencies:\n    Name: swift-nio\n    Version: 2.64.0\n    Name: swift-log\n\nProducts:\n    Name: Demo\n    Name: DemoKit\n\nTargets:\n    Name: Demo\n    Type: executable\n\n    Name: DemoKit\n    Type: library\n    Name: Plain";
    assert_eq!(
        filter_swift_package(input),
        "Package: Demo\nDependencies (2): swift-nio (2.64.0), swift-log\nProducts (2): Demo, DemoKit\nTargets (3):\n  Demo (executable)\n  DemoKit (library)\n  Plain"
    );
    assert_eq!(filter_swift_package(""), "Package:");
}

#[test]
fn package_keeps_the_last_target_without_a_blank_line() {
    let output = filter_swift_package("Name: P\nTargets:\n    Name: Last\n    Type: library");
    assert!(output.ends_with("  Last (library)"));
}

#[test]
fn package_passthrough_keeps_all_text() {
    assert_eq!(filter_swift_package("  one\n two \n\n"), "one\n two");
}

// ── swift run ────────────────────────────────────────────────────────────

#[test]
fn test_filter_swift_run_format() {
    let input = swift_run_raw();
    let output = filter_swift_run(&input);
    assert!(!output.contains("Building for"));
    assert!(!output.contains("[0/19]"));
    assert!(!output.contains("Compiling"));
    assert!(!output.contains("Build of product"));
    assert!(output.contains("PsyScope Tahoe"));
    assert!(output.contains("3 checks passed"));
}

#[test]
fn test_filter_swift_run_savings() {
    let input = swift_run_raw();
    let output = filter_swift_run(&input);
    assert!(savings(&input, &output) >= 60.0);
}

#[test]
fn test_filter_swift_run_no_build_output() {
    let input = "Hello, world!\nDone.\n";
    let output = filter_swift_run(input);
    assert_eq!(output, "Hello, world!\nDone.");
}

#[test]
fn test_filter_swift_run_build_error_fallback() {
    let input = "Building for debugging...\n\
        [1/3] Compiling Foo Bar.swift\n\
        /path/Bar.swift:10:5: error: use of undeclared type 'Baz'\n";
    let output = filter_swift_run(input);
    assert!(output.contains("swift build"));
    assert!(output.contains("Errors"));
}

#[test]
fn run_keeps_program_lines_verbatim() {
    let input = "warming up\nBuilding for debugging...\nnoise\nBuild complete! (0.1s)\n  indented\n[1/2] mine\nBuilding for fun\n";
    assert_eq!(filter_swift_run(input), "warming up\n  indented\n[1/2] mine\nBuilding for fun");
}

#[test]
fn run_without_program_output_reports_the_build() {
    let input = "Building for debugging...\nBuild complete! (0.1s)\n";
    assert_eq!(filter_swift_run(input), "swift build\n\nBuild complete! (0.1s)");
    assert_eq!(filter_swift_run(""), "swift build\nok");
}

#[test]
fn run_lines_are_marked() {
    let lines = read_run_lines("[0/1] Planning build\n[3/4] x\nBuild complete!\nout\n");
    let marks: Vec<(bool, bool)> = lines.iter().map(|l| (l.build, l.complete)).collect();
    assert_eq!(marks, vec![(true, false), (true, false), (true, true), (false, false)]);
}

#[test]
fn run_output_from_marked_lines() {
    let line = |text: &str, build: bool, complete: bool| RunLine {
        line: text.to_string(),
        build,
        complete,
    };
    let lines = vec![line("a", false, false), line("b", true, true), line("c", true, false)];
    assert_eq!(program_output(&lines), Some("a\nc".to_string()));
    assert_eq!(program_output(&vec![line("b", true, false)]), None);
    assert_eq!(program_output(&Vec::new()), None);
}

// ── running the tool ─────────────────────────────────────────────────────

#[test]
fn swift_plans() {
    let args = words(&["--product", "App"]);
    let build = run(SwiftCommand::Build, &args, 1);
    assert_eq!(build.program, "swift");
    assert_eq!(build.args, words(&["build", "--product", "App"]));
    assert_eq!(build.notice, Some("Running: swift build --product App".to_string()));
    assert_eq!(build.tool, "swift build");
    assert_eq!(build.display, "--product App");
    assert_eq!(build.tee, Some("swift-build".to_string()));
    assert_eq!(build.filter, Filter::SwiftBuild);
    let test = run(SwiftCommand::Test, &args, 0);
    assert_eq!(test.args, words(&["test", "--product", "App"]));
    assert_eq!(test.notice, None);
    assert_eq!(test.tee, Some("swift-test".to_string()));
    assert_eq!(test.filter, Filter::SwiftTest);
    let program = run(SwiftCommand::Run, &args, 0);
    assert_eq!(program.args, words(&["run", "--product", "App"]));
    assert_eq!(program.tee, Some("swift-run".to_string()));
    assert_eq!(program.filter, Filter::SwiftRun);
}

#[test]
fn swift_package_plan_filters_descriptions_only() {
    let filter = |list: &[&str]| run(SwiftCommand::Package, &words(list), 0).filter;
    assert_eq!(filter(&[]), Filter::SwiftPackage);
    assert_eq!(filter(&["describe"]), Filter::SwiftPackage);
    assert_eq!(filter(&["dump-package"]), Filter::Trim);
    assert_eq!(filter(&["resolve", "describe"]), Filter::Trim);
    assert_eq!(run(SwiftCommand::Package, &[], 0).tee, None);
}
