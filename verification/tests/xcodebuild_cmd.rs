//! The filter for `xcodebuild`.

use rtk::cmds::apple::xcodebuild_cmd::{filter_xcodebuild, run};
use rtk::invocation::Filter;

fn count_tokens(text: &str) -> usize {
    text.split_whitespace().count()
}

fn xcodebuild_raw() -> String {
    let mut text = String::from("Command line invocation:\n    /Applications/Xcode.app/Contents/Developer/usr/bin/xcodebuild -scheme App build\n\nUser defaults from command line:\n    IDEPackageSupportUseBuiltinSCM = YES\n\nResolved source packages:\n  swift-log: https://github.com/apple/swift-log.git @ 1.5.4\n\nCreateBuildDirectory /Users/dev/Build\n    cd /Users/dev/App\n    builtin-create-build-directory /Users/dev/Build\n\n");
    for i in 0..12 {
        text.push_str(&format!(
            "SwiftCompile normal arm64 /Users/dev/App/Sources/File{}.swift (in target 'App' from project 'App')\n    cd /Users/dev/App\n    /Applications/Xcode.app/Contents/Developer/Toolchains/XcodeDefault.xctoolchain/usr/bin/swift-frontend -c -primary-file /Users/dev/App/Sources/File{}.swift -target arm64-apple-macos14.0 -module-name App -O\n\n",
            i, i
        ));
    }
    text.push_str("Ld /Users/dev/Build/App normal arm64 (in target 'App' from project 'App')\n    cd /Users/dev/App\n    /Applications/Xcode.app/Contents/Developer/Toolchains/XcodeDefault.xctoolchain/usr/bin/clang -o App\n\n** BUILD SUCCEEDED ** [12.3 sec]\n");
    text
}

#[test]
fn test_filter_xcodebuild_format() {
    let input = xcodebuild_raw();
    let output = filter_xcodebuild(&input);
    assert!(output.contains("xcodebuild"));
    assert!(!output.contains("swift-frontend"));
    assert!(!output.contains("CreateBuildDirectory"));
}

#[test]
fn test_filter_xcodebuild_savings() {
    let input = xcodebuild_raw();
    let output = filter_xcodebuild(&input);
    let savings = 100.0 - (count_tokens(&output) as f64 / count_tokens(&input) as f64 * 100.0);
    assert!(savings >= 60.0);
}

#[test]
fn test_filter_xcodebuild_empty() {
    let output = filter_xcodebuild("");
    assert!(output.contains("xcodebuild"));
}

#[test]
fn test_filter_xcodebuild_passthrough_list() {
    let input = "Information about project \"CustomMetalView\":\n\
        Targets:\n\
            CustomMetalView-macOS\n\
            CustomMetalView-iOS\n\
        Schemes:\n\
            CustomMetalView-iOS\n";
    let output = filter_xcodebuild(input);
    assert!(output.contains("Information about project"));
    assert!(output.contains("CustomMetalView-iOS"));
    assert!(output.contains("Schemes:"));
}

#[test]
fn test_filter_xcodebuild_passthrough_version() {
    let input = "Xcode 26.4\nBuild version 17E192\n";
    let output = filter_xcodebuild(input);
    assert!(output.contains("Xcode 26.4"));
    assert!(output.contains("Build version 17E192"));
}

#[test]
fn test_filter_xcodebuild_passthrough_showsdks() {
    let input = "iOS SDKs:\n\
        iOS 18.0                 -sdk iphoneos18.0\n\n\
        macOS SDKs:\n\
        macOS 15.0               -sdk macosx15.0\n";
    let output = filter_xcodebuild(input);
    assert!(output.contains("iOS SDKs:"));
    assert!(output.contains("iphoneos18.0"));
    assert!(output.contains("macOS SDKs:"));
}

#[test]
fn test_filter_xcodebuild_project_level_error() {
    let input = "SwiftCompile normal arm64 /p/Foo.swift (in target 'App' from project 'App')\n\
        /tmp/App.xcodeproj: error: Signing for \"App\" requires a development team.\n\
        ** BUILD FAILED **\n";
    let output = filter_xcodebuild(input);
    assert!(output.contains("Errors (1)"));
    assert!(output.contains("Signing for"));
    assert!(output.contains("BUILD FAILED"));
}

#[test]
fn test_filter_xcodebuild_error_with_spaces_in_path() {
    let input = "SwiftCompile normal arm64 /p/Foo.swift (in target 'App' from project 'App')\n\
        /tmp/metal code examples/App.xcodeproj: error: Signing requires a development team.\n\
        ** BUILD FAILED **\n";
    let output = filter_xcodebuild(input);
    assert!(output.contains("Errors (1)"));
    assert!(output.contains("Signing requires"));
}

#[test]
fn test_filter_xcodebuild_toplevel_error() {
    let input = "SwiftCompile normal arm64 /p/Foo.swift (in target 'App' from project 'App')\n\
        error: no such module 'Foundation'\n\
        ** BUILD FAILED **\n";
    let output = filter_xcodebuild(input);
    assert!(output.contains("Errors (1)"));
    assert!(output.contains("no such module"));
}

#[test]
fn test_filter_xcodebuild_strips_tool_invocations_but_preserves_diagnostics() {
    let input = "\
SwiftCompile normal arm64 /Users/dev/App/Foo.swift (in target 'App' from project 'App')
    cd /Users/dev/App
    /Applications/Xcode.app/Contents/Developer/Toolchains/XcodeDefault.xctoolchain/usr/bin/swift-frontend -c
    /usr/bin/clang -fmodules
/Users/dev/App/Foo.swift:10:5: error: cannot find 'Bar' in scope
    /Users/dev/App/Foo.swift:15:1: note: did you mean 'Baz'?
** BUILD FAILED **
";
    let output = filter_xcodebuild(input);
    assert!(output.contains("cannot find 'Bar' in scope"), "got: {}", output);
    assert!(!output.contains("swift-frontend"), "got: {}", output);
    assert!(!output.contains("/usr/bin/clang"), "got: {}", output);
    assert!(!output.contains("Applications/Xcode"), "got: {}", output);
    assert!(output.contains("BUILD FAILED"));
}

#[test]
fn test_filter_xcodebuild_build_failed() {
    let input = "SwiftCompile normal arm64 /p/Foo.swift (in target 'App' from project 'App')\n\
        /p/Foo.swift:10:5: error: cannot find 'Bar' in scope\n\
        ** BUILD FAILED **\n";
    let output = filter_xcodebuild(input);
    assert!(output.contains("Errors (1)"));
    assert!(output.contains("BUILD FAILED"));
}

#[test]
fn test_filter_xcodebuild_test_results_modern_format() {
    let input = "\
Test case 'UniqueTests.testUnique()' passed on 'My Mac - xctest (1234)' (0.001 seconds)
Test case 'UniqueTests.testInjected()' failed on 'My Mac - xctest (1234)' (0.005 seconds)
Test case 'OtherTests.testFoo()' passed on 'My Mac - xctest (5678)' (0.002 seconds)
** TEST FAILED **
";
    let output = filter_xcodebuild(input);
    assert!(output.contains("Tests: 2 passed, 1 failed (of 3)"), "got: {}", output);
    assert!(output.contains("FAIL UniqueTests.testInjected"), "got: {}", output);
    assert!(output.contains("TEST FAILED"));
}

#[test]
fn test_filter_xcodebuild_test_results() {
    let input = "\
Test Suite 'All tests' started at 2026-04-12 10:00:00.000.
Test Suite 'FooTests.xctest' started at 2026-04-12 10:00:00.001.
Test Case '-[FooTests.BarTests testAdd]' started.
Test Case '-[FooTests.BarTests testAdd]' passed (0.003 seconds).
Test Case '-[FooTests.BarTests testSub]' started.
Test Case '-[FooTests.BarTests testSub]' passed (0.001 seconds).
Test Case '-[FooTests.BarTests testDiv]' started.
Test Case '-[FooTests.BarTests testDiv]' failed (0.002 seconds).
Test Suite 'BarTests' passed at 2026-04-12 10:00:00.010.
\t Executed 3 tests, with 1 failures (1 unexpected) in 0.006 (0.010) seconds
** TEST FAILED **
";
    let output = filter_xcodebuild(input);
    assert!(output.contains("Tests: 2 passed, 1 failed (of 3)"));
    assert!(output.contains("FAIL BarTests.testDiv"));
    assert!(output.contains("TEST FAILED"));
    assert!(!output.contains("Test Suite"));
    assert!(!output.contains("started"));
}

#[test]
fn xcodebuild_report_is_exact() {
    let input = "swift-log: https://github.com/apple/swift-log.git @ 1.5.4\n\
        SwiftCompile normal arm64 /p/s/B.swift (in target 'Kit' from project 'App')\n\
        SwiftCompile normal arm64 /p/s/A.swift (in target 'App' from project 'App')\n\
        SwiftCompile normal arm64 /p/s/C.swift (in target 'App' from project 'App')\n\
        SwiftEmitModule normal arm64 x (in target 'App' from project 'App')\n\
        Ld /b/App normal arm64 (in target 'App' from project 'App')\n\
        /p/s/A.swift:1:2: error: first\n\
        /p/s/A.swift:3:4: warning: second\n\
        Test Case '-[M.S testA]' failed (0.1 seconds).\n\
        ** TEST FAILED **\n";
    assert_eq!(
        filter_xcodebuild(input),
        "xcodebuild\nPackages (1): swift-log@1.5.4\nCompiled App (2 files)\nCompiled Kit (1 files)\nLinked: App\n\nErrors (1):\n  /p/s/A.swift:1:2: error: first\n\nWarnings (1):\n  /p/s/A.swift:3:4: warning: second\n\nTests: 0 passed, 1 failed (of 1)\n  FAIL S.testA (0.1s)\n\n** TEST FAILED **"
    );
}

#[test]
fn xcodebuild_cuts_errors_off_at_twenty_in_order() {
    let mut input = String::new();
    for i in 0..25 {
        input.push_str(&format!("/p/F.swift:{}:1: error: number {}.\n", i, i));
    }
    let output = filter_xcodebuild(&input);
    assert!(output.contains("Errors (25):"));
    assert!(output.find("number 3.").unwrap() < output.find("number 19.").unwrap());
    assert!(!output.contains("number 20."));
    assert!(output.ends_with("... +5 more"));
}

#[test]
fn xcodebuild_passthrough_is_trimmed_output() {
    assert_eq!(filter_xcodebuild("\n Xcode 26.4\nBuild version 17E192\n\n"), "Xcode 26.4\nBuild version 17E192");
}

#[test]
fn xcodebuild_counts_passed_tests() {
    let output = filter_xcodebuild("Test Case '-[M.S test\u{4e2d}]' passed (0.1 seconds).\n");
    assert_eq!(output, "xcodebuild\n\nTests: 1 passed, 0 failed");
}

#[test]
fn xcodebuild_errors_come_before_other_rules() {
    let input = "/Applications/Xcode.app/Contents/SDKs/Foo.h:3:1: error: unknown type name\n\
        error: foo @ 1.0 could not be resolved\n\
        ** BUILD FAILED **\n";
    assert_eq!(
        filter_xcodebuild(input),
        "xcodebuild\n\nErrors (2):\n  /Applications/Xcode.app/Contents/SDKs/Foo.h:3:1: error: unknown type name\n  error: foo @ 1.0 could not be resolved\n\n** BUILD FAILED **"
    );
}

#[test]
fn xcodebuild_banner_closes_the_report() {
    let output = filter_xcodebuild("** BUILD FAILED **\n** CLEAN SUCCEEDED **\nerror: late\n");
    assert_eq!(output, "xcodebuild\n\nErrors (1):\n  error: late\n\n** CLEAN SUCCEEDED **");
}

#[test]
fn xcodebuild_banner_with_an_error_closes_the_report() {
    assert_eq!(
        filter_xcodebuild("** BUILD FAILED ** x: error: y\n"),
        "xcodebuild\n\nErrors (1):\n  ** BUILD FAILED ** x: error: y\n\n** BUILD FAILED ** x: error: y"
    );
    assert_eq!(
        filter_xcodebuild("** BUILD FAILED ** x: error: y\n** TEST SUCCEEDED **\n"),
        "xcodebuild\n\nErrors (1):\n  ** BUILD FAILED ** x: error: y\n\n** TEST SUCCEEDED **"
    );
}

#[test]
fn xcodebuild_counts_tests_and_files_of_error_lines() {
    let input = "Test Case '-[M.S test: error: odd]' failed (0.1 seconds).\n\
        SwiftCompile normal x: error: y /p/s/A.swift (in target 'App' from project 'App')\n";
    assert_eq!(
        filter_xcodebuild(input),
        "xcodebuild\nCompiled App (1 files)\n\nErrors (2):\n  Test Case '-[M.S test: error: odd]' failed (0.1 seconds).\n  SwiftCompile normal x: error: y /p/s/A.swift (in target 'App' from project 'App')\n\nTests: 0 passed, 1 failed (of 1)\n  FAIL S.test: error: odd (0.1s)"
    );
}

#[test]
fn xcodebuild_cuts_failures_off_at_twenty() {
    let mut input = String::new();
    for i in 0..22 {
        input.push_str(&format!("Test Case '-[M.S test{}]' failed (0.1 seconds).\n", i));
    }
    let output = filter_xcodebuild(&input);
    assert!(output.contains("Tests: 0 passed, 22 failed (of 22)"));
    assert!(output.contains("  FAIL S.test19 (0.1s)"));
    assert!(!output.contains("S.test20"));
    assert!(output.ends_with("... +2 more"));
}

#[test]
fn xcodebuild_plan() {
    let args = vec!["-scheme".to_string(), "App".to_string()];
    let plan = run(&args, 2);
    assert_eq!(plan.program, "xcodebuild");
    assert_eq!(plan.args, args);
    assert_eq!(plan.notice, Some("Running: xcodebuild -scheme App".to_string()));
    assert_eq!(plan.tool, "xcodebuild");
    assert_eq!(plan.display, "-scheme App");
    assert_eq!(plan.tee, Some("xcodebuild".to_string()));
    assert_eq!(plan.filter, Filter::Xcodebuild);
}
