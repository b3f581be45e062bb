//! The filter for `swiftlint`.

use rtk::cmds::apple::swiftlint_cmd::{
    filter_swiftlint, looks_like_lint_output, rank_rules, read_lint_lines, run, shorten_path,
    tabulate_rules, RuleStats,
};
use rtk::invocation::Filter;

fn count_tokens(text: &str) -> usize {
    text.split_whitespace().count()
}

fn swiftlint_raw() -> String {
    let mut text = String::from("Linting Swift files in current working directory\n");
    for i in 0..40 {
        text.push_str(&format!(
            "/Users/dev/App/Sources/File{}.swift:{}:121: warning: Line Length Violation: Line should be 120 characters or less; currently it has {} characters (line_length)\n",
            i % 8,
            i + 1,
            121 + i
        ));
    }
    for i in 0..3 {
        text.push_str(&format!(
            "/Users/dev/App/Sources/File{}.swift:{}:9: error: Force Cast Violation: Force casts should be avoided (force_cast)\n",
            i, i
        ));
    }
    text.push_str("Done linting! Found 43 violations, 3 serious in 12 files.\n");
    text
}

#[test]
fn test_filter_swiftlint_format() {
    let input = swiftlint_raw();
    let output = filter_swiftlint(&input);
    assert!(output.contains("swiftlint"));
    assert!(output.contains("violations"));
    assert!(output.contains("line_length"));
    assert!(output.contains("force_cast"));
    assert!(!output.contains("/Users/"));
}

#[test]
fn test_filter_swiftlint_savings() {
    let input = swiftlint_raw();
    let output = filter_swiftlint(&input);
    let savings = 100.0 - (count_tokens(&output) as f64 / count_tokens(&input) as f64 * 100.0);
    assert!(savings >= 60.0);
}

#[test]
fn test_filter_swiftlint_empty() {
    let output = filter_swiftlint("");
    assert!(output.contains("No violations"));
}

#[test]
fn test_filter_swiftlint_passthrough_version() {
    let output = filter_swiftlint("0.63.2\n");
    assert_eq!(output, "0.63.2");
}

#[test]
fn test_filter_swiftlint_passthrough_rules() {
    let input = "+-------------------+---------+---------+\n\
        | identifier        | opt-in  | correct |\n\
        +-------------------+---------+---------+\n\
        | line_length       | no      | no      |\n\
        | force_cast        | no      | no      |\n\
        +-------------------+---------+---------+\n";
    let output = filter_swiftlint(input);
    assert!(output.contains("line_length"));
    assert!(output.contains("force_cast"));
    assert!(output.contains("identifier"));
}

#[test]
fn test_filter_swiftlint_no_violations() {
    let input = "Done linting! Found 0 violations, 0 serious in 5 files.\n";
    let output = filter_swiftlint(input);
    assert!(output.contains("Done linting!"));
}

#[test]
fn test_filter_swiftlint_groups_by_rule() {
    let input = "\
/p/A.swift:1:1: warning: Trailing Whitespace Violation: desc (trailing_whitespace)
/p/A.swift:5:1: warning: Trailing Whitespace Violation: desc (trailing_whitespace)
/p/B.swift:2:1: warning: Trailing Whitespace Violation: desc (trailing_whitespace)
/p/A.swift:10:5: error: Force Cast Violation: desc (force_cast)
Done linting! Found 4 violations, 1 serious in 2 files.
";
    let output = filter_swiftlint(input);
    assert!(output.contains("4 violations (1 errors, 3 warnings)"));
    assert!(output.contains("[E] force_cast (x1"));
    assert!(output.contains("[W] trailing_whitespace (x3"));
}

#[test]
fn test_shorten_path() {
    assert_eq!(shorten_path("/Users/luca/Project/Sources/File.swift"), "Sources/File.swift");
    assert_eq!(shorten_path("File.swift"), "File.swift");
    assert_eq!(shorten_path("Sources/File.swift"), "Sources/File.swift");
}

#[test]
fn lint_report_is_exact() {
    let input = "\
/p/A.swift:1:1: warning: Trailing Whitespace Violation: desc (trailing_whitespace)
/p/A.swift:5:1: warning: Trailing Whitespace Violation: desc (trailing_whitespace)
/p/B.swift:2:1: warning: Trailing Whitespace Violation: desc (trailing_whitespace)
/p/A.swift:10:5: error: Force Cast Violation: desc (force_cast)
Done linting! Found 4 violations, 1 serious in 2 files.
";
    assert_eq!(
        filter_swiftlint(input),
        "swiftlint\n4 violations (1 errors, 3 warnings)\n\n  [E] force_cast (x1, 1 files)\n  [W] trailing_whitespace (x3, 2 files)\n\nDone linting! Found 4 violations, 1 serious in 2 files."
    );
    assert_eq!(filter_swiftlint(""), "swiftlint\nNo violations");
}

#[test]
fn corrected_line_stands_in_for_the_summary() {
    let input = "Done linting! Found 0 violations, 0 serious in 5 files.\nDone correcting! 3 files.\n";
    assert_eq!(filter_swiftlint(input), "swiftlint\nDone correcting! 3 files.");
}

#[test]
fn rules_beyond_twenty_are_counted() {
    let mut input = String::new();
    for i in 0..23 {
        input.push_str(&format!("/p/A.swift:1:1: warning: Some Violation: desc (rule_{:02})\n", i));
    }
    let output = filter_swiftlint(&input);
    assert!(output.contains("23 violations (0 errors, 23 warnings)"));
    assert!(output.contains("[W] rule_19 (x1, 1 files)"));
    assert!(!output.contains("rule_20"));
    assert!(output.ends_with("... +3 more rules"));
}

#[test]
fn paths_with_the_same_tail_count_as_one_file() {
    let violations = vec![
        ("r".to_string(), (false, shorten_path("/a/Sources/F.swift"))),
        ("r".to_string(), (true, shorten_path("/b/Sources/F.swift"))),
        ("q".to_string(), (false, shorten_path("/b/Tests/F.swift"))),
    ];
    let rules = tabulate_rules(&violations);
    assert_eq!(rules.len(), 2);
    assert_eq!((rules[0].rule.as_str(), rules[0].errors, rules[0].total, rules[0].files), ("q", 0, 1, 1));
    assert_eq!((rules[1].rule.as_str(), rules[1].errors, rules[1].total, rules[1].files), ("r", 1, 2, 1));
}

#[test]
fn rules_are_ranked_by_errors_and_number() {
    let rule = |name: &str, errors: usize, total: usize| RuleStats {
        rule: name.to_string(),
        errors,
        total,
        files: 1,
    };
    let rules =
        vec![rule("a", 0, 9), rule("b", 1, 1), rule("c", 1, 4), rule("d", 0, 9), rule("e", 2, 2)];
    let names: Vec<String> = rank_rules(&rules).iter().map(|r| r.rule.clone()).collect();
    assert_eq!(names, vec!["e", "c", "b", "a", "d"]);
}

#[test]
fn lint_markers_are_recognized() {
    assert!(looks_like_lint_output(&read_lint_lines("x\nDone correcting!\n")));
    assert!(looks_like_lint_output(&read_lint_lines("Corrected 12 violations\n")));
    assert!(!looks_like_lint_output(&read_lint_lines("0.63.2\n")));
}

#[test]
fn lint_passthrough_drops_escape_sequences() {
    assert_eq!(filter_swiftlint("\u{1b}[1m0.63.2\u{1b}[0m\n"), "0.63.2");
}

#[test]
fn order_of_lines_does_not_matter() {
    let lines = [
        "/p/A.swift:1:1: warning: W Violation: desc (one)",
        "/p/B.swift:2:1: error: E Violation: desc (two)",
        "/p/A.swift:3:1: warning: W Violation: desc (two)",
        "/q/C.swift:4:1: warning: W Violation: desc (one)",
        "Done linting! Found 4 violations, 1 serious in 3 files.",
    ];
    let forward = lines.join("\n");
    let backward: Vec<&str> = lines.iter().rev().copied().collect();
    assert_eq!(filter_swiftlint(&forward), filter_swiftlint(&backward.join("\n")));
    assert!(filter_swiftlint(&forward).contains("  [E] two (x2, 2 files)\n  [W] one (x2, 2 files)"));
}

#[test]
fn swiftlint_plan() {
    let plan = run(&["lint".to_string()], 0);
    assert_eq!(plan.program, "swiftlint");
    assert_eq!(plan.args, vec!["lint".to_string()]);
    assert_eq!(plan.notice, None);
    assert_eq!(plan.tee, Some("swiftlint".to_string()));
    assert_eq!(plan.filter, Filter::Swiftlint);
}
