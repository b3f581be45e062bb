//! The filter for `xcrun simctl list`.

use rtk::cmds::apple::simctl_cmd::{filter_simctl_list, run};
use rtk::invocation::Filter;

fn count_tokens(text: &str) -> usize {
    text.split_whitespace().count()
}

fn simctl_list_raw() -> String {
    let mut text = String::from("== Device Types ==\n");
    for name in ["iPhone-15", "iPhone-15-Pro", "iPhone-16", "iPhone-16-Pro", "iPad-Air", "iPad-Pro", "Apple-TV", "Apple-Watch-Series-10", "Apple-Watch-Ultra-2", "Apple-Vision-Pro"] {
        text.push_str(&format!(
            "{} (com.apple.CoreSimulator.SimDeviceType.{})\n",
            name.replace('-', " "),
            name
        ));
    }
    text.push_str("== Runtimes ==\n== Devices ==\n== Device Pairs ==\n");
    text
}

const LISTING: &str = "== Device Types ==
iPhone 15 (com.apple.CoreSimulator.SimDeviceType.iPhone-15)

== Runtimes ==
iOS 17.5 (17.5 - 21F79) - com.apple.CoreSimulator.SimRuntime.iOS-17-5
iOS 18.0 (18.0 - 22A3351) - com.apple.CoreSimulator.SimRuntime.iOS-18-0
== Devices ==
-- iOS 18.0 --
    iPhone 16 (4A72B2E1-CF3F-4C3E-A3E2-7B4D6E8F9A1B) (Booted)
    iPad Air (5A72B2E1-CF3F-4C3E-A3E2-7B4D6E8F9A1B) (Shutdown)
-- iOS 17.5 --
    iPhone 15 (6A72B2E1-CF3F-4C3E-A3E2-7B4D6E8F9A1B) (Shutdown)
-- Unavailable: com.apple.CoreSimulator.SimRuntime.iOS-16-0 --
    iPhone 14 (7A72B2E1-CF3F-4C3E-A3E2-7B4D6E8F9A1B) (Shutdown)
    iPhone 13 (8A72B2E1-CF3F-4C3E-A3E2-7B4D6E8F9A1B) (Shutdown)
== Device Pairs ==
9A72B2E1-CF3F-4C3E-A3E2-7B4D6E8F9A1B (active, disconnected)
    Watch: Apple Watch (AA72B2E1-CF3F-4C3E-A3E2-7B4D6E8F9A1B) (Shutdown)
    Phone: iPhone 16 (4A72B2E1-CF3F-4C3E-A3E2-7B4D6E8F9A1B) (Booted)
";

#[test]
fn test_filter_simctl_list_format() {
    let input = simctl_list_raw();
    let output = filter_simctl_list(&input);
    assert!(output.contains("simctl list"));
    assert!(output.contains("Device types:"));
    assert!(output.contains("Runtimes: 0"));
    assert!(output.contains("Devices: 0"));
    assert!(output.contains("Pairs: 0"));
    assert!(!output.contains("com.apple.CoreSimulator"));
}

#[test]
fn test_filter_simctl_list_savings() {
    let input = simctl_list_raw();
    let output = filter_simctl_list(&input);
    let savings = 100.0 - (count_tokens(&output) as f64 / count_tokens(&input) as f64 * 100.0);
    assert!(savings >= 60.0, "got {}", savings);
}

#[test]
fn test_filter_simctl_list_empty() {
    let output = filter_simctl_list("");
    assert!(output.contains("simctl list"));
    assert!(output.contains("Device types: 0"));
}

#[test]
fn test_filter_simctl_list_unavailable_counted() {
    let input = simctl_list_raw();
    let output = filter_simctl_list(&input);
    assert!(!output.contains("unavailable"));
}

#[test]
fn simctl_report_is_exact() {
    assert_eq!(
        filter_simctl_list(LISTING),
        "simctl list\nDevice types: 1 | Runtimes: 2 | Devices: 3 | Pairs: 1\n\nRuntimes: iOS 17.5, iOS 18.0\n\nBooted (1):\n  iPhone 16 (iOS 18.0)\n\n2 unavailable devices (stale runtimes)\n\nDevices by runtime:\n  iOS 17.5: 1\n  iOS 18.0: 2 (1 booted)"
    );
    assert_eq!(
        filter_simctl_list(""),
        "simctl list\nDevice types: 0 | Runtimes: 0 | Devices: 0 | Pairs: 0"
    );
}

#[test]
fn booted_devices_are_all_listed() {
    let mut input = String::from("== Devices ==\n-- iOS 18.0 --\n");
    for i in 0..30 {
        input.push_str(&format!("Phone {} (4A72B2E1-CF3F-4C3E-A3E2-7B4D6E8F9A1B) (Booted)\n", i));
    }
    let output = filter_simctl_list(&input);
    assert!(output.contains("Booted (30):"));
    for i in 0..30 {
        assert!(output.contains(&format!("  Phone {} (iOS 18.0)", i)));
    }
    assert!(output.contains("  iOS 18.0: 30 (30 booted)"));
}

#[test]
fn pair_heads_need_the_length_of_a_uuid() {
    let input = "== Device Pairs ==\nabc\n9a72b2e1-cf3f-4c3e-a3e2-7b4d6e8f9a1b\n9a72b2e1-cf3f-4c3e-a3e2-7b4d6e8f9a1\nxa72b2e1-cf3f-4c3e-a3e2-7b4d6e8f9a1bb\n";
    assert!(filter_simctl_list(input).contains("Pairs: 1"));
}

#[test]
fn simctl_plan_without_arguments_lists() {
    let plan = run(&[], 1);
    assert_eq!(plan.program, "xcrun");
    assert_eq!(plan.args, vec!["simctl".to_string(), "list".to_string()]);
    assert_eq!(plan.notice, Some("Running: xcrun simctl ".to_string()));
    assert_eq!(plan.tool, "simctl");
    assert_eq!(plan.display, "");
    assert_eq!(plan.tee, Some("simctl".to_string()));
    assert_eq!(plan.filter, Filter::SimctlList);
}

#[test]
fn simctl_plan_filters_lists_only() {
    let list = run(&["list".to_string(), "devices".to_string()], 0);
    assert_eq!(list.args, vec!["simctl".to_string(), "list".to_string(), "devices".to_string()]);
    assert_eq!(list.filter, Filter::SimctlList);
    let boot = run(&["boot".to_string(), "list".to_string()], 0);
    assert_eq!(boot.args, vec!["simctl".to_string(), "boot".to_string(), "list".to_string()]);
    assert_eq!(boot.filter, Filter::Trim);
}
