//! The filters for `xctrace`.

use rtk::cmds::apple::xctrace_cmd::devices::filter_list_devices;
use rtk::cmds::apple::xctrace_cmd::record::{filter_record, render_recording, Recording};
use rtk::cmds::apple::xctrace_cmd::templates::filter_list_templates;
use rtk::cmds::apple::xctrace_cmd::{detect_subcommand, run, Subcommand};
use rtk::invocation::{apply_filter, Filter};

fn count_tokens(text: &str) -> usize {
    text.split_whitespace().count()
}

fn savings(input: &str, output: &str) -> f64 {
    100.0 - (count_tokens(output) as f64 / count_tokens(input) as f64 * 100.0)
}

fn percent(share: &str) -> String {
    let value: f64 = share.parse().unwrap_or(0.0);
    format!("{:>5.1}", value)
}

const TEMPLATES: &str = "== Standard Templates ==
Activity Monitor
Allocations
Animation Hitches
App Launch
CPU Counters
CPU Profiler
Core Data
File Activity
Game Performance
Leaks
Logging
Metal System Trace
Network
Power Profiler
Processor Trace
Swift Concurrency
SwiftUI
System Trace
Time Profiler
";

const DEVICES: &str = "== Devices ==
MacBook Air (C6A93794-F039-555A-A9E6-40FC28901A81)
    OS: macOS 15.4
    Model: Mac15,12
    Disk Space: 494 GB total, 120 GB available
iPhone (D6A93794-F039-555A-A9E6-40FC28901A82)
    OS: iOS 18.4
    Model: iPhone17,1
    Disk Space: 256 GB total, 80 GB available

== Simulators ==
iPhone 16 (4A72B2E1-CF3F-4C3E-A3E2-7B4D6E8F9A1B)
    OS: iOS 18.0 (22A3354)
    Model: iPhone17,3
iPhone 16 Pro (4A72B2E1-CF3F-4C3E-A3E2-7B4D6E8F9A1C)
    OS: iOS 18.0 (22A3354)
    Model: iPhone17,1
iPhone SE (4A72B2E1-CF3F-4C3E-A3E2-7B4D6E8F9A1D)
    OS: iOS 18.0 (22A3354)
    Model: iPhone14,6
iPad Air (4A72B2E1-CF3F-4C3E-A3E2-7B4D6E8F9A1E)
    OS: iPadOS 18.0 (22A3354)
    Model: iPad14,8
iPad Pro (4A72B2E1-CF3F-4C3E-A3E2-7B4D6E8F9A1F)
    OS: iPadOS 18.0 (22A3354)
    Model: iPad16,3
Apple Watch (4A72B2E1-CF3F-4C3E-A3E2-7B4D6E8F9A20)
    OS: watchOS 11.0 (22R350)
    Model: Watch7,8
Apple TV (4A72B2E1-CF3F-4C3E-A3E2-7B4D6E8F9A21)
    OS: tvOS 18.0 (22J356)
    Model: AppleTV14,1
";

const RECORD: &str = "Starting recording with the Time Profiler template. Attaching to: SimpleHTTPServer. Time limit: 30 s
Tracing process SimpleHTTPServer [pid: 12345]...
Recording...
Recording... 10.0 seconds elapsed of the whole recording time
Recording... 20.0 seconds elapsed of the whole recording time
Recording... 30.0 seconds elapsed of the whole recording time
Recording completed. Saving output file...
Output file saved as: /tmp/SimpleHTTPServer.trace

Run complete.
Target: SimpleHTTPServer [pid: 12345]
Template: Time Profiler
Duration: 30.12 seconds
Trace file: /tmp/SimpleHTTPServer.trace
Trace file size: 48.3 MB

    30.2%  SimpleHTTPServer
    12.55%  libsystem_kernel.dylib
    9.0%  Foundation

CPU utilization: 67.2% (avg)
Samples: 30120

To view the trace, open it with Instruments: open /tmp/SimpleHTTPServer.trace
";

const RECORD_ERROR: &str = "Starting recording with the Time Profiler template. Launching process: ls.
Ctrl-C to stop the recording
Run issues were detected (trace is still ready to be viewed):
* [Error] Failed to start the recording: Failed to force all hardware CPU counters: 13.
Recording failed with errors. Saving output file...
Output file saved as: /tmp/Launch.trace
";

// ── list templates ───────────────────────────────────────────────────────

#[test]
fn test_filter_list_templates_format() {
    let output = filter_list_templates(TEMPLATES);
    assert!(output.contains("xctrace templates"));
    assert!(output.contains("Time Profiler"));
    assert!(output.contains("Allocations"));
    assert!(!output.contains("== Standard Templates =="));
}

#[test]
fn test_filter_list_templates_savings() {
    let output = filter_list_templates(TEMPLATES);
    assert!(savings(TEMPLATES, &output) >= -5.0);
}

#[test]
fn test_filter_list_templates_empty() {
    let output = filter_list_templates("");
    assert!(output.contains("xctrace templates (0)"));
}

#[test]
fn templates_report_is_exact() {
    let input = "== Standard Templates ==\nLeaks\n    Finds leaks in memory\n\tFinds More\nlowercase name\nCPU/GPU Counters\n\n== Recent Templates ==\nTime Profiler\nLeaks\n";
    assert_eq!(
        filter_list_templates(input),
        "xctrace templates (2)\n  Leaks\n  CPU/GPU Counters\n\nRecent: Time Profiler, Leaks"
    );
}

#[test]
fn every_template_is_listed() {
    let output = filter_list_templates(TEMPLATES);
    for name in TEMPLATES.lines().skip(1) {
        assert!(output.contains(name));
    }
    assert!(output.starts_with("xctrace templates (19)"));
}

// ── list devices ─────────────────────────────────────────────────────────

#[test]
fn test_filter_list_devices_format() {
    let output = filter_list_devices(DEVICES);
    assert!(output.contains("xctrace devices"));
    assert!(!output.contains("C6A93794-F039-555A-A9E6-40FC28901A81"));
    assert!(!output.contains("4A72B2E1-CF3F-4C3E-A3E2-7B4D6E8F9A1B"));
    assert!(!output.contains("Model:"));
    assert!(!output.contains("Disk Space:"));
    assert!(output.contains("Physical (2)"));
    assert!(output.contains("MacBook Air (macOS 15.4)"));
    assert!(output.contains("iPhone (iOS 18.4)"));
    assert!(output.contains("Simulators (7)"));
    assert!(output.contains("iOS 18.0"));
    assert!(output.contains("iPadOS 18.0"));
}

#[test]
fn test_filter_list_devices_savings() {
    let output = filter_list_devices(DEVICES);
    assert!(savings(DEVICES, &output) >= 30.0);
}

#[test]
fn test_filter_list_devices_empty() {
    let output = filter_list_devices("");
    assert!(output.contains("xctrace devices"));
}

#[test]
fn devices_report_is_exact() {
    assert_eq!(
        filter_list_devices(DEVICES),
        "xctrace devices\n\nPhysical (2):\n  MacBook Air (macOS 15.4)\n  iPhone (iOS 18.4)\n\nSimulators (7):\n  iOS 18.0 (3): iPhone 16, iPhone 16 Pro, iPhone SE\n  iPadOS 18.0 (2): iPad Air, iPad Pro\n  tvOS 18.0 (1): Apple TV\n  watchOS 11.0 (1): Apple Watch"
    );
    assert_eq!(filter_list_devices(""), "xctrace devices");
}

// ── record ───────────────────────────────────────────────────────────────

#[test]
fn test_filter_record_format() {
    let output = filter_record(RECORD, &percent);
    assert!(output.contains("xctrace record"));
    assert!(output.contains("Template: Time Profiler"));
    assert!(output.contains("Duration: 30.12 seconds"));
    assert!(output.contains("Heaviest stacks"));
    assert!(output.contains("SimpleHTTPServer"));
    assert!(output.contains("CPU utilization"));
    assert!(!output.contains("Starting recording"));
    assert!(!output.contains("Recording..."));
    assert!(!output.contains("To view"));
}

#[test]
fn test_filter_record_savings() {
    let output = filter_record(RECORD, &percent);
    assert!(savings(RECORD, &output) >= 30.0);
}

#[test]
fn test_filter_record_empty() {
    let output = filter_record("", &percent);
    assert!(output.contains("xctrace record"));
}

#[test]
fn test_filter_record_error_output() {
    let output = filter_record(RECORD_ERROR, &percent);
    assert!(output.contains("xctrace record"));
    assert!(!output.contains("Ctrl-C"));
    assert!(!output.contains("Starting recording"));
    assert!(!output.is_empty());
}

#[test]
fn record_report_is_exact() {
    assert_eq!(
        filter_record(RECORD, &percent),
        "xctrace record\nTemplate: Time Profiler | Target: SimpleHTTPServer [pid: 12345]\nDuration: 30.12 seconds | Size: 48.3 MB\nTrace: /tmp/SimpleHTTPServer.trace\n\nHeaviest stacks:\n   30.2%  SimpleHTTPServer\n   12.6%  libsystem_kernel.dylib\n    9.0%  Foundation\n\nMetrics:\n  CPU utilization: 67.2% (avg)\n  Samples: 30120"
    );
}

#[test]
fn record_shows_five_stacks_and_all_metrics() {
    let mut input = String::new();
    for i in 0..7 {
        input.push_str(&format!("{}.0%  stack{}\nSamples: {}\n", 9 - i, i, 100 + i));
    }
    let output = filter_record(&input, &percent);
    assert!(output.contains("stack4"));
    assert!(!output.contains("stack5"));
    for i in 0..7 {
        assert!(output.contains(&format!("  Samples: {}", 100 + i)));
    }
}

#[test]
fn noise_lines_leave_no_trace() {
    let noisy = "Starting recording with Template: Wrong\nTemplate: Right\nTo view Duration: 9 s\n  Recording... Target: Wrong\nDuration: 1 s\n\nRun complete.\n";
    let quiet = "Template: Right\nDuration: 1 s\n";
    assert_eq!(filter_record(noisy, &percent), filter_record(quiet, &percent));
    assert_eq!(filter_record(quiet, &percent), "xctrace record\nTemplate: Right\nDuration: 1 s");
    assert_eq!(filter_record("Recording...\n", &percent), "xctrace record");
}

#[test]
fn recording_without_template_hides_the_target() {
    let s = Recording {
        target: "App".to_string(),
        template: String::new(),
        duration: "1 s".to_string(),
        trace_file: String::new(),
        trace_size: String::new(),
        stacks: vec![("1.25".to_string(), "main".to_string())],
        metrics: Vec::new(),
    };
    assert_eq!(
        render_recording(&s, &vec!["one".to_string()]),
        "xctrace record\nDuration: 1 s\n\nHeaviest stacks:\n  one%  main"
    );
}

// ── detect_subcommand ────────────────────────────────────────────────────

#[test]
fn test_detect_subcommand_list_templates() {
    let args: Vec<String> = vec!["list".into(), "templates".into()];
    assert!(matches!(detect_subcommand(&args), Subcommand::ListTemplates));
}

#[test]
fn test_detect_subcommand_list_devices() {
    let args: Vec<String> = vec!["list".into(), "devices".into()];
    assert!(matches!(detect_subcommand(&args), Subcommand::ListDevices));
}

#[test]
fn test_detect_subcommand_record() {
    let args: Vec<String> = vec!["record".into(), "--template".into(), "Time Profiler".into()];
    assert!(matches!(detect_subcommand(&args), Subcommand::Record));
}

#[test]
fn test_detect_subcommand_list_alone() {
    let args: Vec<String> = vec!["list".into()];
    assert!(matches!(detect_subcommand(&args), Subcommand::Other));
}

#[test]
fn test_detect_subcommand_with_flags() {
    let args: Vec<String> = vec!["--verbose".into(), "list".into(), "templates".into()];
    assert!(matches!(detect_subcommand(&args), Subcommand::ListTemplates));
}

#[test]
fn detect_subcommand_edge_cases() {
    let of = |list: &[&str]| {
        let args: Vec<String> = list.iter().map(|w| w.to_string()).collect();
        detect_subcommand(&args)
    };
    assert_eq!(of(&[]), Subcommand::Other);
    assert_eq!(of(&["list", "template"]), Subcommand::ListTemplates);
    assert_eq!(of(&["list", "instruments"]), Subcommand::Other);
    assert_eq!(of(&["list", "--output", "file", "templates"]), Subcommand::Other);
    assert_eq!(of(&["-q", "record"]), Subcommand::Record);
    assert_eq!(of(&["export", "record"]), Subcommand::Other);
}

#[test]
fn xctrace_plan() {
    let args: Vec<String> = vec!["list".into(), "devices".into()];
    let plan = run(&args, 1);
    assert_eq!(plan.program, "xcrun");
    assert_eq!(plan.args, vec!["xctrace".to_string(), "list".to_string(), "devices".to_string()]);
    assert_eq!(plan.notice, Some("Running: xcrun xctrace list devices".to_string()));
    assert_eq!(plan.tool, "xctrace");
    assert_eq!(plan.display, "list devices");
    assert_eq!(plan.tee, Some("xctrace".to_string()));
    assert_eq!(plan.filter, Filter::ListDevices);
    assert_eq!(run(&["version".to_string()], 0).filter, Filter::Trim);
    assert_eq!(run(&["record".to_string()], 0).filter, Filter::Record);
}

#[test]
fn filters_are_applied_by_name() {
    let apply = |filter: Filter, raw: &str| apply_filter(filter, raw, &percent);
    assert_eq!(apply(Filter::SwiftBuild, ""), "swift build\nok");
    assert_eq!(apply(Filter::SwiftTest, ""), "swift test\nNo tests found");
    assert_eq!(apply(Filter::SwiftPackage, ""), "Package:");
    assert_eq!(apply(Filter::SwiftRun, "out\n"), "out");
    assert_eq!(apply(Filter::Xcodebuild, ""), "xcodebuild");
    assert_eq!(apply(Filter::Swiftlint, ""), "swiftlint\nNo violations");
    assert!(apply(Filter::SimctlList, "").starts_with("simctl list"));
    assert_eq!(apply(Filter::ListTemplates, ""), "xctrace templates (0)");
    assert_eq!(apply(Filter::ListDevices, ""), "xctrace devices");
    assert_eq!(apply(Filter::Record, "7.26%  x"), "xctrace record\n\nHeaviest stacks:\n    7.3%  x");
    assert_eq!(apply(Filter::Trim, "  a\n b \n"), "a\n b");
}
