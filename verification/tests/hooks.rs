//! The rewriting of commands, and its switches.

use rtk::hooks::rewrite_cmd::{
    compute_outcome, decide, respond, Outcome, PermissionVerdict, RewriteOutcome,
};
use rtk::hooks::toggle::{
    disable_in, disabled_message, enable_in, enabled_message, failure_text, global_enabled,
    is_project_disabled, marker_path_in, set_global_enabled, status_report, HookConfig, MarkerStep,
};
use std::collections::BTreeSet;

/// The rewritten forms of the commands that the tests use.
fn rewrite(cmd: &str, excluded: &[String]) -> Option<String> {
    if cmd.starts_with("git ") && !excluded.iter().any(|e| e == "git") {
        Some(format!("rtk {}", cmd))
    } else {
        None
    }
}

// ── compute_outcome: priority ordering ───────────────────────────────────

#[test]
fn test_outcome_deny_fires_when_hooks_disabled() {
    let outcome =
        compute_outcome("rm -rf /", PermissionVerdict::Deny, false, false, &[], &rewrite);
    assert_eq!(outcome, RewriteOutcome::Deny);
}

#[test]
fn test_outcome_deny_fires_when_project_disabled() {
    let outcome = compute_outcome("rm -rf /", PermissionVerdict::Deny, true, true, &[], &rewrite);
    assert_eq!(outcome, RewriteOutcome::Deny);
}

#[test]
fn test_outcome_disabled_returns_passthrough_on_allow() {
    let outcome =
        compute_outcome("git status", PermissionVerdict::Allow, false, false, &[], &rewrite);
    assert_eq!(outcome, RewriteOutcome::Passthrough);
}

#[test]
fn test_outcome_disabled_returns_passthrough_on_ask() {
    let outcome =
        compute_outcome("git status", PermissionVerdict::Ask, false, false, &[], &rewrite);
    assert_eq!(outcome, RewriteOutcome::Passthrough);
}

#[test]
fn test_outcome_enabled_allow_rewrites() {
    let outcome =
        compute_outcome("git status", PermissionVerdict::Allow, true, false, &[], &rewrite);
    match outcome {
        RewriteOutcome::Allow(s) => assert!(s.starts_with("rtk git")),
        _ => panic!("expected Allow, got {:?}", outcome),
    }
}

#[test]
fn test_outcome_enabled_ask_rewrites_with_prompt() {
    let outcome = compute_outcome("git status", PermissionVerdict::Ask, true, false, &[], &rewrite);
    match outcome {
        RewriteOutcome::AskWithRewrite(s) => assert!(s.starts_with("rtk git")),
        _ => panic!("expected AskWithRewrite, got {:?}", outcome),
    }
}

#[test]
fn test_outcome_unsupported_is_passthrough() {
    let outcome = compute_outcome("htop", PermissionVerdict::Allow, true, false, &[], &rewrite);
    assert_eq!(outcome, RewriteOutcome::Passthrough);
}

#[test]
fn excluded_commands_pass_through() {
    let excluded = vec!["git".to_string()];
    let outcome =
        compute_outcome("git status", PermissionVerdict::Allow, true, false, &excluded, &rewrite);
    assert_eq!(outcome, RewriteOutcome::Passthrough);
}

#[test]
fn rewriter_is_asked_only_where_it_matters() {
    let refuse = |_: &str, _: &[String]| -> Option<String> { panic!("asked") };
    let outcome = compute_outcome("git status", PermissionVerdict::Ask, true, true, &[], &refuse);
    assert_eq!(outcome, RewriteOutcome::Passthrough);
}

#[test]
fn decisions_over_all_inputs() {
    let verdicts = [
        PermissionVerdict::Allow,
        PermissionVerdict::Deny,
        PermissionVerdict::Ask,
        PermissionVerdict::Default,
    ];
    for verdict in verdicts {
        for enabled in [false, true] {
            for disabled in [false, true] {
                for text in [None, Some("rtk x".to_string())] {
                    let response = respond(decide(verdict, enabled, disabled, text.clone()));
                    let expected = if verdict == PermissionVerdict::Deny {
                        2
                    } else if !enabled || disabled || text.is_none() {
                        1
                    } else if verdict == PermissionVerdict::Allow {
                        0
                    } else {
                        3
                    };
                    assert_eq!(response.exit_code, expected);
                    let printed = if expected == 0 || expected == 3 { "rtk x" } else { "" };
                    assert_eq!(response.stdout, printed);
                }
            }
        }
    }
}

#[test]
fn default_verdict_asks() {
    let outcome = decide(PermissionVerdict::Default, true, false, Some("rtk x".to_string()));
    assert_eq!(outcome, Outcome::AskWithRewrite("rtk x".to_string()));
}

// ── markers ──────────────────────────────────────────────────────────────

struct Tree {
    dirs: BTreeSet<Vec<String>>,
    files: BTreeSet<Vec<String>>,
}

impl Tree {
    fn new() -> Tree {
        Tree { dirs: BTreeSet::new(), files: BTreeSet::new() }
    }

    fn perform(&mut self, steps: Vec<MarkerStep<Vec<String>>>) {
        for step in steps {
            match step {
                MarkerStep::CreateDir(path) => {
                    for n in 0..path.len() + 1 {
                        self.dirs.insert(path[..n].to_vec());
                    }
                }
                MarkerStep::WriteEmpty(path) => {
                    assert!(self.dirs.contains(&path[..path.len() - 1].to_vec()));
                    self.files.insert(path);
                }
                MarkerStep::Remove(path) => {
                    assert!(self.files.remove(&path));
                }
            }
        }
    }

    fn is_disabled_in(&self, root: &[String]) -> bool {
        let path = marker_path_in(root);
        self.dirs.contains(&path) || self.files.contains(&path)
    }

    fn marks_above(&self, cwd: &[String]) -> Vec<bool> {
        (0..cwd.len() + 1).rev().map(|n| self.is_disabled_in(&cwd[..n])).collect()
    }
}

fn root() -> Vec<String> {
    vec!["home".to_string(), "project".to_string()]
}

#[test]
fn test_not_disabled_by_default() {
    assert!(!Tree::new().is_disabled_in(&root()));
}

#[test]
fn test_disable_creates_marker() {
    let mut tree = Tree::new();
    tree.perform(disable_in(&root()));
    assert!(tree.is_disabled_in(&root()));
    let mut marker = root();
    marker.push(".rtk".to_string());
    marker.push("disabled".to_string());
    assert!(tree.files.contains(&marker));
}

#[test]
fn test_enable_removes_marker() {
    let mut tree = Tree::new();
    tree.perform(disable_in(&root()));
    assert!(tree.is_disabled_in(&root()));
    let marked = tree.is_disabled_in(&root());
    tree.perform(enable_in(&root(), marked));
    assert!(!tree.is_disabled_in(&root()));
}

#[test]
fn test_enable_when_not_disabled_is_noop() {
    let mut tree = Tree::new();
    let marked = tree.is_disabled_in(&root());
    tree.perform(enable_in(&root(), marked));
    assert!(!tree.is_disabled_in(&root()));
}

#[test]
fn test_disable_creates_rtk_dir() {
    let mut tree = Tree::new();
    let mut dir = root();
    dir.push(".rtk".to_string());
    assert!(!tree.dirs.contains(&dir));
    tree.perform(disable_in(&root()));
    assert!(tree.dirs.contains(&dir));
}

#[test]
fn marker_is_found_from_below() {
    let mut tree = Tree::new();
    let mut below = root();
    below.push("src".to_string());
    assert!(!is_project_disabled(&tree.marks_above(&below)));
    tree.perform(disable_in(&root()));
    assert!(is_project_disabled(&tree.marks_above(&below)));
    assert!(is_project_disabled(&tree.marks_above(&root())));
    assert!(!is_project_disabled(&tree.marks_above(&root()[..1])));
    assert!(!is_project_disabled(&[]));
}

#[test]
fn disabling_one_project_leaves_the_other() {
    let mut tree = Tree::new();
    tree.perform(disable_in(&root()));
    let other = vec!["home".to_string(), "other".to_string()];
    assert!(!tree.is_disabled_in(&other));
}

#[test]
fn failures_are_named() {
    let path = marker_path_in(&[]);
    assert_eq!(path, vec![".rtk".to_string(), "disabled".to_string()]);
    assert_eq!(failure_text(&MarkerStep::CreateDir(path.clone())), "Failed to create directory: ");
    assert_eq!(failure_text(&MarkerStep::WriteEmpty(path.clone())), "Failed to create ");
    assert_eq!(failure_text(&MarkerStep::Remove(path)), "Failed to remove ");
}

// ── global flag and messages ─────────────────────────────────────────────

#[test]
fn global_flag_changes_nothing_else() {
    let config = HookConfig { enabled: true, exclude_commands: vec!["curl".to_string()] };
    let changed = set_global_enabled(config, false);
    assert!(!changed.enabled);
    assert_eq!(changed.exclude_commands, vec!["curl".to_string()]);
    assert!(set_global_enabled(changed, true).enabled);
}

#[test]
fn unreadable_configuration_counts_as_enabled() {
    assert!(global_enabled(None));
    assert!(global_enabled(Some(true)));
    assert!(!global_enabled(Some(false)));
}

#[test]
fn messages_are_exact() {
    assert_eq!(
        disabled_message(true),
        "RTK hook rewriting disabled for this project.\n(Add .rtk/disabled to .gitignore to keep it local)\n"
    );
    assert_eq!(disabled_message(false), "RTK hook rewriting disabled globally.\n");
    assert_eq!(enabled_message(true), "RTK hook rewriting enabled for this project.\n");
    assert_eq!(enabled_message(false), "RTK hook rewriting enabled globally.\n");
}

#[test]
fn status_report_is_exact() {
    assert_eq!(
        status_report(true, false),
        "RTK hook rewriting status:\n  Global:  enabled\n  Project: enabled (no marker file)\n\n  Effective: ACTIVE\n"
    );
    assert_eq!(
        status_report(true, true),
        "RTK hook rewriting status:\n  Global:  enabled\n  Project: disabled (.rtk/disabled present)\n\n  Effective: INACTIVE (passthrough)\n  Note: Run `rtk enable --project` to re-enable for this project.\n"
    );
    assert_eq!(
        status_report(false, false),
        "RTK hook rewriting status:\n  Global:  disabled\n  Project: enabled (no marker file)\n\n  Effective: INACTIVE (passthrough)\n  Note: Run `rtk enable` to re-enable globally.\n"
    );
    assert_eq!(
        status_report(false, true),
        "RTK hook rewriting status:\n  Global:  disabled\n  Project: disabled (.rtk/disabled present)\n\n  Effective: INACTIVE (passthrough)\n  Note: Both global and project-level are disabled.\n"
    );
}
