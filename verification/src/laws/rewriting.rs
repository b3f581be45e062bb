//! What the hook answers, where the marker of a project stands, and what the
//! switches tell.

use crate::hooks::rewrite_cmd::{
    answer, decided, Outcome, PermissionVerdict, Response, RewriteOutcome,
};
use crate::hooks::toggle::{
    disable_steps, disabled_words, enable_steps, enabled_words, failure_words, marker_dir,
    marker_path, status_words, MarkerStep, PathText,
};
use vstd::prelude::*;

verus! {

/// The answer for every command. A denied command is refused. One that has no
/// rewritten form, or for which rewriting is switched off, stays as it is. An allowed
/// command is replaced, and any other after a prompt, by the rewritten form and
/// nothing else.
pub proof fn law_answers(
    verdict: PermissionVerdict,
    hooks_enabled: bool,
    project_disabled: bool,
    rewritten: Option<Seq<char>>,
)
    ensures
        ({
            let r = answer(decided(verdict, hooks_enabled, project_disabled, rewritten));
            let on = hooks_enabled && !project_disabled;
            &&& verdict is Deny ==> r.exit_code == 2 && r.stdout.len() == 0
            &&& verdict !is Deny && !(on && rewritten is Some) ==> r.exit_code == 1
                && r.stdout.len() == 0
            &&& verdict is Allow && on && rewritten is Some ==> r.exit_code == 0 && r.stdout
                == rewritten->0
            &&& (verdict is Ask || verdict is Default) && on && rewritten is Some ==> r.exit_code
                == 3 && r.stdout == rewritten->0
        }),
{
}

/// An outcome, an answer and a step are seen as they are carried out.
pub proof fn law_answer_is_seen(
    outcome: RewriteOutcome,
    answer: Response,
    step: MarkerStep<Vec<String>>,
)
    ensures
        answer@.exit_code == answer.exit_code,
        answer@.stdout == answer.stdout@,
        match outcome {
            Outcome::Deny => outcome@ is Deny,
            Outcome::Passthrough => outcome@ is Passthrough,
            Outcome::Allow(text) => outcome@ == Outcome::Allow(text@),
            Outcome::AskWithRewrite(text) => outcome@ == Outcome::AskWithRewrite(text@),
        },
        match step {
            MarkerStep::CreateDir(path) => step@ == MarkerStep::CreateDir(
                path@.map_values(|part: String| part@),
            ),
            MarkerStep::WriteEmpty(path) => step@ == MarkerStep::WriteEmpty(
                path@.map_values(|part: String| part@),
            ),
            MarkerStep::Remove(path) => step@ == MarkerStep::Remove(
                path@.map_values(|part: String| part@),
            ),
        },
{
}

/// The marker of a project is the file `disabled` in the directory `.rtk` in it.
/// Disabling creates the directory first and then the file; enabling removes the
/// file where it is there, and does nothing elsewhere.
pub proof fn law_marker(root: PathText)
    ensures
        marker_path(root) == root + seq![".rtk"@, "disabled"@],
        marker_dir(root) == root + seq![".rtk"@],
        disable_steps(root) == seq![
            MarkerStep::CreateDir(root + seq![".rtk"@]),
            MarkerStep::WriteEmpty(root + seq![".rtk"@, "disabled"@]),
        ],
        enable_steps(root, true) == seq![
            MarkerStep::Remove(root + seq![".rtk"@, "disabled"@]),
        ],
        enable_steps(root, false).len() == 0,
{
    assert(marker_dir(root) =~= root + seq![".rtk"@]);
    assert(marker_path(root) =~= root + seq![".rtk"@, "disabled"@]);
}

/// The status tells of both switches, each by itself, and rewriting is active where
/// neither is off. Where one is off, a note says what can be done.
pub proof fn law_status(global_enabled: bool, project_disabled: bool)
    ensures
        status_words(global_enabled, project_disabled) == "RTK hook rewriting status:\n"@
            + "  Global:  "@ + (if global_enabled {
            "enabled\n"@
        } else {
            "disabled\n"@
        }) + "  Project: "@ + (if project_disabled {
            "disabled (.rtk/disabled present)\n"@
        } else {
            "enabled (no marker file)\n"@
        }) + "\n  Effective: "@ + (if global_enabled && !project_disabled {
            "ACTIVE\n"@
        } else {
            "INACTIVE (passthrough)\n"@
        }) + (if !global_enabled && project_disabled {
            "  Note: Both global and project-level are disabled.\n"@
        } else if !global_enabled {
            "  Note: Run `rtk enable` to re-enable globally.\n"@
        } else if project_disabled {
            "  Note: Run `rtk enable --project` to re-enable for this project.\n"@
        } else {
            seq![]
        }),
{
}

/// What is printed after a switch was turned, and what is printed where a step
/// failed.
pub proof fn law_messages(path: PathText)
    ensures
        disabled_words(true) == "RTK hook rewriting disabled for this project.\n"@
            + "(Add .rtk/disabled to .gitignore to keep it local)\n"@,
        disabled_words(false) == "RTK hook rewriting disabled globally.\n"@,
        enabled_words(true) == "RTK hook rewriting enabled for this project.\n"@,
        enabled_words(false) == "RTK hook rewriting enabled globally.\n"@,
        failure_words(MarkerStep::CreateDir(path)) == "Failed to create directory: "@,
        failure_words(MarkerStep::WriteEmpty(path)) == "Failed to create "@,
        failure_words(MarkerStep::Remove(path)) == "Failed to remove "@,
{
}

} // verus!
