//! Decides whether a shell command is rewritten, and how the hook answers.

use crate::invocation::text_of;
use vstd::prelude::*;

verus! {

/// What the permission rules say about a command.
#[derive(Clone, Copy, Debug, PartialEq, Eq, Structural)]
pub enum PermissionVerdict {
    Allow,
    Deny,
    Ask,
    Default,
}

/// What becomes of a command. `T` is the type of text.
#[derive(Debug, PartialEq)]
pub enum Outcome<T> {
    /// A deny rule matched. This holds even while rewriting is switched off.
    Deny,
    /// There is no rewritten form, or rewriting is switched off.
    Passthrough,
    /// The command may be replaced by its rewritten form.
    Allow(T),
    /// The command may be replaced by its rewritten form after a prompt.
    AskWithRewrite(T),
}

/// What becomes of a command.
pub type RewriteOutcome = Outcome<String>;

impl View for Outcome<String> {
    type V = Outcome<Seq<char>>;

    open spec fn view(&self) -> Outcome<Seq<char>> {
        match self {
            Outcome::Deny => Outcome::Deny,
            Outcome::Passthrough => Outcome::Passthrough,
            Outcome::Allow(text) => Outcome::Allow(text@),
            Outcome::AskWithRewrite(text) => Outcome::AskWithRewrite(text@),
        }
    }
}

/// What becomes of a command whose rewritten form is `rewritten`: a deny rule
/// comes first, then whether rewriting is on, then the rewritten form.
pub open spec fn decided(
    verdict: PermissionVerdict,
    hooks_enabled: bool,
    project_disabled: bool,
    rewritten: Option<Seq<char>>,
) -> Outcome<Seq<char>> {
    if verdict is Deny {
        Outcome::Deny
    } else if !hooks_enabled || project_disabled || rewritten is None {
        Outcome::Passthrough
    } else if verdict is Allow {
        Outcome::Allow(rewritten->0)
    } else {
        Outcome::AskWithRewrite(rewritten->0)
    }
}

/// Decides what becomes of a command whose rewritten form is `rewritten`.
pub fn decide(
    verdict: PermissionVerdict,
    hooks_enabled: bool,
    project_disabled: bool,
    rewritten: Option<String>,
) -> (r: RewriteOutcome)
    ensures
        r@ == decided(verdict, hooks_enabled, project_disabled, text_of(rewritten)),
{
    if verdict == PermissionVerdict::Deny {
        return Outcome::Deny;
    }
    if !hooks_enabled || project_disabled {
        return Outcome::Passthrough;
    }
    match rewritten {
        Some(text) => {
            if verdict == PermissionVerdict::Allow {
                Outcome::Allow(text)
            } else {
                Outcome::AskWithRewrite(text)
            }
        },
        None => Outcome::Passthrough,
    }
}

/// Decides what becomes of the command `cmd`. `rewrite` gives its rewritten form, if
/// it has one; it is asked only where a rewritten form is wanted.
pub fn compute_outcome<F: Fn(&str, &[String]) -> Option<String>>(
    cmd: &str,
    verdict: PermissionVerdict,
    hooks_enabled: bool,
    project_disabled: bool,
    excluded: &[String],
    rewrite: &F,
) -> (r: RewriteOutcome)
    requires
        verdict !is Deny && hooks_enabled && !project_disabled ==> rewrite.requires(
            (cmd, excluded),
        ),
    ensures
        verdict is Deny ==> r@ is Deny,
        verdict !is Deny && (!hooks_enabled || project_disabled) ==> r@ is Passthrough,
        verdict !is Deny && hooks_enabled && !project_disabled ==> exists|ret: Option<String>|
            #[trigger] rewrite.ensures((cmd, excluded), ret) && r@ == decided(
                verdict,
                hooks_enabled,
                project_disabled,
                text_of(ret),
            ),
{
    if verdict == PermissionVerdict::Deny || !hooks_enabled || project_disabled {
        return decide(verdict, hooks_enabled, project_disabled, None);
    }
    let rewritten = rewrite(cmd, excluded);
    decide(verdict, hooks_enabled, project_disabled, rewritten)
}

// ─── The answer of the hook ─────────────────────────────────────────────────

/// The answer of the hook, as text sequences.
#[verifier::ext_equal]
pub struct ResponseView {
    pub exit_code: int,
    pub stdout: Seq<char>,
}

/// The answer of the hook: its exit code, and what it prints.
pub struct Response {
    pub exit_code: i32,
    pub stdout: String,
}

impl View for Response {
    type V = ResponseView;

    open spec fn view(&self) -> ResponseView {
        ResponseView { exit_code: self.exit_code as int, stdout: self.stdout@ }
    }
}

/// The answer for each outcome:
///
/// | exit | prints    | meaning                                          |
/// |------|-----------|--------------------------------------------------|
/// | 0    | rewritten | the command may be replaced                      |
/// | 1    | nothing   | the command stays as it is                       |
/// | 2    | nothing   | a deny rule matched                              |
/// | 3    | rewritten | the command may be replaced after a prompt       |
pub open spec fn answer(outcome: Outcome<Seq<char>>) -> ResponseView {
    match outcome {
        Outcome::Deny => ResponseView { exit_code: 2, stdout: seq![] },
        Outcome::Passthrough => ResponseView { exit_code: 1, stdout: seq![] },
        Outcome::Allow(text) => ResponseView { exit_code: 0, stdout: text },
        Outcome::AskWithRewrite(text) => ResponseView { exit_code: 3, stdout: text },
    }
}

/// Gives the answer for an outcome.
pub fn respond(outcome: RewriteOutcome) -> (r: Response)
    ensures
        r@ == answer(outcome@),
{
    let r = match outcome {
        Outcome::Deny => Response { exit_code: 2, stdout: String::new() },
        Outcome::Passthrough => Response { exit_code: 1, stdout: String::new() },
        Outcome::Allow(text) => Response { exit_code: 0, stdout: text },
        Outcome::AskWithRewrite(text) => Response { exit_code: 3, stdout: text },
    };
    assert(r@ =~= answer(outcome@));
    r
}

// ─── Laws ───────────────────────────────────────────────────────────────────

/// A deny rule is honoured whatever is switched off, and nothing else is answered
/// as a denial: switching rewriting off removes no protection.
pub proof fn law_deny_always_fires(
    verdict: PermissionVerdict,
    hooks_enabled: bool,
    project_disabled: bool,
    rewritten: Option<Seq<char>>,
)
    ensures
        answer(decided(verdict, hooks_enabled, project_disabled, rewritten)).exit_code == 2
            <==> verdict is Deny,
{
}

/// While rewriting is switched off, no command is rewritten and no prompt is asked
/// for: what is not denied passes through, and nothing is printed.
pub proof fn law_disabled_never_rewrites(
    verdict: PermissionVerdict,
    hooks_enabled: bool,
    project_disabled: bool,
    rewritten: Option<Seq<char>>,
)
    requires
        !hooks_enabled || project_disabled,
    ensures
        ({
            let r = answer(decided(verdict, hooks_enabled, project_disabled, rewritten));
            &&& r.stdout.len() == 0
            &&& verdict !is Deny ==> r.exit_code == 1
        }),
{
}

/// A command is replaced without a prompt only where the verdict is to allow it.
pub proof fn law_allow_needs_verdict(
    verdict: PermissionVerdict,
    hooks_enabled: bool,
    project_disabled: bool,
    rewritten: Option<Seq<char>>,
)
    ensures
        answer(decided(verdict, hooks_enabled, project_disabled, rewritten)).exit_code == 0
            <==> verdict is Allow && hooks_enabled && !project_disabled && rewritten is Some,
{
}

/// A rewritten form is printed unchanged, and exactly with the exit codes 0 and 3.
pub proof fn law_prints_rewritten_form(
    verdict: PermissionVerdict,
    hooks_enabled: bool,
    project_disabled: bool,
    rewritten: Option<Seq<char>>,
)
    ensures
        ({
            let r = answer(decided(verdict, hooks_enabled, project_disabled, rewritten));
            &&& r.exit_code == 0 || r.exit_code == 3 ==> rewritten == Some(r.stdout)
            &&& r.exit_code == 1 || r.exit_code == 2 ==> r.stdout.len() == 0
            &&& 0 <= r.exit_code <= 3
        }),
{
}

/// The outcome can be told from the exit code and the text that is printed.
pub proof fn law_answers_differ(a: Outcome<Seq<char>>, b: Outcome<Seq<char>>)
    ensures
        answer(a) == answer(b) ==> a == b,
{
}

} // verus!
