//! Switches the rewriting of commands on and off, globally and per project.
//!
//! Globally there is a flag in the configuration; in a project there is a marker
//! file, `.rtk/disabled`. A path is the list of its components.

use crate::hooks::rewrite_cmd::{decided, Outcome, PermissionVerdict};
use crate::text::views;
use vstd::prelude::*;

verus! {

/// The directory of the marker file, in the root of a project.
pub const MARKER_DIR: &'static str = ".rtk";

/// The name of the marker file.
pub const DISABLED_MARKER: &'static str = "disabled";

// ─── Project ────────────────────────────────────────────────────────────────

/// A path: its components.
pub type PathText = Seq<Seq<char>>;

/// The directory of the marker file of the project in `root`.
pub open spec fn marker_dir(root: PathText) -> PathText {
    root.push(MARKER_DIR@)
}

/// The path of the marker file of the project in `root`.
pub open spec fn marker_path(root: PathText) -> PathText {
    marker_dir(root).push(DISABLED_MARKER@)
}

/// One change of the file system. `P` is the type of paths.
pub enum MarkerStep<P> {
    /// Create a directory, and those above it that are missing.
    CreateDir(P),
    /// Create an empty file, or empty the file that is there.
    WriteEmpty(P),
    /// Remove a file.
    Remove(P),
}

impl View for MarkerStep<Vec<String>> {
    type V = MarkerStep<PathText>;

    open spec fn view(&self) -> MarkerStep<PathText> {
        match self {
            MarkerStep::CreateDir(path) => MarkerStep::CreateDir(views(path@)),
            MarkerStep::WriteEmpty(path) => MarkerStep::WriteEmpty(views(path@)),
            MarkerStep::Remove(path) => MarkerStep::Remove(views(path@)),
        }
    }
}

/// What disables rewriting in the project in `root`.
pub open spec fn disable_steps(root: PathText) -> Seq<MarkerStep<PathText>> {
    seq![MarkerStep::CreateDir(marker_dir(root)), MarkerStep::WriteEmpty(marker_path(root))]
}

/// What enables rewriting in the project in `root`; nothing where there is no
/// marker.
pub open spec fn enable_steps(root: PathText, marked: bool) -> Seq<MarkerStep<PathText>> {
    if marked {
        seq![MarkerStep::Remove(marker_path(root))]
    } else {
        seq![]
    }
}

fn extended(path: &[String], name: &str) -> (r: Vec<String>)
    ensures
        views(r@) == views(path@).push(name@),
{
    let mut out: Vec<String> = Vec::new();
    for i in 0..path.len()
        invariant
            views(out@) == views(path@).take(i as int),
    {
        let ghost before = views(out@);
        out.push(path[i].clone());
        assert(views(out@) =~= before.push(path@[i as int]@));
        assert(views(out@) =~= views(path@).take(i + 1));
    }
    assert(views(out@) =~= views(path@));
    out.push(name.to_owned());
    assert(views(out@) =~= views(path@).push(name@));
    out
}

/// The path of the marker file of the project in `root`.
pub fn marker_path_in(root: &[String]) -> (r: Vec<String>)
    ensures
        views(r@) == marker_path(views(root@)),
{
    let dir = extended(root, MARKER_DIR);
    extended(dir.as_slice(), DISABLED_MARKER)
}

/// What is to be done to disable rewriting in the project in `root`.
pub fn disable_in(root: &[String]) -> (r: Vec<MarkerStep<Vec<String>>>)
    ensures
        views(r@) == disable_steps(views(root@)),
{
    let mut out: Vec<MarkerStep<Vec<String>>> = Vec::new();
    out.push(MarkerStep::CreateDir(extended(root, MARKER_DIR)));
    out.push(MarkerStep::WriteEmpty(marker_path_in(root)));
    assert(views(out@) =~= disable_steps(views(root@)));
    out
}

/// What is to be done to enable rewriting in the project in `root`, where `marked`
/// tells whether there is a marker.
pub fn enable_in(root: &[String], marked: bool) -> (r: Vec<MarkerStep<Vec<String>>>)
    ensures
        views(r@) == enable_steps(views(root@), marked),
{
    let mut out: Vec<MarkerStep<Vec<String>>> = Vec::new();
    if marked {
        out.push(MarkerStep::Remove(marker_path_in(root)));
    }
    assert(views(out@) =~= enable_steps(views(root@), marked));
    out
}

/// What an error message says before the path of the step that failed.
pub open spec fn failure_words(step: MarkerStep<PathText>) -> Seq<char> {
    match step {
        MarkerStep::CreateDir(_) => "Failed to create directory: "@,
        MarkerStep::WriteEmpty(_) => "Failed to create "@,
        MarkerStep::Remove(_) => "Failed to remove "@,
    }
}

/// What an error message says before the path of the step that failed.
pub fn failure_text(step: &MarkerStep<Vec<String>>) -> (r: String)
    ensures
        r@ == failure_words(step@),
{
    match step {
        MarkerStep::CreateDir(_) => "Failed to create directory: ".to_owned(),
        MarkerStep::WriteEmpty(_) => "Failed to create ".to_owned(),
        MarkerStep::Remove(_) => "Failed to remove ".to_owned(),
    }
}

/// Whether rewriting is disabled in a directory. `marked` tells, for the directory
/// and each directory above it, whether there is a marker in it; it is empty where
/// that could not be found out.
pub fn is_project_disabled(marked: &[bool]) -> (r: bool)
    ensures
        r == marked@.contains(true),
{
    for i in 0..marked.len()
        invariant
            forall|j: int| 0 <= j < i ==> !marked@[j],
    {
        if marked[i] {
            assert(marked@[i as int] == true);
            return true;
        }
    }
    false
}

// ─── Global ─────────────────────────────────────────────────────────────────

/// The part of the configuration that is about hooks.
pub struct HookConfig {
    pub enabled: bool,
    pub exclude_commands: Vec<String>,
}

/// The configuration with the flag set to `enabled`, and nothing else changed.
pub fn set_global_enabled(config: HookConfig, enabled: bool) -> (r: HookConfig)
    ensures
        r.enabled == enabled,
        r.exclude_commands == config.exclude_commands,
{
    HookConfig { enabled, exclude_commands: config.exclude_commands }
}

/// Whether rewriting is enabled globally, where `flag` is what the configuration
/// says, if it could be read.
pub fn global_enabled(flag: Option<bool>) -> (r: bool)
    ensures
        r == (flag != Some(false)),
{
    match flag {
        Some(enabled) => enabled,
        None => true,
    }
}

// ─── Messages ───────────────────────────────────────────────────────────────

/// What is printed when rewriting has been disabled.
pub open spec fn disabled_words(project: bool) -> Seq<char> {
    if project {
        "RTK hook rewriting disabled for this project.\n"@
            + "(Add .rtk/disabled to .gitignore to keep it local)\n"@
    } else {
        "RTK hook rewriting disabled globally.\n"@
    }
}

/// What is printed when rewriting has been disabled.
pub fn disabled_message(project: bool) -> (r: String)
    ensures
        r@ == disabled_words(project),
{
    if project {
        let mut out = "RTK hook rewriting disabled for this project.\n".to_owned();
        out.append("(Add .rtk/disabled to .gitignore to keep it local)\n");
        out
    } else {
        "RTK hook rewriting disabled globally.\n".to_owned()
    }
}

/// What is printed when rewriting has been enabled.
pub open spec fn enabled_words(project: bool) -> Seq<char> {
    if project {
        "RTK hook rewriting enabled for this project.\n"@
    } else {
        "RTK hook rewriting enabled globally.\n"@
    }
}

/// What is printed when rewriting has been enabled.
pub fn enabled_message(project: bool) -> (r: String)
    ensures
        r@ == enabled_words(project),
{
    if project {
        "RTK hook rewriting enabled for this project.\n".to_owned()
    } else {
        "RTK hook rewriting enabled globally.\n".to_owned()
    }
}

/// Whether commands are rewritten.
pub open spec fn effective(global_enabled: bool, project_disabled: bool) -> bool {
    global_enabled && !project_disabled
}

/// `a` or `b`, as `choice` says.
pub open spec fn either(choice: bool, a: Seq<char>, b: Seq<char>) -> Seq<char> {
    if choice {
        a
    } else {
        b
    }
}

/// The note on how to switch rewriting on again, where it is off.
pub open spec fn status_note(global_enabled: bool, project_disabled: bool) -> Seq<char> {
    if !global_enabled && project_disabled {
        "  Note: Both global and project-level are disabled.\n"@
    } else if !global_enabled {
        "  Note: Run `rtk enable` to re-enable globally.\n"@
    } else if project_disabled {
        "  Note: Run `rtk enable --project` to re-enable for this project.\n"@
    } else {
        seq![]
    }
}

/// The report on whether commands are rewritten.
pub open spec fn status_words(global_enabled: bool, project_disabled: bool) -> Seq<char> {
    "RTK hook rewriting status:\n"@ + "  Global:  "@ + either(
        global_enabled,
        "enabled\n"@,
        "disabled\n"@,
    ) + "  Project: "@ + either(
        project_disabled,
        "disabled (.rtk/disabled present)\n"@,
        "enabled (no marker file)\n"@,
    ) + "\n  Effective: "@ + either(
        effective(global_enabled, project_disabled),
        "ACTIVE\n"@,
        "INACTIVE (passthrough)\n"@,
    ) + status_note(global_enabled, project_disabled)
}

/// Writes the report on whether commands are rewritten.
pub fn status_report(global_enabled: bool, project_disabled: bool) -> (r: String)
    ensures
        r@ == status_words(global_enabled, project_disabled),
{
    let mut out = "RTK hook rewriting status:\n".to_owned();
    out.append("  Global:  ");
    out.append(
        if global_enabled {
            "enabled\n"
        } else {
            "disabled\n"
        },
    );
    out.append("  Project: ");
    out.append(
        if project_disabled {
            "disabled (.rtk/disabled present)\n"
        } else {
            "enabled (no marker file)\n"
        },
    );
    out.append("\n  Effective: ");
    out.append(
        if global_enabled && !project_disabled {
            "ACTIVE\n"
        } else {
            "INACTIVE (passthrough)\n"
        },
    );
    let ghost so_far = out@;
    if !global_enabled && project_disabled {
        out.append("  Note: Both global and project-level are disabled.\n");
    } else if !global_enabled {
        out.append("  Note: Run `rtk enable` to re-enable globally.\n");
    } else if project_disabled {
        out.append("  Note: Run `rtk enable --project` to re-enable for this project.\n");
    }
    assert(out@ =~= so_far + status_note(global_enabled, project_disabled));
    out
}

// ─── Laws ───────────────────────────────────────────────────────────────────

/// The directories and the files that there are.
#[verifier::ext_equal]
pub struct FileTree {
    pub dirs: Set<PathText>,
    pub files: Set<PathText>,
}

/// Whether there is a file or a directory at `path`.
pub open spec fn is_there(tree: FileTree, path: PathText) -> bool {
    tree.dirs.contains(path) || tree.files.contains(path)
}

/// Whether rewriting is disabled in the project in `root`.
pub open spec fn disabled_in(tree: FileTree, root: PathText) -> bool {
    is_there(tree, marker_path(root))
}

/// Whether `dir` is `path` or stands above it.
pub open spec fn leads_to(dir: PathText, path: PathText) -> bool {
    dir.len() <= path.len() && path.take(dir.len() as int) == dir
}

/// What a step that succeeds makes of a tree.
pub open spec fn after_step(tree: FileTree, step: MarkerStep<PathText>) -> FileTree {
    match step {
        MarkerStep::CreateDir(path) => FileTree {
            dirs: Set::new(|dir: PathText| tree.dirs.contains(dir) || leads_to(dir, path)),
            files: tree.files,
        },
        MarkerStep::WriteEmpty(path) => FileTree {
            dirs: tree.dirs,
            files: tree.files.insert(path),
        },
        MarkerStep::Remove(path) => FileTree { dirs: tree.dirs, files: tree.files.remove(path) },
    }
}

/// What steps that succeed make of a tree.
pub open spec fn after_steps(tree: FileTree, steps: Seq<MarkerStep<PathText>>) -> FileTree
    decreases steps.len(),
{
    if steps.len() == 0 {
        tree
    } else {
        after_step(after_steps(tree, steps.drop_last()), steps.last())
    }
}

/// The tree in which the project in `root` has been disabled.
pub open spec fn disabled_tree(tree: FileTree, root: PathText) -> FileTree {
    after_steps(tree, disable_steps(root))
}

/// The tree in which the project in `root` has been enabled.
pub open spec fn enabled_tree(tree: FileTree, root: PathText) -> FileTree {
    after_steps(tree, enable_steps(root, disabled_in(tree, root)))
}

proof fn lemma_disabled_tree(tree: FileTree, root: PathText)
    ensures
        disabled_tree(tree, root).files == tree.files.insert(marker_path(root)),
        forall|dir: PathText| #[trigger]
            disabled_tree(tree, root).dirs.contains(dir) <==> tree.dirs.contains(dir) || leads_to(
                dir,
                marker_dir(root),
            ),
{
    let steps = disable_steps(root);
    reveal_with_fuel(after_steps, 3);
    assert(steps.drop_last() =~= seq![MarkerStep::CreateDir(marker_dir(root))]);
    assert(steps.drop_last().drop_last() =~= seq![]);
}

proof fn lemma_enabled_tree(tree: FileTree, root: PathText)
    ensures
        disabled_in(tree, root) ==> enabled_tree(tree, root) == after_step(
            tree,
            MarkerStep::Remove(marker_path(root)),
        ),
        !disabled_in(tree, root) ==> enabled_tree(tree, root) == tree,
{
    let steps = enable_steps(root, disabled_in(tree, root));
    reveal_with_fuel(after_steps, 2);
    if disabled_in(tree, root) {
        assert(steps.drop_last() =~= seq![]);
    }
}

/// Disabling a project disables it, and makes the directory of its marker. The
/// other files stay.
pub proof fn law_disable_creates_marker(tree: FileTree, root: PathText)
    ensures
        disabled_in(disabled_tree(tree, root), root),
        disabled_tree(tree, root).dirs.contains(marker_dir(root)),
        disabled_tree(tree, root).files == tree.files.insert(marker_path(root)),
{
    lemma_disabled_tree(tree, root);
    assert(marker_dir(root).take(marker_dir(root).len() as int) =~= marker_dir(root));
    assert(leads_to(marker_dir(root), marker_dir(root)));
}

/// Enabling a project whose marker is a file enables it, and changes nothing but
/// the marker.
pub proof fn law_enable_removes_marker(tree: FileTree, root: PathText)
    requires
        !tree.dirs.contains(marker_path(root)),
    ensures
        !disabled_in(enabled_tree(tree, root), root),
        enabled_tree(tree, root).files == tree.files.remove(marker_path(root)),
        enabled_tree(tree, root).dirs == tree.dirs,
{
    lemma_enabled_tree(tree, root);
    if !disabled_in(tree, root) {
        assert(tree.files.remove(marker_path(root)) =~= tree.files);
    }
}

/// Enabling a project that is not disabled changes nothing.
pub proof fn law_enable_when_enabled_is_noop(tree: FileTree, root: PathText)
    requires
        !disabled_in(tree, root),
    ensures
        enabled_tree(tree, root) == tree,
{
    lemma_enabled_tree(tree, root);
}

/// Enabling undoes disabling: the files are those from before.
pub proof fn law_enable_undoes_disable(tree: FileTree, root: PathText)
    requires
        !disabled_in(tree, root),
    ensures
        !disabled_in(enabled_tree(disabled_tree(tree, root), root), root),
        enabled_tree(disabled_tree(tree, root), root).files == tree.files,
{
    let mid = disabled_tree(tree, root);
    lemma_disabled_tree(tree, root);
    lemma_enabled_tree(mid, root);
    assert(!leads_to(marker_path(root), marker_dir(root)));
    assert(mid.files.remove(marker_path(root)) =~= tree.files);
}

/// For the directory `cwd` and each directory above it, the nearest first, whether
/// there is a marker in it.
pub open spec fn marks_above(tree: FileTree, cwd: PathText) -> Seq<bool> {
    Seq::new(cwd.len() + 1, |k: int| disabled_in(tree, cwd.take(cwd.len() - k)))
}

/// A marker in any directory on the way up counts, and nothing else does.
pub proof fn law_marker_found_walking_up(tree: FileTree, cwd: PathText)
    ensures
        marks_above(tree, cwd).contains(true) <==> exists|root: PathText| #[trigger]
            leads_to(root, cwd) && disabled_in(tree, root),
{
    let marks = marks_above(tree, cwd);
    if marks.contains(true) {
        let k = choose|k: int| 0 <= k < marks.len() && marks[k] == true;
        let root = cwd.take(cwd.len() - k);
        assert(cwd.take(root.len() as int) =~= root);
        assert(leads_to(root, cwd) && disabled_in(tree, root));
    }
    if exists|root: PathText| #[trigger] leads_to(root, cwd) && disabled_in(tree, root) {
        let root = choose|root: PathText| #[trigger]
            leads_to(root, cwd) && disabled_in(tree, root);
        let k = cwd.len() - root.len();
        assert(cwd.len() - k == root.len());
        assert(marks[k] == true);
    }
}

/// Disabling a project disables it in every directory below its root too.
pub proof fn law_disable_reaches_below(tree: FileTree, root: PathText, cwd: PathText)
    requires
        leads_to(root, cwd),
    ensures
        marks_above(disabled_tree(tree, root), cwd).contains(true),
{
    law_disable_creates_marker(tree, root);
    law_marker_found_walking_up(disabled_tree(tree, root), cwd);
}

/// Disabling one project puts no marker into another.
pub proof fn law_projects_independent(tree: FileTree, root: PathText, other: PathText)
    requires
        root != other,
        !leads_to(marker_path(other), marker_dir(root)),
    ensures
        disabled_in(disabled_tree(tree, root), other) == disabled_in(tree, other),
{
    lemma_disabled_tree(tree, root);
    assert(marker_path(other) != marker_path(root)) by {
        if marker_path(other) == marker_path(root) {
            assert(marker_path(other).drop_last().drop_last() =~= other);
            assert(marker_path(root).drop_last().drop_last() =~= root);
        }
    }
}

/// The report says `ACTIVE` exactly where an allowed command with a rewritten form
/// is rewritten.
pub proof fn law_status_tells_what_happens(
    global_enabled: bool,
    project_disabled: bool,
    rewritten: Seq<char>,
)
    ensures
        effective(global_enabled, project_disabled) <==> decided(
            PermissionVerdict::Allow,
            global_enabled,
            project_disabled,
            Some(rewritten),
        ) == Outcome::Allow(rewritten),
{
}

/// The note is there exactly where commands are not rewritten.
pub proof fn law_note_iff_inactive(global_enabled: bool, project_disabled: bool)
    ensures
        status_note(global_enabled, project_disabled).len() > 0 <==> !effective(
            global_enabled,
            project_disabled,
        ),
{
    reveal_strlit("  Note: Both global and project-level are disabled.\n");
    reveal_strlit("  Note: Run `rtk enable` to re-enable globally.\n");
    reveal_strlit("  Note: Run `rtk enable --project` to re-enable for this project.\n");
}

} // verus!
