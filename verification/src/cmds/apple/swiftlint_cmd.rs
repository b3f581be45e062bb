//! Filters SwiftLint output: groups the violations by rule, with the number of
//! violations and of files for each, the gravest rules first.

use crate::ansi::{strip_ansi, without_ansi};
use crate::groups::{
    counted, group_counted, group_total, grouped, law_group_counted, law_group_total, law_grouped,
    lemma_text_less_irreflexive, lemma_text_less_transitive, lemma_values_are_picked, text_less,
    values_under, Groups,
};
use crate::invocation::{copied, notice, notice_of, Filter, Invocation, InvocationView};
use crate::pattern::{
    group_text, regex_captures, regex_matches, Found, FoundText, Pattern, LINT_CORRECTED,
    LINT_SUMMARY, LINT_VIOLATION,
};
use crate::permutation::{
    lemma_counted_rearranged, lemma_mapped_rearranged, lemma_picked_rearranged,
    lemma_rearranged_items, rearranged,
};
use crate::report::{
    all_trimmed, capped, capped_lines, closing, closing_text, in_order, is_trimmed,
    law_trimmed_is_trimmed, lemma_capped_survives, lemma_closing_at_end, lemma_occurs_after_trim,
    lemma_occurs_in_begun, lemma_occurs_in_itself, lemma_occurs_in_middle, lemma_occurs_in_parts,
    shown,
};
use crate::text::{
    decimal, decimal_text, is_space, join, joined, lines, lines_of, occurs, pieces_of, same_text,
    split, trim, trimmed, views,
};
use vstd::prelude::*;

verus! {

/// How many rules a report lists.
pub const RULE_LIMIT: usize = 20;

// ─── Lines ──────────────────────────────────────────────────────────────────

/// A trimmed line with what each pattern finds in it. `T` is the type of text,
/// `F` that of a search result.
pub struct LintLine<T, F> {
    pub text: T,
    pub violation: F,
    pub summary: bool,
    pub corrected: bool,
}

impl View for LintLine<String, Found> {
    type V = LintLine<Seq<char>, FoundText>;

    open spec fn view(&self) -> LintLine<Seq<char>, FoundText> {
        LintLine {
            text: self.text@,
            violation: self.violation@,
            summary: self.summary,
            corrected: self.corrected,
        }
    }
}

/// What the patterns find in a line of output.
pub open spec fn lint_line(line: Seq<char>) -> LintLine<Seq<char>, FoundText> {
    let text = trimmed(line);
    LintLine {
        text,
        violation: regex_captures(LINT_VIOLATION@, text),
        summary: regex_matches(LINT_SUMMARY@, text),
        corrected: regex_matches(LINT_CORRECTED@, text),
    }
}

/// What the patterns find in each line of `clean`.
pub open spec fn lint_lines(clean: Seq<char>) -> Seq<LintLine<Seq<char>, FoundText>> {
    lines_of(clean).map_values(|line: Seq<char>| lint_line(line))
}

/// Searches each line of `clean` for the patterns.
pub fn read_lint_lines(clean: &str) -> (r: Vec<LintLine<String, Found>>)
    ensures
        views(r@) == lint_lines(clean@),
{
    let violation = Pattern::compile(LINT_VIOLATION);
    let summary = Pattern::compile(LINT_SUMMARY);
    let corrected = Pattern::compile(LINT_CORRECTED);
    let raw = lines(clean);
    let mut out: Vec<LintLine<String, Found>> = Vec::new();
    for i in 0..raw.len()
        invariant
            violation.source() == LINT_VIOLATION@,
            summary.source() == LINT_SUMMARY@,
            corrected.source() == LINT_CORRECTED@,
            views(raw@) == lines_of(clean@),
            views(out@) == lint_lines(clean@).take(i as int),
    {
        let text = trim(raw[i].as_str());
        let line = LintLine {
            violation: violation.captures(text.as_str()),
            summary: summary.is_match(text.as_str()),
            corrected: corrected.is_match(text.as_str()),
            text,
        };
        assert(line@ == lint_line(views(raw@)[i as int]));
        assert(lint_lines(clean@)[i as int] == line@);
        let ghost before = views(out@);
        out.push(line);
        assert(views(out@) =~= before.push(line@));
        assert(views(out@) =~= lint_lines(clean@).take(i + 1));
    }
    assert(views(out@) =~= lint_lines(clean@));
    out
}

/// Whether a line has a marker of a lint run: a violation, the summary, or the
/// line on corrected violations.
pub open spec fn is_lint_marker(l: LintLine<Seq<char>, FoundText>) -> bool {
    l.text.len() > 0 && (l.violation is Some || l.summary || l.corrected)
}

/// Whether some line has a marker of a lint run.
pub open spec fn has_lint_marker(ls: Seq<LintLine<Seq<char>, FoundText>>) -> bool {
    exists|i: int| 0 <= i < ls.len() && is_lint_marker(#[trigger] ls[i])
}

/// Whether the output is that of a lint run, and not that of an informational
/// subcommand such as `swiftlint version` or `swiftlint rules`.
pub fn looks_like_lint_output(ls: &Vec<LintLine<String, Found>>) -> (r: bool)
    ensures
        r == has_lint_marker(views(ls@)),
{
    let ghost all = views(ls@);
    for i in 0..ls.len()
        invariant
            all == views(ls@),
            forall|j: int| 0 <= j < i ==> !is_lint_marker(#[trigger] all[j]),
    {
        let l = &ls[i];
        assert(all[i as int] == l@);
        if !l.text.as_str().is_empty() && (l.violation.is_match() || l.summary || l.corrected) {
            return true;
        }
    }
    false
}

// ─── Paths ──────────────────────────────────────────────────────────────────

/// The last two components of a path; the path itself if it has no more.
pub open spec fn shortened(path: Seq<char>) -> Seq<char> {
    let parts = pieces_of(path, '/');
    if parts.len() <= 2 {
        path
    } else {
        joined(parts.skip(parts.len() - 2), "/"@)
    }
}

/// Shortens a file path to its last two components.
pub fn shorten_path(path: &str) -> (r: String)
    ensures
        r@ == shortened(path@),
{
    let parts = split(path, '/');
    if parts.len() <= 2 {
        return path.to_owned();
    }
    let mut tail: Vec<String> = Vec::new();
    tail.push(parts[parts.len() - 2].clone());
    tail.push(parts[parts.len() - 1].clone());
    assert(views(tail@) =~= pieces_of(path@, '/').skip(parts@.len() - 2));
    join(&tail, "/")
}

// ─── Summary ────────────────────────────────────────────────────────────────

/// What has been read of a lint run, as text sequences.
#[verifier::ext_equal]
pub struct LintSummaryView {
    pub violations: Seq<(Seq<char>, (bool, Seq<char>))>,
    pub summary: Seq<char>,
    pub corrected: Seq<char>,
}

/// What has been read of a lint run: the violations (rule, whether an error,
/// shortened path), the last summary line and the last line on corrections.
pub struct LintSummary {
    pub violations: Vec<(String, (bool, String))>,
    pub summary: String,
    pub corrected: String,
}

impl View for LintSummary {
    type V = LintSummaryView;

    open spec fn view(&self) -> LintSummaryView {
        LintSummaryView {
            violations: views(self.violations@),
            summary: self.summary@,
            corrected: self.corrected@,
        }
    }
}

/// Before the first line.
pub open spec fn lint_start() -> LintSummaryView {
    LintSummaryView { violations: seq![], summary: seq![], corrected: seq![] }
}

/// The violation that a search found: its rule, whether it is an error, and the
/// file.
pub open spec fn violation_of(found: FoundText) -> (Seq<char>, (bool, Seq<char>)) {
    (
        group_text(found, 5),
        (group_text(found, 3) == "error"@, shortened(group_text(found, 1))),
    )
}

/// What reading one more line makes of what has been read.
pub open spec fn lint_step(
    s: LintSummaryView,
    l: LintLine<Seq<char>, FoundText>,
) -> LintSummaryView {
    if l.text.len() == 0 {
        s
    } else if l.violation is Some {
        LintSummaryView { violations: s.violations.push(violation_of(l.violation)), ..s }
    } else if l.summary {
        LintSummaryView { summary: l.text, ..s }
    } else if l.corrected {
        LintSummaryView { corrected: l.text, ..s }
    } else {
        s
    }
}

/// What has been read after all the lines.
pub open spec fn lint_summary(ls: Seq<LintLine<Seq<char>, FoundText>>) -> LintSummaryView
    decreases ls.len(),
{
    if ls.len() == 0 {
        lint_start()
    } else {
        lint_step(lint_summary(ls.drop_last()), ls.last())
    }
}

impl LintSummary {
    /// Before the first line.
    pub fn start() -> (r: Self)
        ensures
            r@ == lint_start(),
    {
        let r = LintSummary {
            violations: Vec::new(),
            summary: String::new(),
            corrected: String::new(),
        };
        assert(r@ =~= lint_start());
        r
    }

    /// Reads one more line.
    pub fn read(&mut self, l: &LintLine<String, Found>)
        ensures
            final(self)@ == lint_step(old(self)@, l@),
    {
        if !l.text.as_str().is_empty() {
            if l.violation.is_match() {
                let rule = l.violation.group(5);
                let is_error = same_text(l.violation.group(3).as_str(), "error");
                let file = shorten_path(l.violation.group(1).as_str());
                self.violations.push((rule, (is_error, file)));
            } else if l.summary {
                self.summary = l.text.clone();
            } else if l.corrected {
                self.corrected = l.text.clone();
            }
        }
        assert(self@ =~= lint_step(old(self)@, l@));
    }
}

/// Reads the lines of a lint run.
pub fn summarize_lint(ls: &Vec<LintLine<String, Found>>) -> (r: LintSummary)
    ensures
        r@ == lint_summary(views(ls@)),
{
    let mut s = LintSummary::start();
    let ghost all = views(ls@);
    for i in 0..ls.len()
        invariant
            all == views(ls@),
            s@ == lint_summary(all.take(i as int)),
    {
        assert(all.take(i + 1).drop_last() =~= all.take(i as int));
        s.read(&ls[i]);
    }
    assert(all.take(all.len() as int) =~= all);
    s
}

// ─── Rules ──────────────────────────────────────────────────────────────────

/// The figures of one rule.
#[verifier::ext_equal]
pub struct RuleStatsView {
    pub rule: Seq<char>,
    pub errors: nat,
    pub total: nat,
    pub files: nat,
}

/// The figures of one rule: how many of its violations are errors, how many
/// violations there are, and in how many files.
pub struct RuleStats {
    pub rule: String,
    pub errors: usize,
    pub total: usize,
    pub files: usize,
}

impl View for RuleStats {
    type V = RuleStatsView;

    open spec fn view(&self) -> RuleStatsView {
        RuleStatsView {
            rule: self.rule@,
            errors: self.errors as nat,
            total: self.total as nat,
            files: self.files as nat,
        }
    }
}

/// How many of the violations are errors.
pub open spec fn error_count(hits: Seq<(bool, Seq<char>)>) -> nat {
    counted(hits, |hit: (bool, Seq<char>)| hit.0)
}

/// The files of the violations.
pub open spec fn files_of(hits: Seq<(bool, Seq<char>)>) -> Seq<Seq<char>> {
    hits.map_values(|hit: (bool, Seq<char>)| hit.1)
}

/// The figures of the rule `rule` with the violations `hits`.
pub open spec fn rule_stats(rule: Seq<char>, hits: Seq<(bool, Seq<char>)>) -> RuleStatsView {
    RuleStatsView {
        rule,
        errors: error_count(hits),
        total: hits.len(),
        files: files_of(hits).to_set().len(),
    }
}

/// The figures of each rule, the rules in the order of their names.
pub open spec fn rule_table(violations: Seq<(Seq<char>, (bool, Seq<char>))>) -> Seq<RuleStatsView> {
    grouped(violations).map_values(
        |entry: (Seq<char>, Seq<(bool, Seq<char>)>)| rule_stats(entry.0, entry.1),
    )
}

/// Whether `a` is to be listed before `b`: more errors, or as many errors and
/// more violations.
pub open spec fn outranks(a: RuleStatsView, b: RuleStatsView) -> bool {
    a.errors > b.errors || (a.errors == b.errors && a.total > b.total)
}

/// The first position at or behind `from` of a rule that `rule` outranks.
pub open spec fn rank_slot(rules: Seq<RuleStatsView>, rule: RuleStatsView, from: int) -> int
    decreases rules.len() - from,
{
    if 0 <= from < rules.len() && !outranks(rule, rules[from]) {
        rank_slot(rules, rule, from + 1)
    } else {
        from
    }
}

/// The rules by rank; rules of one rank stay in their order.
pub open spec fn ranked(rules: Seq<RuleStatsView>) -> Seq<RuleStatsView>
    decreases rules.len(),
{
    if rules.len() == 0 {
        seq![]
    } else {
        let before = ranked(rules.drop_last());
        before.insert(rank_slot(before, rules.last(), 0), rules.last())
    }
}

fn count_errors(hits: &Vec<(bool, String)>) -> (r: usize)
    ensures
        r == error_count(views(hits@)),
        r <= hits@.len(),
{
    let mut n: usize = 0;
    let ghost all = views(hits@);
    for i in 0..hits.len()
        invariant
            all == views(hits@),
            n == error_count(all.take(i as int)),
            n <= i,
    {
        assert(all.take(i + 1).drop_last() =~= all.take(i as int));
        assert(all.take(i + 1).last() == hits@[i as int]@);
        if hits[i].0 {
            n += 1;
        }
    }
    assert(all.take(all.len() as int) =~= all);
    n
}

fn has_text(items: &Vec<String>, text: &str) -> (r: bool)
    ensures
        r == views(items@).contains(text@),
{
    let ghost all = views(items@);
    for i in 0..items.len()
        invariant
            all == views(items@),
            forall|j: int| 0 <= j < i ==> #[trigger] all[j] != text@,
    {
        if same_text(items[i].as_str(), text) {
            assert(all[i as int] == text@);
            return true;
        }
    }
    false
}

fn count_files(hits: &Vec<(bool, String)>) -> (r: usize)
    ensures
        r == files_of(views(hits@)).to_set().len(),
{
    let mut seen: Vec<String> = Vec::new();
    let ghost all = files_of(views(hits@));
    assert(views(seen@).to_set() =~= all.take(0).to_set());
    for i in 0..hits.len()
        invariant
            all == files_of(views(hits@)),
            views(seen@).no_duplicates(),
            views(seen@).to_set() == all.take(i as int).to_set(),
    {
        let file = hits[i].1.as_str();
        assert(all[i as int] == file@);
        let ghost before = views(seen@);
        assert(all.take(i + 1) =~= all.take(i as int).push(file@));
        assert(all.take(i + 1).to_set() =~= all.take(i as int).to_set().insert(file@)) by {
            assert forall|t: Seq<char>|
                all.take(i + 1).to_set().contains(t) == all.take(i as int).to_set().insert(
                    file@,
                ).contains(t) by {
                lemma_push_members(all.take(i as int), file@, t);
            }
        }
        if !has_text(&seen, file) {
            seen.push(file.to_owned());
            assert(views(seen@) =~= before.push(file@));
            assert(views(seen@).to_set() =~= before.to_set().insert(file@)) by {
                assert forall|t: Seq<char>|
                    views(seen@).to_set().contains(t) == before.to_set().insert(file@).contains(
                        t,
                    ) by {
                    lemma_push_members(before, file@, t);
                }
            }
        } else {
            assert(before.to_set().contains(file@));
            assert(all.take(i + 1).to_set() =~= before.to_set());
        }
    }
    assert(all.take(all.len() as int) =~= all);
    proof {
        views(seen@).unique_seq_to_set();
    }
    seen.len()
}

proof fn lemma_push_members<A>(s: Seq<A>, a: A, t: A)
    ensures
        s.push(a).contains(t) == (s.contains(t) || t == a),
{
    if s.contains(t) {
        let k = choose|k: int| 0 <= k < s.len() && s[k] == t;
        assert(s.push(a)[k] == t);
    }
    assert(s.push(a)[s.len() as int] == a);
}

/// Counts the violations of each rule, the rules in the order of their names.
pub fn tabulate_rules(violations: &Vec<(String, (bool, String))>) -> (r: Vec<RuleStats>)
    ensures
        views(r@) == rule_table(views(violations@)),
{
    let mut groups: Groups<(bool, String)> = Groups::new();
    let ghost all = views(violations@);
    for i in 0..violations.len()
        invariant
            all == views(violations@),
            groups@ == grouped(all.take(i as int)),
    {
        assert(all.take(i + 1).drop_last() =~= all.take(i as int));
        assert(all.take(i + 1).last() == violations@[i as int]@);
        groups.add(
            violations[i].0.as_str(),
            (violations[i].1.0, violations[i].1.1.clone()),
        );
    }
    assert(all.take(all.len() as int) =~= all);
    let mut out: Vec<RuleStats> = Vec::new();
    let ghost table = rule_table(all);
    for i in 0..groups.entries.len()
        invariant
            table == rule_table(all),
            groups@ == grouped(all),
            views(out@) == table.take(i as int),
    {
        let entry = &groups.entries[i];
        assert(groups@[i as int] == (entry.0@, views(entry.1@)));
        let stats = RuleStats {
            rule: entry.0.clone(),
            errors: count_errors(&entry.1),
            total: entry.1.len(),
            files: count_files(&entry.1),
        };
        assert(stats@ == table[i as int]);
        let ghost before = views(out@);
        out.push(stats);
        assert(views(out@) =~= before.push(stats@));
        assert(views(out@) =~= table.take(i + 1));
    }
    assert(views(out@) =~= table);
    out
}

/// Sorts the rules by rank; rules of one rank stay in their order.
pub fn rank_rules(rules: &Vec<RuleStats>) -> (r: Vec<RuleStats>)
    ensures
        views(r@) == ranked(views(rules@)),
{
    let mut out: Vec<RuleStats> = Vec::new();
    let ghost all = views(rules@);
    for i in 0..rules.len()
        invariant
            all == views(rules@),
            views(out@) == ranked(all.take(i as int)),
    {
        assert(all.take(i + 1).drop_last() =~= all.take(i as int));
        let rule = &rules[i];
        let ghost before = views(out@);
        assert(all.take(i + 1).last() == rule@);
        let mut at: usize = 0;
        while at < out.len() && !(rule.errors > out[at].errors || (rule.errors == out[at].errors
            && rule.total > out[at].total))
            invariant
                at <= out@.len(),
                before == views(out@),
                rank_slot(before, rule@, 0) == rank_slot(before, rule@, at as int),
            decreases out@.len() - at,
        {
            assert(before[at as int] == out@[at as int]@);
            at += 1;
        }
        assert(at < out@.len() ==> before[at as int] == out@[at as int]@);
        assert(rank_slot(before, rule@, 0) == at);
        let copy = RuleStats {
            rule: rule.rule.clone(),
            errors: rule.errors,
            total: rule.total,
            files: rule.files,
        };
        assert(copy@ == rule@);
        out.insert(at, copy);
        assert(views(out@) =~= before.insert(at as int, rule@));
    }
    assert(all.take(all.len() as int) =~= all);
    out
}

// ─── Report ─────────────────────────────────────────────────────────────────

/// `[E] rule (x3, 2 files)`, with `W` in place of `E` for a rule without errors.
pub open spec fn rule_entry(s: RuleStatsView) -> Seq<char> {
    let tag = if s.errors > 0 {
        "[E] "@
    } else {
        "[W] "@
    };
    tag + s.rule + " (x"@ + decimal(s.total) + ", "@ + decimal(s.files) + " files)"@
}

/// The entries of the rules.
pub open spec fn rule_entries(rules: Seq<RuleStatsView>) -> Seq<Seq<char>> {
    rules.map_values(|s: RuleStatsView| rule_entry(s))
}

/// The violations without their rules.
pub open spec fn hits_of(violations: Seq<(Seq<char>, (bool, Seq<char>))>) -> Seq<
    (bool, Seq<char>),
> {
    violations.map_values(|v: (Seq<char>, (bool, Seq<char>))| v.1)
}

/// The line of totals.
pub open spec fn totals_line(violations: Seq<(Seq<char>, (bool, Seq<char>))>) -> Seq<char> {
    let errors = error_count(hits_of(violations));
    decimal(violations.len()) + " violations ("@ + decimal(errors) + " errors, "@ + decimal(
        (violations.len() - errors) as nat,
    ) + " warnings)\n\n"@
}

/// The line for a run without violations.
pub open spec fn clean_line(s: LintSummaryView) -> Seq<char> {
    if s.corrected.len() > 0 {
        s.corrected + "\n"@
    } else if s.summary.len() > 0 {
        s.summary + "\n"@
    } else {
        "No violations\n"@
    }
}

/// The report before it is trimmed.
pub open spec fn lint_body(s: LintSummaryView) -> Seq<char> {
    if s.violations.len() == 0 {
        "swiftlint\n"@ + clean_line(s)
    } else {
        "swiftlint\n"@ + totals_line(s.violations) + capped(
            rule_entries(ranked(rule_table(s.violations))),
            "  "@,
            RULE_LIMIT as nat,
            " more rules\n"@,
        ) + closing(s.summary)
    }
}

/// The report on a lint run.
pub open spec fn lint_report(s: LintSummaryView) -> Seq<char> {
    trimmed(lint_body(s))
}

fn entry_text(s: &RuleStats) -> (r: String)
    ensures
        r@ == rule_entry(s@),
{
    let mut out = if s.errors > 0 {
        "[E] ".to_owned()
    } else {
        "[W] ".to_owned()
    };
    out.append(s.rule.as_str());
    out.append(" (x");
    out.append(decimal_text(s.total).as_str());
    out.append(", ");
    out.append(decimal_text(s.files).as_str());
    out.append(" files)");
    out
}

fn totals_text(violations: &Vec<(String, (bool, String))>) -> (r: String)
    ensures
        r@ == totals_line(views(violations@)),
{
    let mut errors: usize = 0;
    let ghost all = hits_of(views(violations@));
    for i in 0..violations.len()
        invariant
            all == hits_of(views(violations@)),
            errors == error_count(all.take(i as int)),
            errors <= i,
    {
        assert(all.take(i + 1).drop_last() =~= all.take(i as int));
        assert(all.take(i + 1).last() == violations@[i as int].1@);
        if violations[i].1.0 {
            errors += 1;
        }
    }
    assert(all.take(all.len() as int) =~= all);
    let mut out = decimal_text(violations.len());
    out.append(" violations (");
    out.append(decimal_text(errors).as_str());
    out.append(" errors, ");
    out.append(decimal_text(violations.len() - errors).as_str());
    out.append(" warnings)\n\n");
    out
}

fn clean_text(s: &LintSummary) -> (r: String)
    ensures
        r@ == clean_line(s@),
{
    if !s.corrected.as_str().is_empty() {
        let mut out = s.corrected.clone();
        out.append("\n");
        out
    } else if !s.summary.as_str().is_empty() {
        let mut out = s.summary.clone();
        out.append("\n");
        out
    } else {
        "No violations\n".to_owned()
    }
}

fn entries_text(rules: &Vec<RuleStats>) -> (r: Vec<String>)
    ensures
        views(r@) == rule_entries(views(rules@)),
{
    let mut out: Vec<String> = Vec::new();
    let ghost all = rule_entries(views(rules@));
    for i in 0..rules.len()
        invariant
            all == rule_entries(views(rules@)),
            views(out@) == all.take(i as int),
    {
        let entry = entry_text(&rules[i]);
        assert(all[i as int] == entry@);
        let ghost before = views(out@);
        out.push(entry);
        assert(views(out@) =~= before.push(entry@));
        assert(views(out@) =~= all.take(i + 1));
    }
    assert(views(out@) =~= all);
    out
}

/// Writes the report on a lint run.
pub fn render_lint(s: &LintSummary) -> (r: String)
    ensures
        r@ == lint_report(s@),
{
    let mut out = "swiftlint\n".to_owned();
    if s.violations.len() == 0 {
        out.append(clean_text(s).as_str());
    } else {
        let entries = entries_text(&rank_rules(&tabulate_rules(&s.violations)));
        out.append(totals_text(&s.violations).as_str());
        out.append(capped_lines(&entries, "  ", RULE_LIMIT, " more rules\n").as_str());
        out.append(closing_text(s.summary.as_str()).as_str());
    }
    trim(out.as_str())
}

/// What the filter makes of output without escape sequences whose lines are `ls`.
pub open spec fn lint_condensed(
    clean: Seq<char>,
    ls: Seq<LintLine<Seq<char>, FoundText>>,
) -> Seq<char> {
    if trimmed(clean).len() > 0 && !has_lint_marker(ls) {
        trimmed(clean)
    } else {
        lint_report(lint_summary(ls))
    }
}

/// Condenses output whose lines have been searched: the report, or the trimmed
/// output itself where it has text and is not that of a lint run.
pub fn condense_lint(clean: &str, ls: &Vec<LintLine<String, Found>>) -> (r: String)
    ensures
        r@ == lint_condensed(clean@, views(ls@)),
{
    let whole = trim(clean);
    if !whole.as_str().is_empty() && !looks_like_lint_output(ls) {
        return whole;
    }
    render_lint(&summarize_lint(ls))
}

/// What the filter makes of raw output.
pub open spec fn swiftlint_filtered(output: Seq<char>) -> Seq<char> {
    let clean = without_ansi(output);
    lint_condensed(clean, lint_lines(clean))
}

/// Condenses the output of `swiftlint`.
pub fn filter_swiftlint(output: &str) -> (r: String)
    ensures
        r@ == swiftlint_filtered(output@),
{
    let clean = strip_ansi(output);
    let ls = read_lint_lines(clean.as_str());
    condense_lint(clean.as_str(), &ls)
}

// ─── Running the tool ───────────────────────────────────────────────────────

/// How `swiftlint` is run with `args`.
pub open spec fn swiftlint_plan(args: Seq<Seq<char>>, verbose: u8) -> InvocationView {
    InvocationView {
        program: "swiftlint"@,
        args: args,
        notice: notice_of("swiftlint"@, args, verbose),
        tool: "swiftlint"@,
        display: joined(args, " "@),
        tee: Some("swiftlint"@),
        filter: Filter::Swiftlint,
    }
}

/// Plans a run of `swiftlint` with `args`.
pub fn run(args: &[String], verbose: u8) -> (r: Invocation)
    ensures
        r@ == swiftlint_plan(views(args@), verbose),
{
    let filter = Filter::Swiftlint;
    let r = Invocation {
        program: "swiftlint".to_owned(),
        args: copied(args),
        notice: notice("swiftlint", args, verbose),
        tool: "swiftlint".to_owned(),
        display: join(&copied(args), " "),
        tee: Some("swiftlint".to_owned()),
        filter,
    };
    assert(r@ =~= swiftlint_plan(views(args@), verbose));
    r
}

// ─── Laws ───────────────────────────────────────────────────────────────────

/// Output that is not that of a lint run is passed through: nothing but the
/// escape sequences and the whitespace at its ends gets lost.
pub proof fn law_lint_passthrough(output: Seq<char>)
    requires
        trimmed(without_ansi(output)).len() > 0,
        !has_lint_marker(lint_lines(without_ansi(output))),
    ensures
        swiftlint_filtered(output) == trimmed(without_ansi(output)),
{
}

/// The violation that a line reports, if it does.
pub open spec fn reported_violation(l: LintLine<Seq<char>, FoundText>) -> Option<
    (Seq<char>, (bool, Seq<char>)),
> {
    if l.text.len() > 0 && l.violation is Some {
        Some(violation_of(l.violation))
    } else {
        None
    }
}

/// The violations are those that the lines report: each of them, no others, and in
/// the order of the output.
pub proof fn law_lint_violations_exact(ls: Seq<LintLine<Seq<char>, FoundText>>)
    ensures
        lint_summary(ls).violations == ls.filter_map(
            |l: LintLine<Seq<char>, FoundText>| reported_violation(l),
        ),
    decreases ls.len(),
{
    if ls.len() > 0 {
        law_lint_violations_exact(ls.drop_last());
    }
    assert(lint_summary(ls).violations =~= ls.filter_map(
        |l: LintLine<Seq<char>, FoundText>| reported_violation(l),
    ));
}

proof fn lemma_rank_slot(rules: Seq<RuleStatsView>, rule: RuleStatsView, from: int)
    requires
        0 <= from <= rules.len(),
    ensures
        from <= rank_slot(rules, rule, from) <= rules.len(),
        forall|i: int|
            from <= i < rank_slot(rules, rule, from) ==> !outranks(rule, #[trigger] rules[i]),
        rank_slot(rules, rule, from) < rules.len() ==> outranks(
            rule,
            rules[rank_slot(rules, rule, from)],
        ),
    decreases rules.len() - from,
{
    if from < rules.len() && !outranks(rule, rules[from]) {
        lemma_rank_slot(rules, rule, from + 1);
    }
}

/// Ranking puts no rule behind one that it outranks, and keeps every rule as
/// often as it came.
pub proof fn law_rules_ranked(rules: Seq<RuleStatsView>)
    ensures
        forall|i: int, j: int|
            0 <= i < j < ranked(rules).len() ==> !outranks(
                #[trigger] ranked(rules)[j],
                #[trigger] ranked(rules)[i],
            ),
        ranked(rules).to_multiset() == rules.to_multiset(),
        ranked(rules).len() == rules.len(),
    decreases rules.len(),
{
    if rules.len() > 0 {
        let before = ranked(rules.drop_last());
        let rule = rules.last();
        law_rules_ranked(rules.drop_last());
        lemma_rank_slot(before, rule, 0);
        let at = rank_slot(before, rule, 0);
        let r = ranked(rules);
        assert(r == before.insert(at, rule));
        assert forall|i: int, j: int| 0 <= i < j < r.len() implies !outranks(
            #[trigger] r[j],
            #[trigger] r[i],
        ) by {
            if i < at {
                assert(r[i] == before[i]);
            } else if i > at {
                assert(r[i] == before[i - 1]);
            }
            if j < at {
                assert(r[j] == before[j]);
            } else if j > at {
                assert(r[j] == before[j - 1]);
                assert(!outranks(before[j - 1], before[at]) || j - 1 == at);
            }
        }
        vstd::seq_lib::to_multiset_insert(before, at, rule);
        vstd::seq_lib::to_multiset_build(rules.drop_last(), rule);
        assert(rules.drop_last().push(rule) =~= rules);
    } else {
        assert(ranked(rules) =~= rules);
    }
}

/// A rule of the table is one of the ranked rules, and the other way round.
proof fn lemma_ranked_members(rules: Seq<RuleStatsView>, rule: RuleStatsView)
    ensures
        ranked(rules).contains(rule) == rules.contains(rule),
{
    law_rules_ranked(rules);
    vstd::seq_lib::to_multiset_contains(rules, rule);
    vstd::seq_lib::to_multiset_contains(ranked(rules), rule);
}

/// The figures of a rule are those of its violations, exactly: a rule is listed
/// if and only if it has a violation, its figures count all of its violations and
/// no others, and no rule is listed twice.
pub proof fn law_lint_rules_exact(violations: Seq<(Seq<char>, (bool, Seq<char>))>)
    ensures
        ({
            let rules = ranked(rule_table(violations));
            &&& forall|stats: RuleStatsView| #[trigger]
                rules.contains(stats) <==> stats == rule_stats(
                    stats.rule,
                    values_under(violations, stats.rule),
                ) && values_under(violations, stats.rule).len() > 0
            &&& rules.no_duplicates()
        }),
{
    let g = grouped(violations);
    let table = rule_table(violations);
    let rules = ranked(table);
    law_grouped(violations);
    assert forall|stats: RuleStatsView| #[trigger] rules.contains(stats) <==> stats == rule_stats(
        stats.rule,
        values_under(violations, stats.rule),
    ) && values_under(violations, stats.rule).len() > 0 by {
        lemma_ranked_members(table, stats);
        let hits = values_under(violations, stats.rule);
        if table.contains(stats) {
            let i = choose|i: int| 0 <= i < table.len() && table[i] == stats;
            assert(g.contains(g[i]));
            assert(g[i] == (g[i].0, g[i].1));
        }
        if stats == rule_stats(stats.rule, hits) && hits.len() > 0 {
            assert(g.contains((stats.rule, hits)));
            let i = choose|i: int| 0 <= i < g.len() && g[i] == (stats.rule, hits);
            assert(table[i] == stats);
        }
    }
    law_rules_ranked(table);
    assert(table.no_duplicates()) by {
        assert forall|i: int, j: int| 0 <= i < j < table.len() implies table[i] != table[j] by {
            assert(text_less(g[i].0, g[j].0));
            lemma_text_less_irreflexive(g[i].0);
        }
    }
    table.lemma_multiset_has_no_duplicates();
    assert(rules.to_multiset().len() == rules.len()) by {
        vstd::seq_lib::to_multiset_len(rules);
    }
    rules.lemma_multiset_has_no_duplicates_conv();
}

/// The violations of all rules together.
pub open spec fn total_sum(rules: Seq<RuleStatsView>) -> nat
    decreases rules.len(),
{
    if rules.len() == 0 {
        0
    } else {
        total_sum(rules.drop_last()) + rules.last().total
    }
}

/// The errors of all rules together.
pub open spec fn error_sum(rules: Seq<RuleStatsView>) -> nat
    decreases rules.len(),
{
    if rules.len() == 0 {
        0
    } else {
        error_sum(rules.drop_last()) + rules.last().errors
    }
}

proof fn lemma_sums_after_insert(rules: Seq<RuleStatsView>, at: int, rule: RuleStatsView)
    requires
        0 <= at <= rules.len(),
    ensures
        total_sum(rules.insert(at, rule)) == total_sum(rules) + rule.total,
        error_sum(rules.insert(at, rule)) == error_sum(rules) + rule.errors,
    decreases rules.len(),
{
    let more = rules.insert(at, rule);
    if at == rules.len() {
        assert(more.drop_last() =~= rules);
    } else {
        lemma_sums_after_insert(rules.drop_last(), at, rule);
        assert(more.drop_last() =~= rules.drop_last().insert(at, rule));
        assert(more.last() == rules.last());
    }
}

proof fn lemma_sums_ranked(rules: Seq<RuleStatsView>)
    ensures
        total_sum(ranked(rules)) == total_sum(rules),
        error_sum(ranked(rules)) == error_sum(rules),
    decreases rules.len(),
{
    if rules.len() > 0 {
        let before = ranked(rules.drop_last());
        lemma_sums_ranked(rules.drop_last());
        lemma_rank_slot(before, rules.last(), 0);
        lemma_sums_after_insert(before, rank_slot(before, rules.last(), 0), rules.last());
    }
}

proof fn lemma_sums_of_groups(g: Seq<(Seq<char>, Seq<(bool, Seq<char>)>)>)
    ensures
        ({
            let table = g.map_values(
                |entry: (Seq<char>, Seq<(bool, Seq<char>)>)| rule_stats(entry.0, entry.1),
            );
            &&& total_sum(table) == group_total(g)
            &&& error_sum(table) == group_counted(g, |hit: (bool, Seq<char>)| hit.0)
        }),
    decreases g.len(),
{
    let table = g.map_values(
        |entry: (Seq<char>, Seq<(bool, Seq<char>)>)| rule_stats(entry.0, entry.1),
    );
    if g.len() > 0 {
        lemma_sums_of_groups(g.drop_last());
        assert(g.drop_last().map_values(
            |entry: (Seq<char>, Seq<(bool, Seq<char>)>)| rule_stats(entry.0, entry.1),
        ) =~= table.drop_last());
    }
}

/// The figures of the rules add up to the totals of the report.
pub proof fn law_lint_totals(violations: Seq<(Seq<char>, (bool, Seq<char>))>)
    ensures
        total_sum(ranked(rule_table(violations))) == violations.len(),
        error_sum(ranked(rule_table(violations))) == error_count(hits_of(violations)),
{
    lemma_sums_ranked(rule_table(violations));
    lemma_sums_of_groups(grouped(violations));
    law_group_total(violations);
    law_group_counted(violations, |hit: (bool, Seq<char>)| hit.0);
    assert(hits_of(violations) =~= violations.map_values(
        |pair: (Seq<char>, (bool, Seq<char>))| pair.1,
    ));
}

proof fn lemma_entry_trimmed(s: RuleStatsView)
    ensures
        rule_entry(s).len() > 0,
        is_trimmed(rule_entry(s)),
{
    reveal_strlit("[E] ");
    reveal_strlit("[W] ");
    reveal_strlit(" files)");
    assert(rule_entry(s).last() == ')');
    assert(rule_entry(s)[0] == '[');
}

/// The report on violations lists the first twenty of the ranked rules, in their
/// order, and counts the rest; the line of totals is there.
pub proof fn law_lint_rules_kept(s: LintSummaryView)
    requires
        s.violations.len() > 0,
    ensures
        ({
            let entries = rule_entries(ranked(rule_table(s.violations)));
            let errors = error_count(hits_of(s.violations));
            let r = lint_report(s);
            &&& forall|k: int|
                0 <= k < shown(entries.len(), 20) ==> occurs(#[trigger] entries[k], r)
            &&& forall|j: int, k: int|
                0 <= j < k < shown(entries.len(), 20) ==> in_order(
                    #[trigger] entries[j],
                    #[trigger] entries[k],
                    r,
                )
            &&& entries.len() > 20 ==> occurs(
                "... +"@ + decimal((entries.len() - 20) as nat) + " more rules"@,
                r,
            )
            &&& occurs(
                decimal(s.violations.len()) + " violations ("@ + decimal(errors) + " errors, "@
                    + decimal((s.violations.len() - errors) as nat) + " warnings)"@,
                r,
            )
        }),
{
    let entries = rule_entries(ranked(rule_table(s.violations)));
    let errors = error_count(hits_of(s.violations));
    assert(all_trimmed(entries)) by {
        assert forall|k: int| 0 <= k < entries.len() implies (#[trigger] entries[k]).len() > 0
            && is_trimmed(entries[k]) by {
            lemma_entry_trimmed(ranked(rule_table(s.violations))[k]);
        }
    }
    assert(" more rules\n"@ =~= " more rules"@ + "\n"@ && " more rules"@.len() > 0 && !is_space(
        " more rules"@.last(),
    )) by {
        reveal_strlit(" more rules\n");
        reveal_strlit(" more rules");
        reveal_strlit("\n");
    }
    let pre = "swiftlint\n"@ + totals_line(s.violations);
    let list = capped(entries, "  "@, 20, " more rules\n"@);
    lemma_capped_survives(pre, entries, "  "@, 20, " more rules"@, closing(s.summary));
    let needle = decimal(s.violations.len()) + " violations ("@ + decimal(errors) + " errors, "@
        + decimal((s.violations.len() - errors) as nat) + " warnings)"@;
    assert(totals_line(s.violations) =~= needle + "\n\n"@) by {
        reveal_strlit(" warnings)\n\n");
        reveal_strlit(" warnings)");
        reveal_strlit("\n\n");
    }
    lemma_occurs_in_itself(needle);
    lemma_occurs_in_middle(
        needle,
        "swiftlint\n"@,
        needle,
        "\n\n"@ + list + closing(s.summary),
    );
    assert("swiftlint\n"@ + needle + ("\n\n"@ + list + closing(s.summary)) =~= lint_body(s));
    assert(lint_body(s)[0] == 's' && needle.len() > 0 && needle.last() == ')') by {
        reveal_strlit("swiftlint\n");
        reveal_strlit(" warnings)");
        assert(lint_body(s)[0] == "swiftlint\n"@[0]);
    }
    lemma_occurs_in_begun(needle, lint_body(s));
}

proof fn lemma_summary_is_line(ls: Seq<LintLine<Seq<char>, FoundText>>)
    requires
        forall|i: int| 0 <= i < ls.len() ==> is_trimmed((#[trigger] ls[i]).text),
    ensures
        is_trimmed(lint_summary(ls).summary),
        lint_summary(ls).summary.len() > 0 ==> has_lint_marker(ls),
        lint_summary(ls).violations.len() > 0 ==> has_lint_marker(ls),
    decreases ls.len(),
{
    if ls.len() > 0 {
        lemma_summary_is_line(ls.drop_last());
        assert(is_trimmed(ls[ls.len() - 1].text));
        if has_lint_marker(ls.drop_last()) {
            let i = choose|i: int|
                0 <= i < ls.drop_last().len() && is_lint_marker(#[trigger] ls.drop_last()[i]);
            assert(is_lint_marker(ls[i]));
        }
        if is_lint_marker(ls.last()) {
            assert(is_lint_marker(ls[ls.len() - 1]));
        }
    }
}

proof fn lemma_summary_of_clean_run(s: LintSummaryView)
    requires
        is_trimmed(s.summary),
        s.summary.len() > 0,
        s.violations.len() == 0,
        s.corrected.len() == 0,
    ensures
        occurs(s.summary, lint_report(s)),
{
    lemma_occurs_in_itself(s.summary);
    lemma_occurs_in_parts(s.summary, s.summary, "\n"@);
    lemma_occurs_in_parts(s.summary, "swiftlint\n"@, s.summary + "\n"@);
    lemma_occurs_after_trim(s.summary, lint_body(s));
}

proof fn lemma_summary_of_violations(s: LintSummaryView)
    requires
        is_trimmed(s.summary),
        s.violations.len() > 0,
    ensures
        occurs(s.summary, lint_report(s)),
{
    let pre = "swiftlint\n"@ + totals_line(s.violations) + capped(
        rule_entries(ranked(rule_table(s.violations))),
        "  "@,
        RULE_LIMIT as nat,
        " more rules\n"@,
    );
    assert(lint_body(s) == pre + closing(s.summary));
    lemma_closing_at_end(pre, s.summary);
}

/// SwiftLint's own summary line, the last one if there are several, is kept; a
/// line on corrections takes its place where there are no violations.
pub proof fn law_lint_summary_kept(output: Seq<char>)
    requires
        ({
            let s = lint_summary(lint_lines(without_ansi(output)));
            s.violations.len() > 0 || s.corrected.len() == 0
        }),
    ensures
        ({
            let s = lint_summary(lint_lines(without_ansi(output)));
            s.summary.len() > 0 ==> occurs(s.summary, swiftlint_filtered(output))
        }),
{
    let clean = without_ansi(output);
    let ls = lint_lines(clean);
    assert forall|i: int| 0 <= i < ls.len() implies is_trimmed((#[trigger] ls[i]).text) by {
        law_trimmed_is_trimmed(lines_of(clean)[i]);
    }
    lemma_summary_is_line(ls);
    let s = lint_summary(ls);
    if s.violations.len() > 0 {
        lemma_summary_of_violations(s);
    } else if s.summary.len() > 0 {
        lemma_summary_of_clean_run(s);
    }
}

/// Output with a violation is reported on: it does not pass through.
pub proof fn law_lint_violations_reported(output: Seq<char>)
    requires
        lint_summary(lint_lines(without_ansi(output))).violations.len() > 0,
    ensures
        swiftlint_filtered(output) == lint_report(
            lint_summary(lint_lines(without_ansi(output))),
        ),
{
    let clean = without_ansi(output);
    let ls = lint_lines(clean);
    assert forall|i: int| 0 <= i < ls.len() implies is_trimmed((#[trigger] ls[i]).text) by {
        law_trimmed_is_trimmed(lines_of(clean)[i]);
    }
    lemma_summary_is_line(ls);
}

proof fn lemma_hits_rearranged(
    a: Seq<(Seq<char>, (bool, Seq<char>))>,
    b: Seq<(Seq<char>, (bool, Seq<char>))>,
    rule: Seq<char>,
)
    requires
        rearranged(a, b),
    ensures
        rearranged(values_under(a, rule), values_under(b, rule)),
{
    lemma_values_are_picked(a, rule);
    lemma_values_are_picked(b, rule);
    lemma_picked_rearranged(
        a,
        b,
        |pair: (Seq<char>, (bool, Seq<char>))|
            if pair.0 == rule {
                Some(pair.1)
            } else {
                None
            },
    );
}

proof fn lemma_stats_rearranged(
    rule: Seq<char>,
    a: Seq<(bool, Seq<char>)>,
    b: Seq<(bool, Seq<char>)>,
)
    requires
        rearranged(a, b),
    ensures
        rule_stats(rule, a) == rule_stats(rule, b),
{
    lemma_counted_rearranged(a, b, |hit: (bool, Seq<char>)| hit.0);
    lemma_rearranged_items(a, b);
    lemma_mapped_rearranged(a, b, |hit: (bool, Seq<char>)| hit.1);
    lemma_rearranged_items(files_of(a), files_of(b));
    assert(files_of(a).to_set() =~= files_of(b).to_set());
}

/// Whether the rules stand in the order of their names, none twice.
spec fn by_name(rules: Seq<RuleStatsView>) -> bool {
    forall|i: int, j: int|
        0 <= i < j < rules.len() ==> text_less(#[trigger] rules[i].rule, #[trigger] rules[j].rule)
}

/// Two tables by name with the same rules are the same.
proof fn lemma_tables_equal(a: Seq<RuleStatsView>, b: Seq<RuleStatsView>)
    requires
        by_name(a),
        by_name(b),
        forall|x: RuleStatsView| #[trigger] a.contains(x) == b.contains(x),
    ensures
        a == b,
    decreases a.len(),
{
    if a.len() == 0 {
        if b.len() > 0 {
            assert(b.contains(b[0]));
            assert(a.contains(b[0]));
        }
        assert(a =~= b);
    } else {
        let x = a.last();
        assert(a.contains(x));
        assert(b.contains(x));
        let j = choose|j: int| 0 <= j < b.len() && b[j] == x;
        let y = b.last();
        assert(b.contains(y));
        assert(a.contains(y));
        let i = choose|i: int| 0 <= i < a.len() && a[i] == y;
        if j < b.len() - 1 {
            assert(text_less(b[j].rule, b[b.len() - 1].rule));
            if i < a.len() - 1 {
                assert(text_less(a[i].rule, a[a.len() - 1].rule));
                lemma_text_less_transitive(x.rule, y.rule, x.rule);
            }
            lemma_text_less_irreflexive(x.rule);
        }
        assert(x == y);
        let a0 = a.drop_last();
        let b0 = b.drop_last();
        assert forall|z: RuleStatsView| #[trigger] a0.contains(z) == b0.contains(z) by {
            lemma_without_last(a, z);
            lemma_without_last(b, z);
            assert(a.contains(z) == b.contains(z));
        }
        lemma_tables_equal(a0, b0);
        assert(a =~= a0.push(x));
        assert(b =~= b0.push(x));
    }
}

proof fn lemma_without_last(a: Seq<RuleStatsView>, z: RuleStatsView)
    requires
        by_name(a),
        a.len() > 0,
    ensures
        a.drop_last().contains(z) == (a.contains(z) && z != a.last()),
{
    let a0 = a.drop_last();
    if a0.contains(z) {
        let k = choose|k: int| 0 <= k < a0.len() && a0[k] == z;
        assert(a[k] == z);
        assert(text_less(a[k].rule, a[a.len() - 1].rule));
        lemma_text_less_irreflexive(z.rule);
    }
    if a.contains(z) && z != a.last() {
        let k = choose|k: int| 0 <= k < a.len() && a[k] == z;
        assert(a0[k] == z);
    }
}

proof fn lemma_table_by_name(violations: Seq<(Seq<char>, (bool, Seq<char>))>)
    ensures
        by_name(rule_table(violations)),
{
    let g = grouped(violations);
    let table = rule_table(violations);
    law_grouped(violations);
    assert forall|i: int, j: int| 0 <= i < j < table.len() implies text_less(
        #[trigger] table[i].rule,
        #[trigger] table[j].rule,
    ) by {
        assert(text_less(g[i].0, g[j].0));
    }
}

/// The figures do not depend on the order of the violations: another order gives the
/// same totals and the same rules with the same figures.
pub proof fn law_lint_figures_unordered(
    a: Seq<(Seq<char>, (bool, Seq<char>))>,
    b: Seq<(Seq<char>, (bool, Seq<char>))>,
)
    requires
        rearranged(a, b),
    ensures
        totals_line(a) == totals_line(b),
        rule_table(a) == rule_table(b),
{
    lemma_rearranged_items(a, b);
    lemma_mapped_rearranged(a, b, |v: (Seq<char>, (bool, Seq<char>))| v.1);
    lemma_counted_rearranged(hits_of(a), hits_of(b), |hit: (bool, Seq<char>)| hit.0);
    law_lint_rules_exact(a);
    law_lint_rules_exact(b);
    lemma_table_by_name(a);
    lemma_table_by_name(b);
    assert forall|x: RuleStatsView| #[trigger] rule_table(a).contains(x) == rule_table(
        b,
    ).contains(x) by {
        lemma_ranked_members(rule_table(a), x);
        lemma_ranked_members(rule_table(b), x);
        lemma_hits_rearranged(a, b, x.rule);
        let ha = values_under(a, x.rule);
        let hb = values_under(b, x.rule);
        lemma_rearranged_items(ha, hb);
        lemma_stats_rearranged(x.rule, ha, hb);
        assert(ranked(rule_table(a)).contains(x) == ranked(rule_table(b)).contains(x));
    }
    lemma_tables_equal(rule_table(a), rule_table(b));
}

/// The lines of the output may come in any order: the line of totals and the rows of
/// the rules stay the same. Only the summary line that closes the report can differ,
/// where the output has several.
pub proof fn law_lint_lines_unordered(output: Seq<char>, other: Seq<char>)
    requires
        rearranged(lines_of(without_ansi(output)), lines_of(without_ansi(other))),
        lint_summary(lint_lines(without_ansi(output))).violations.len() > 0,
    ensures
        ({
            let s = lint_summary(lint_lines(without_ansi(output)));
            let t = lint_summary(lint_lines(without_ansi(other)));
            let rows = capped(
                rule_entries(ranked(rule_table(s.violations))),
                "  "@,
                RULE_LIMIT as nat,
                " more rules\n"@,
            );
            let head = "swiftlint\n"@ + totals_line(s.violations) + rows;
            &&& rearranged(s.violations, t.violations)
            &&& rule_table(s.violations) == rule_table(t.violations)
            &&& swiftlint_filtered(output) == trimmed(head + closing(s.summary))
            &&& swiftlint_filtered(other) == trimmed(head + closing(t.summary))
        }),
{
    let ls = lint_lines(without_ansi(output));
    let ms = lint_lines(without_ansi(other));
    let pick = |l: LintLine<Seq<char>, FoundText>| reported_violation(l);
    lemma_mapped_rearranged(
        lines_of(without_ansi(output)),
        lines_of(without_ansi(other)),
        |line: Seq<char>| lint_line(line),
    );
    lemma_picked_rearranged(ls, ms, pick);
    law_lint_violations_exact(ls);
    law_lint_violations_exact(ms);
    let a = lint_summary(ls).violations;
    let b = lint_summary(ms).violations;
    assert(a == ls.filter_map(pick));
    assert(b == ms.filter_map(pick));
    law_lint_figures_unordered(a, b);
    lemma_rearranged_items(a, b);
    law_lint_violations_reported(output);
    law_lint_violations_reported(other);
}

} // verus!
