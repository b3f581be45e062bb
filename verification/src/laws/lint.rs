//! `swiftlint`: which line of the output becomes what in the report, and how the
//! rules are counted and ranked.

use crate::ansi::without_ansi;
use crate::cmds::apple::swiftlint_cmd::{
    error_count, has_lint_marker, hits_of, is_lint_marker, law_lint_rules_exact,
    law_lint_violations_exact, law_rules_ranked, lint_line, lint_lines, lint_report, lint_summary,
    outranks, rank_slot, ranked, reported_violation, rule_entries, rule_table, shortened,
    swiftlint_filtered, LintLine, LintSummaryView, RuleStatsView,
};
use crate::groups::{grouped, law_grouped, lemma_values_are_picked, text_less, values_under};
use crate::laws::layouts::law_values_grouped;
use crate::laws::picks::{last_before, law_counted, lemma_last_before_prefix, lemma_pick_mapped};
use crate::laws::texts::law_pieces;
use crate::pattern::{
    group_text, regex_captures, regex_matches, FoundText, LINT_CORRECTED, LINT_SUMMARY,
    LINT_VIOLATION,
};
use crate::permutation::lemma_rearranged_items;
use crate::report::capped;
use crate::text::{decimal, joined, lines_of, pieces_of, trimmed};
use vstd::prelude::*;

verus! {

/// The violations of the summary are the lines that match the pattern of violations,
/// each with its rule, whether it is an error, and its file: all of them, in the
/// order of the output.
pub proof fn law_lint_violations_are_lines(output: Seq<char>)
    ensures
        lint_summary(lint_lines(without_ansi(output))).violations == lines_of(
            without_ansi(output),
        ).filter_map(
            |line: Seq<char>|
                if trimmed(line).len() > 0 && regex_matches(LINT_VIOLATION@, trimmed(line)) {
                    Some(
                        (
                            group_text(regex_captures(LINT_VIOLATION@, trimmed(line)), 5),
                            (
                                group_text(regex_captures(LINT_VIOLATION@, trimmed(line)), 3)
                                    == "error"@,
                                shortened(
                                    group_text(regex_captures(LINT_VIOLATION@, trimmed(line)), 1),
                                ),
                            ),
                        ),
                    )
                } else {
                    None
                },
        ),
{
    let h = |line: Seq<char>|
        if trimmed(line).len() > 0 && regex_matches(LINT_VIOLATION@, trimmed(line)) {
            Some(
                (
                    group_text(regex_captures(LINT_VIOLATION@, trimmed(line)), 5),
                    (
                        group_text(regex_captures(LINT_VIOLATION@, trimmed(line)), 3) == "error"@,
                        shortened(group_text(regex_captures(LINT_VIOLATION@, trimmed(line)), 1)),
                    ),
                ),
            )
        } else {
            None
        };
    law_lint_violations_exact(lint_lines(without_ansi(output)));
    lemma_pick_mapped(
        lines_of(without_ansi(output)),
        |line: Seq<char>| lint_line(line),
        |l: LintLine<Seq<char>, FoundText>| reported_violation(l),
        h,
    );
}

/// A path is shortened to its last two parts. One with no more than two parts stays
/// as it is.
pub proof fn law_lint_path_shortened(front: Seq<char>, dir: Seq<char>, name: Seq<char>)
    requires
        !dir.contains('/'),
        !name.contains('/'),
    ensures
        shortened(front + seq!['/'] + dir + seq!['/'] + name) == dir + seq!['/'] + name,
        shortened(dir + seq!['/'] + name) == dir + seq!['/'] + name,
        shortened(name) == name,
{
    let short = dir + seq!['/'] + name;
    let long = front + seq!['/'] + dir + seq!['/'] + name;
    law_pieces(name, '/', seq![]);
    law_pieces(dir, '/', name);
    assert(seq![dir] + pieces_of(name, '/') =~= seq![dir, name]);
    lemma_pieces_behind(front, short, '/');
    assert(long =~= front + seq!['/'] + short);
    let parts = pieces_of(long, '/');
    assert(parts.skip(parts.len() - 2) =~= seq![dir, name]);
    lemma_pieces_some(front, '/');
    lemma_two_joined(dir, name, "/"@);
    assert("/"@ =~= seq!['/']) by {
        reveal_strlit("/");
    }
}

proof fn lemma_two_joined(a: Seq<char>, b: Seq<char>, sep: Seq<char>)
    ensures
        joined(seq![a, b], sep) == a + sep + b,
{
    let both = seq![a, b];
    assert(both.drop_last() =~= seq![a]);
    assert(joined(both.drop_last(), sep) == a);
}

proof fn lemma_pieces_some(s: Seq<char>, c: char)
    ensures
        pieces_of(s, c).len() > 0,
{
}

proof fn lemma_pieces_behind(a: Seq<char>, b: Seq<char>, c: char)
    ensures
        pieces_of(a + seq![c] + b, c) == pieces_of(a, c) + pieces_of(b, c),
    decreases a.len(),
{
    let s = a + seq![c] + b;
    if a.contains(c) {
        let k = a.index_of_first(c);
        a.index_of_first_ensures(c);
        let i = k->0;
        let head = a.take(i);
        let rest = a.skip(i + 1);
        assert(!head.contains(c)) by {
            assert forall|j: int| 0 <= j < head.len() implies head[j] != c by {
                assert(head[j] == a[j]);
            }
        }
        assert(a =~= head + seq![c] + rest);
        law_pieces(head, c, rest);
        law_pieces(head, c, rest + seq![c] + b);
        assert(s =~= head + seq![c] + (rest + seq![c] + b));
        lemma_pieces_behind(rest, b, c);
        assert(pieces_of(s, c) =~= pieces_of(a, c) + pieces_of(b, c));
    } else {
        law_pieces(a, c, b);
    }
}

/// The closing line of the summary is the last line that sums the run up, and the
/// line of corrections the last that tells of them; empty where no line does.
pub proof fn law_lint_closing_lines(output: Seq<char>)
    ensures
        lint_summary(lint_lines(without_ansi(output))).summary == (match last_before(
            lines_of(without_ansi(output)),
            lines_of(without_ansi(output)).len() as int,
            |line: Seq<char>|
                trimmed(line).len() > 0 && !regex_matches(LINT_VIOLATION@, trimmed(line))
                    && regex_matches(LINT_SUMMARY@, trimmed(line)),
        ) {
            Some(line) => trimmed(line),
            None => seq![],
        }),
        lint_summary(lint_lines(without_ansi(output))).corrected == (match last_before(
            lines_of(without_ansi(output)),
            lines_of(without_ansi(output)).len() as int,
            |line: Seq<char>|
                trimmed(line).len() > 0 && !regex_matches(LINT_VIOLATION@, trimmed(line))
                    && !regex_matches(LINT_SUMMARY@, trimmed(line)) && regex_matches(
                    LINT_CORRECTED@,
                    trimmed(line),
                ),
        ) {
            Some(line) => trimmed(line),
            None => seq![],
        }),
{
    lemma_closing_lines(lines_of(without_ansi(output)));
}

proof fn lemma_closing_lines(lines: Seq<Seq<char>>)
    ensures
        ({
            let s = lint_summary(lines.map_values(|line: Seq<char>| lint_line(line)));
            &&& s.summary == (match last_before(
                lines,
                lines.len() as int,
                |line: Seq<char>|
                    trimmed(line).len() > 0 && !regex_matches(LINT_VIOLATION@, trimmed(line))
                        && regex_matches(LINT_SUMMARY@, trimmed(line)),
            ) {
                Some(line) => trimmed(line),
                None => seq![],
            })
            &&& s.corrected == (match last_before(
                lines,
                lines.len() as int,
                |line: Seq<char>|
                    trimmed(line).len() > 0 && !regex_matches(LINT_VIOLATION@, trimmed(line))
                        && !regex_matches(LINT_SUMMARY@, trimmed(line)) && regex_matches(
                        LINT_CORRECTED@,
                        trimmed(line),
                    ),
            ) {
                Some(line) => trimmed(line),
                None => seq![],
            })
        }),
    decreases lines.len(),
{
    let read = |line: Seq<char>| lint_line(line);
    let sums = |line: Seq<char>|
        trimmed(line).len() > 0 && !regex_matches(LINT_VIOLATION@, trimmed(line)) && regex_matches(
            LINT_SUMMARY@,
            trimmed(line),
        );
    let corrects = |line: Seq<char>|
        trimmed(line).len() > 0 && !regex_matches(LINT_VIOLATION@, trimmed(line))
            && !regex_matches(LINT_SUMMARY@, trimmed(line)) && regex_matches(
            LINT_CORRECTED@,
            trimmed(line),
        );
    if lines.len() > 0 {
        let n = lines.len() - 1;
        lemma_closing_lines(lines.drop_last());
        assert(lines.map_values(read).drop_last() =~= lines.drop_last().map_values(read));
        assert(lines.drop_last() =~= lines.take(n));
        lemma_last_before_prefix(lines, n, n, sums);
        lemma_last_before_prefix(lines, n, n, corrects);
    }
}

/// The figures of each rule in the list are those of its violations: how many there
/// are, how many of them are errors, and in how many files they are.
pub proof fn law_lint_figures(violations: Seq<(Seq<char>, (bool, Seq<char>))>, i: int)
    requires
        0 <= i < ranked(rule_table(violations)).len(),
    ensures
        ({
            let stats = ranked(rule_table(violations))[i];
            let hits = violations.filter_map(
                |v: (Seq<char>, (bool, Seq<char>))|
                    if v.0 == stats.rule {
                        Some(v.1)
                    } else {
                        None
                    },
            );
            &&& hits.len() > 0
            &&& stats.total == hits.len()
            &&& stats.errors == hits.filter(|hit: (bool, Seq<char>)| hit.0).len()
            &&& stats.files == hits.map_values(
                |hit: (bool, Seq<char>)| hit.1,
            ).to_set().len()
        }),
{
    let stats = ranked(rule_table(violations))[i];
    law_lint_rules_exact(violations);
    assert(ranked(rule_table(violations)).contains(stats));
    lemma_values_are_picked(violations, stats.rule);
    law_counted(
        values_under(violations, stats.rule),
        |hit: (bool, Seq<char>)| hit.0,
    );
}

/// Every rule that is violated is in the list, and no rule is in it twice.
pub proof fn law_lint_rules_listed(violations: Seq<(Seq<char>, (bool, Seq<char>))>, k: int)
    requires
        0 <= k < violations.len(),
    ensures
        exists|i: int|
            0 <= i < ranked(rule_table(violations)).len() && (#[trigger] ranked(
                rule_table(violations),
            )[i]).rule == violations[k].0,
        forall|i: int, j: int|
            0 <= i < j < ranked(rule_table(violations)).len() ==> (#[trigger] ranked(
                rule_table(violations),
            )[i]).rule != (#[trigger] ranked(rule_table(violations))[j]).rule,
{
    let table = rule_table(violations);
    law_values_grouped(violations, k);
    let g = grouped(violations);
    let at = choose|i: int| 0 <= i < g.len() && (#[trigger] g[i]).0 == violations[k].0;
    assert(table[at].rule == violations[k].0);
    law_rules_ranked(table);
    lemma_rearranged_items(ranked(table), table);
    assert(table.contains(table[at]));
    assert(ranked(table).contains(table[at]));
    assert forall|i: int, j: int| 0 <= i < j < ranked(table).len() implies (#[trigger] ranked(
        table,
    )[i]).rule != (#[trigger] ranked(table)[j]).rule by {
        law_lint_rules_exact(violations);
        assert(ranked(table).contains(ranked(table)[i]));
        assert(ranked(table).contains(ranked(table)[j]));
    }
}

/// The rules are listed by their figures: those with more errors first, among them
/// those with more violations, and among those the name decides.
pub proof fn law_lint_rules_ranked(violations: Seq<(Seq<char>, (bool, Seq<char>))>)
    ensures
        forall|i: int, j: int|
            0 <= i < j < ranked(rule_table(violations)).len() ==> {
                let a = #[trigger] ranked(rule_table(violations))[i];
                let b = #[trigger] ranked(rule_table(violations))[j];
                &&& a.errors >= b.errors
                &&& a.errors == b.errors ==> a.total >= b.total
                &&& a.errors == b.errors && a.total == b.total ==> text_less(a.rule, b.rule)
            },
{
    let table = rule_table(violations);
    law_grouped(violations);
    assert forall|i: int, j: int| 0 <= i < j < table.len() implies text_less(
        #[trigger] table[i].rule,
        #[trigger] table[j].rule,
    ) by {
        assert(text_less(grouped(violations)[i].0, grouped(violations)[j].0));
    }
    lemma_ranked_by_figures(table);
}

/// Whatever the rules are, ranking puts those with more errors first, and among
/// those with as many errors the ones with more violations.
pub proof fn law_ranked_by_figures(rules: Seq<RuleStatsView>)
    ensures
        forall|i: int, j: int|
            0 <= i < j < ranked(rules).len() ==> {
                let a = #[trigger] ranked(rules)[i];
                let b = #[trigger] ranked(rules)[j];
                &&& a.errors >= b.errors
                &&& a.errors == b.errors ==> a.total >= b.total
            },
        ranked(rules).to_multiset() == rules.to_multiset(),
{
    law_rules_ranked(rules);
}

proof fn lemma_slot(rules: Seq<RuleStatsView>, rule: RuleStatsView, from: int)
    requires
        0 <= from <= rules.len(),
    ensures
        from <= rank_slot(rules, rule, from) <= rules.len(),
        forall|i: int|
            from <= i < rank_slot(rules, rule, from) ==> !outranks(rule, #[trigger] rules[i]),
        rank_slot(rules, rule, from) < rules.len() ==> outranks(
            rule,
            rules[rank_slot(rules, rule, from)],
        ),
    decreases rules.len() - from,
{
    if from < rules.len() && !outranks(rule, rules[from]) {
        lemma_slot(rules, rule, from + 1);
    }
}

proof fn lemma_ranked_by_figures(rules: Seq<RuleStatsView>)
    requires
        forall|i: int, j: int|
            0 <= i < j < rules.len() ==> text_less(
                #[trigger] rules[i].rule,
                #[trigger] rules[j].rule,
            ),
    ensures
        forall|i: int, j: int|
            0 <= i < j < ranked(rules).len() ==> {
                let a = #[trigger] ranked(rules)[i];
                let b = #[trigger] ranked(rules)[j];
                &&& a.errors >= b.errors
                &&& a.errors == b.errors ==> a.total >= b.total
                &&& a.errors == b.errors && a.total == b.total ==> text_less(a.rule, b.rule)
            },
    decreases rules.len(),
{
    if rules.len() > 0 {
        let init = rules.drop_last();
        let rule = rules.last();
        let before = ranked(init);
        lemma_ranked_by_figures(init);
        law_rules_ranked(init);
        lemma_rearranged_items(before, init);
        lemma_slot(before, rule, 0);
        let at = rank_slot(before, rule, 0);
        let r = ranked(rules);
        assert(r == before.insert(at, rule));
        assert forall|k: int| 0 <= k < before.len() implies text_less(
            (#[trigger] before[k]).rule,
            rule.rule,
        ) by {
            assert(before.contains(before[k]));
            assert(init.contains(before[k]));
            let m = choose|m: int| 0 <= m < init.len() && init[m] == before[k];
            assert(rules[m].rule == before[k].rule);
            assert(text_less(rules[m].rule, rules[rules.len() - 1].rule));
        }
        assert forall|i: int, j: int| 0 <= i < j < r.len() implies {
            let a = #[trigger] r[i];
            let b = #[trigger] r[j];
            &&& a.errors >= b.errors
            &&& a.errors == b.errors ==> a.total >= b.total
            &&& a.errors == b.errors && a.total == b.total ==> text_less(a.rule, b.rule)
        } by {
            if i < at {
                assert(r[i] == before[i]);
            } else if i > at {
                assert(r[i] == before[i - 1]);
            }
            if j < at {
                assert(r[j] == before[j]);
            } else if j > at {
                assert(r[j] == before[j - 1]);
                assert(j - 1 == at || before[at].errors >= before[j - 1].errors);
            }
        }
    }
}

/// The report begins with the title. Without violations a line follows that tells
/// of the corrections, sums the run up or says that there are none. With violations
/// come their number, how many are errors and how many warnings, the rules, no more
/// than twenty of them, and the closing line.
pub proof fn law_lint_layout(s: LintSummaryView)
    ensures
        s.violations.len() == 0 ==> lint_report(s) == trimmed(
            "swiftlint\n"@ + (if s.corrected.len() > 0 {
                s.corrected + "\n"@
            } else if s.summary.len() > 0 {
                s.summary + "\n"@
            } else {
                "No violations\n"@
            }),
        ),
        s.violations.len() > 0 ==> ({
            let errors = s.violations.filter(|v: (Seq<char>, (bool, Seq<char>))| v.1.0).len();
            lint_report(s) == trimmed(
                "swiftlint\n"@ + (decimal(s.violations.len()) + " violations ("@ + decimal(errors)
                    + " errors, "@ + decimal((s.violations.len() - errors) as nat)
                    + " warnings)\n\n"@) + capped(
                    ranked(rule_table(s.violations)).map_values(
                        |rule: RuleStatsView|
                            (if rule.errors > 0 {
                                "[E] "@
                            } else {
                                "[W] "@
                            }) + rule.rule + " (x"@ + decimal(rule.total) + ", "@ + decimal(
                                rule.files,
                            ) + " files)"@,
                    ),
                    "  "@,
                    20,
                    " more rules\n"@,
                ) + (if s.summary.len() > 0 {
                    "\n"@ + s.summary + "\n"@
                } else {
                    seq![]
                }),
            )
        }),
{
    lemma_errors_counted(s.violations);
    let rules = ranked(rule_table(s.violations));
    assert(rule_entries(rules) =~= rules.map_values(
        |rule: RuleStatsView|
            (if rule.errors > 0 {
                "[E] "@
            } else {
                "[W] "@
            }) + rule.rule + " (x"@ + decimal(rule.total) + ", "@ + decimal(rule.files)
                + " files)"@,
    ));
}

proof fn lemma_errors_counted(violations: Seq<(Seq<char>, (bool, Seq<char>))>)
    ensures
        error_count(hits_of(violations)) == violations.filter(
            |v: (Seq<char>, (bool, Seq<char>))| v.1.0,
        ).len(),
    decreases violations.len(),
{
    reveal(Seq::filter);
    if violations.len() > 0 {
        lemma_errors_counted(violations.drop_last());
        assert(hits_of(violations).drop_last() =~= hits_of(violations.drop_last()));
    }
}

/// Whether a line is one that only a lint run prints.
pub open spec fn shows_lint(line: Seq<char>) -> bool {
    trimmed(line).len() > 0 && (regex_matches(LINT_VIOLATION@, trimmed(line)) || regex_matches(
        LINT_SUMMARY@,
        trimmed(line),
    ) || regex_matches(LINT_CORRECTED@, trimmed(line)))
}

/// Output with a line that only a lint run prints is reported on, and so is empty
/// output. Other output comes back as it is, without the escape sequences and the
/// whitespace at its ends.
pub proof fn law_lint_reported_or_passed_on(output: Seq<char>)
    ensures
        ({
            let clean = without_ansi(output);
            let lines = lines_of(clean);
            if trimmed(clean).len() == 0 || exists|i: int|
                0 <= i < lines.len() && shows_lint(#[trigger] lines[i]) {
                swiftlint_filtered(output) == lint_report(lint_summary(lint_lines(clean)))
            } else {
                swiftlint_filtered(output) == trimmed(clean)
            }
        }),
{
    let clean = without_ansi(output);
    let lines = lines_of(clean);
    let ls = lint_lines(clean);
    if exists|i: int| 0 <= i < lines.len() && shows_lint(#[trigger] lines[i]) {
        let i = choose|i: int| 0 <= i < lines.len() && shows_lint(#[trigger] lines[i]);
        assert(is_lint_marker(ls[i]));
    } else if has_lint_marker(ls) {
        let i = choose|i: int| 0 <= i < ls.len() && is_lint_marker(#[trigger] ls[i]);
        assert(shows_lint(lines[i]));
    }
}

} // verus!
