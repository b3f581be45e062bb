//! `xcrun xctrace list templates`: which line of the output becomes what in the
//! report.

use crate::ansi::without_ansi;
use crate::cmds::apple::xctrace_cmd::templates::{
    list_templates_filtered, template_line, template_lines, templates_in, templates_report,
    TemplateLine, TemplatesView,
};
use crate::laws::picks::{last_before, lemma_picked_at_next, picked_at};
use crate::pattern::{
    group_text, regex_captures, regex_matches, FoundText, SECTION_HEADER, TEMPLATE_NAME,
};
use crate::report::listed;
use crate::text::{begins_with, decimal, joined, lines_of, occurs, trimmed};
use vstd::prelude::*;

verus! {

/// Whether a line is the header of a section.
pub open spec fn heads(line: Seq<char>) -> bool {
    trimmed(line).len() > 0 && regex_matches(SECTION_HEADER@, trimmed(line))
}

/// Whether a line names a template: it is not empty, no header and not indented, and
/// matches the pattern of names.
pub open spec fn names_template(line: Seq<char>) -> bool {
    trimmed(line).len() > 0 && !heads(line) && !begins_with(line, "    "@) && !begins_with(
        line,
        "\t"@,
    ) && regex_matches(TEMPLATE_NAME@, trimmed(line))
}

/// Whether the nearest header before a line is about recent templates.
pub open spec fn is_recent(lines: Seq<Seq<char>>, i: int) -> bool {
    match last_before(lines, i, |line: Seq<char>| heads(line)) {
        Some(head) => occurs(
            "Recent"@,
            group_text(regex_captures(SECTION_HEADER@, trimmed(head)), 1),
        ),
        None => false,
    }
}

/// A template that is recent, or one that is not.
pub open spec fn template_at(lines: Seq<Seq<char>>, i: int, recent: bool) -> Option<Seq<char>> {
    if names_template(lines[i]) && is_recent(lines, i) == recent {
        Some(trimmed(lines[i]))
    } else {
        None
    }
}

proof fn lemma_templates(lines: Seq<Seq<char>>, n: int)
    requires
        0 <= n <= lines.len(),
    ensures
        ({
            let s = templates_in(lines.map_values(|line: Seq<char>| template_line(line)).take(n));
            &&& s.in_recent == is_recent(lines, n)
            &&& s.standard == picked_at(n as nat, |i: int| template_at(lines, i, false))
            &&& s.recent == picked_at(n as nat, |i: int| template_at(lines, i, true))
        }),
    decreases n,
{
    let ls = lines.map_values(|line: Seq<char>| template_line(line));
    if n > 0 {
        let m = (n - 1) as nat;
        lemma_templates(lines, n - 1);
        assert(ls.take(n).drop_last() =~= ls.take(n - 1));
        assert(ls.take(n).last() == template_line(lines[n - 1]));
        lemma_picked_at_next(m, |i: int| template_at(lines, i, false));
        lemma_picked_at_next(m, |i: int| template_at(lines, i, true));
        let s = templates_in(ls.take(n));
        assert(s.standard =~= picked_at(n as nat, |i: int| template_at(lines, i, false)));
        assert(s.recent =~= picked_at(n as nat, |i: int| template_at(lines, i, true)));
    } else {
        assert(ls.take(0) =~= Seq::<TemplateLine<Seq<char>, FoundText>>::empty());
        assert(picked_at(0, |i: int| template_at(lines, i, false)) =~= seq![]);
        assert(picked_at(0, |i: int| template_at(lines, i, true)) =~= seq![]);
    }
}

/// The templates are the lines that name one, all of them, in the order of the
/// output; those behind a header about recent templates are the recent ones.
pub proof fn law_templates_are_lines(output: Seq<char>)
    ensures
        ({
            let lines = lines_of(without_ansi(output));
            let s = templates_in(template_lines(without_ansi(output)));
            &&& s.standard == picked_at(lines.len(), |i: int| template_at(lines, i, false))
            &&& s.recent == picked_at(lines.len(), |i: int| template_at(lines, i, true))
        }),
{
    let lines = lines_of(without_ansi(output));
    let ls = template_lines(without_ansi(output));
    lemma_templates(lines, lines.len() as int);
    assert(ls.take(lines.len() as int) =~= ls);
}

/// The report has the number of the templates in its title and all of them
/// underneath, and the recent ones in a line of their own.
pub proof fn law_templates_layout(s: TemplatesView)
    ensures
        templates_report(s) == trimmed(
            "xctrace templates ("@ + decimal(s.standard.len()) + ")\n"@ + listed(s.standard, "  "@)
                + (if s.recent.len() > 0 {
                "\nRecent: "@ + joined(s.recent, ", "@) + "\n"@
            } else {
                seq![]
            }),
        ),
{
}

/// Every output is reported on.
pub proof fn law_templates_reported(output: Seq<char>)
    ensures
        list_templates_filtered(output) == templates_report(
            templates_in(template_lines(without_ansi(output))),
        ),
{
}

} // verus!
