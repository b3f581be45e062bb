//! `xctrace list templates`: the names of the templates, without descriptions.

use crate::ansi::{strip_ansi, without_ansi};
use crate::pattern::{
    group_text, regex_captures, regex_matches, Found, FoundText, Pattern, SECTION_HEADER,
    TEMPLATE_NAME,
};
use crate::report::{
    all_trimmed, is_trimmed, law_trimmed_is_trimmed, lemma_head_kept, lemma_joined_keeps,
    lemma_listed_keeps, lemma_occurs_after_trim, lemma_occurs_in_middle, list_lines, listed,
};
use crate::text::{
    begins_with, contains, decimal, decimal_text, is_space, join, joined, lines, lines_of, occurs,
    starts_with, trim, trimmed, views,
};
use vstd::prelude::*;

verus! {

// ─── Lines ──────────────────────────────────────────────────────────────────

/// A trimmed line with what each pattern finds in it, and whether the line is
/// indented. `T` is the type of text, `F` that of a search result.
pub struct TemplateLine<T, F> {
    pub text: T,
    pub section: F,
    pub indented: bool,
    pub template: bool,
}

impl View for TemplateLine<String, Found> {
    type V = TemplateLine<Seq<char>, FoundText>;

    open spec fn view(&self) -> TemplateLine<Seq<char>, FoundText> {
        TemplateLine {
            text: self.text@,
            section: self.section@,
            indented: self.indented,
            template: self.template,
        }
    }
}

/// What the patterns find in a line of output.
pub open spec fn template_line(line: Seq<char>) -> TemplateLine<Seq<char>, FoundText> {
    let text = trimmed(line);
    TemplateLine {
        text,
        section: regex_captures(SECTION_HEADER@, text),
        indented: begins_with(line, "    "@) || begins_with(line, "\t"@),
        template: regex_matches(TEMPLATE_NAME@, text),
    }
}

/// What the patterns find in each line of `clean`.
pub open spec fn template_lines(clean: Seq<char>) -> Seq<TemplateLine<Seq<char>, FoundText>> {
    lines_of(clean).map_values(|line: Seq<char>| template_line(line))
}

/// Searches each line of `clean` for the patterns.
pub fn read_template_lines(clean: &str) -> (r: Vec<TemplateLine<String, Found>>)
    ensures
        views(r@) == template_lines(clean@),
{
    let section = Pattern::compile(SECTION_HEADER);
    let template = Pattern::compile(TEMPLATE_NAME);
    let raw = lines(clean);
    let mut out: Vec<TemplateLine<String, Found>> = Vec::new();
    for i in 0..raw.len()
        invariant
            section.source() == SECTION_HEADER@,
            template.source() == TEMPLATE_NAME@,
            views(raw@) == lines_of(clean@),
            views(out@) == template_lines(clean@).take(i as int),
    {
        let text = trim(raw[i].as_str());
        let line = TemplateLine {
            section: section.captures(text.as_str()),
            indented: starts_with(raw[i].as_str(), "    ") || starts_with(raw[i].as_str(), "\t"),
            template: template.is_match(text.as_str()),
            text,
        };
        assert(line@ == template_line(views(raw@)[i as int]));
        assert(template_lines(clean@)[i as int] == line@);
        let ghost before = views(out@);
        out.push(line);
        assert(views(out@) =~= before.push(line@));
        assert(views(out@) =~= template_lines(clean@).take(i + 1));
    }
    assert(views(out@) =~= template_lines(clean@));
    out
}

// ─── Listing ────────────────────────────────────────────────────────────────

/// What has been read of a listing, as text sequences.
#[verifier::ext_equal]
pub struct TemplatesView {
    pub standard: Seq<Seq<char>>,
    pub recent: Seq<Seq<char>>,
    pub in_recent: bool,
}

/// What has been read of a listing: the templates outside and inside of the
/// sections on recent ones, and whether the line to come stands in such a section.
pub struct Templates {
    pub standard: Vec<String>,
    pub recent: Vec<String>,
    pub in_recent: bool,
}

impl View for Templates {
    type V = TemplatesView;

    open spec fn view(&self) -> TemplatesView {
        TemplatesView {
            standard: views(self.standard@),
            recent: views(self.recent@),
            in_recent: self.in_recent,
        }
    }
}

/// Before the first line.
pub open spec fn templates_start() -> TemplatesView {
    TemplatesView { standard: seq![], recent: seq![], in_recent: false }
}

/// Whether a line names a template.
pub open spec fn names_template(l: TemplateLine<Seq<char>, FoundText>) -> bool {
    l.text.len() > 0 && l.section is None && !l.indented && l.template
}

/// What reading one more line makes of what has been read.
pub open spec fn templates_step(
    s: TemplatesView,
    l: TemplateLine<Seq<char>, FoundText>,
) -> TemplatesView {
    if l.text.len() > 0 && l.section is Some {
        TemplatesView { in_recent: occurs("Recent"@, group_text(l.section, 1)), ..s }
    } else if names_template(l) {
        if s.in_recent {
            TemplatesView { recent: s.recent.push(l.text), ..s }
        } else {
            TemplatesView { standard: s.standard.push(l.text), ..s }
        }
    } else {
        s
    }
}

/// What has been read after all the lines.
pub open spec fn templates_in(ls: Seq<TemplateLine<Seq<char>, FoundText>>) -> TemplatesView
    decreases ls.len(),
{
    if ls.len() == 0 {
        templates_start()
    } else {
        templates_step(templates_in(ls.drop_last()), ls.last())
    }
}

/// Reads the lines of a listing.
pub fn list_templates(ls: &Vec<TemplateLine<String, Found>>) -> (r: Templates)
    ensures
        r@ == templates_in(views(ls@)),
{
    let mut s = Templates { standard: Vec::new(), recent: Vec::new(), in_recent: false };
    let ghost all = views(ls@);
    assert(s@ =~= templates_start());
    for i in 0..ls.len()
        invariant
            all == views(ls@),
            s@ == templates_in(all.take(i as int)),
    {
        assert(all.take(i + 1).drop_last() =~= all.take(i as int));
        let l = &ls[i];
        assert(all.take(i + 1).last() == l@);
        let ghost before = s@;
        if !l.text.as_str().is_empty() {
            if l.section.is_match() {
                s.in_recent = contains(l.section.group(1).as_str(), "Recent");
            } else if !l.indented && l.template {
                if s.in_recent {
                    s.recent.push(l.text.clone());
                } else {
                    s.standard.push(l.text.clone());
                }
            }
        }
        assert(s@ =~= templates_step(before, l@));
    }
    assert(all.take(all.len() as int) =~= all);
    s
}

// ─── Report ─────────────────────────────────────────────────────────────────

/// The line of recent templates, if there are any.
pub open spec fn recent_part(recent: Seq<Seq<char>>) -> Seq<char> {
    if recent.len() == 0 {
        seq![]
    } else {
        "\nRecent: "@ + joined(recent, ", "@) + "\n"@
    }
}

/// The report before it is trimmed.
pub open spec fn templates_body(s: TemplatesView) -> Seq<char> {
    "xctrace templates ("@ + decimal(s.standard.len()) + ")\n"@ + listed(s.standard, "  "@)
        + recent_part(s.recent)
}

/// The report on a listing.
pub open spec fn templates_report(s: TemplatesView) -> Seq<char> {
    trimmed(templates_body(s))
}

/// Writes the report on a listing.
pub fn render_templates(s: &Templates) -> (r: String)
    ensures
        r@ == templates_report(s@),
{
    let mut recent = String::new();
    if s.recent.len() > 0 {
        recent.append("\nRecent: ");
        recent.append(join(&s.recent, ", ").as_str());
        recent.append("\n");
    }
    assert(recent@ =~= recent_part(views(s.recent@)));
    let mut out = "xctrace templates (".to_owned();
    out.append(decimal_text(s.standard.len()).as_str());
    out.append(")\n");
    out.append(list_lines(&s.standard, s.standard.len(), "  ").as_str());
    assert(views(s.standard@).take(s.standard@.len() as int) =~= views(s.standard@));
    out.append(recent.as_str());
    trim(out.as_str())
}

/// What the filter makes of raw output.
pub open spec fn list_templates_filtered(output: Seq<char>) -> Seq<char> {
    templates_report(templates_in(template_lines(without_ansi(output))))
}

/// Condenses the output of `xctrace list templates`.
pub fn filter_list_templates(output: &str) -> (r: String)
    ensures
        r@ == list_templates_filtered(output@),
{
    let clean = strip_ansi(output);
    render_templates(&list_templates(&read_template_lines(clean.as_str())))
}

// ─── Laws ───────────────────────────────────────────────────────────────────

proof fn lemma_templates_found(ls: Seq<TemplateLine<Seq<char>, FoundText>>)
    requires
        forall|i: int| 0 <= i < ls.len() ==> is_trimmed((#[trigger] ls[i]).text),
    ensures
        all_trimmed(templates_in(ls).standard),
        all_trimmed(templates_in(ls).recent),
        forall|i: int|
            0 <= i < ls.len() && names_template(#[trigger] ls[i]) ==> templates_in(
                ls,
            ).standard.contains(ls[i].text) || templates_in(ls).recent.contains(ls[i].text),
    decreases ls.len(),
{
    if ls.len() > 0 {
        let before = ls.drop_last();
        let s = templates_in(before);
        let t = templates_in(ls);
        lemma_templates_found(before);
        assert(is_trimmed(ls[ls.len() - 1].text));
        assert forall|i: int| 0 <= i < ls.len() && names_template(#[trigger] ls[i]) implies (
        t.standard.contains(ls[i].text) || t.recent.contains(ls[i].text)) by {
            let text = ls[i].text;
            if i < before.len() {
                assert(before[i] == ls[i]);
                if s.standard.contains(text) {
                    let k = choose|k: int| 0 <= k < s.standard.len() && s.standard[k] == text;
                    assert(t.standard[k] == text);
                } else {
                    let k = choose|k: int| 0 <= k < s.recent.len() && s.recent[k] == text;
                    assert(t.recent[k] == text);
                }
            } else if s.in_recent {
                assert(t.recent[s.recent.len() as int] == text);
            } else {
                assert(t.standard[s.standard.len() as int] == text);
            }
        }
    }
}

proof fn lemma_templates_in_report(s: TemplatesView)
    requires
        all_trimmed(s.standard),
        all_trimmed(s.recent),
    ensures
        forall|k: int|
            0 <= k < s.standard.len() ==> occurs(#[trigger] s.standard[k], templates_report(s)),
        forall|k: int|
            0 <= k < s.recent.len() ==> occurs(#[trigger] s.recent[k], templates_report(s)),
{
    let head = "xctrace templates ("@ + decimal(s.standard.len()) + ")\n"@;
    let list = listed(s.standard, "  "@);
    let tail = recent_part(s.recent);
    assert forall|k: int| 0 <= k < s.standard.len() implies occurs(
        #[trigger] s.standard[k],
        templates_report(s),
    ) by {
        lemma_listed_keeps(s.standard, "  "@, k);
        lemma_occurs_in_middle(s.standard[k], head, list, tail);
        lemma_occurs_after_trim(s.standard[k], templates_body(s));
    }
    assert forall|k: int| 0 <= k < s.recent.len() implies occurs(
        #[trigger] s.recent[k],
        templates_report(s),
    ) by {
        let names = joined(s.recent, ", "@);
        lemma_joined_keeps(s.recent, ", "@, k);
        lemma_occurs_in_middle(s.recent[k], "\nRecent: "@, names, "\n"@);
        let none = Seq::<char>::empty();
        lemma_occurs_in_middle(s.recent[k], head + list, tail, none);
        assert(head + list + tail + none =~= templates_body(s));
        lemma_occurs_after_trim(s.recent[k], templates_body(s));
    }
}

/// No template gets lost: every line that names one is in the report.
pub proof fn law_templates_kept(output: Seq<char>)
    ensures
        ({
            let ls = template_lines(without_ansi(output));
            forall|i: int|
                0 <= i < ls.len() && names_template(#[trigger] ls[i]) ==> occurs(
                    ls[i].text,
                    list_templates_filtered(output),
                )
        }),
{
    let clean = without_ansi(output);
    let ls = template_lines(clean);
    let s = templates_in(ls);
    assert forall|i: int| 0 <= i < ls.len() implies is_trimmed((#[trigger] ls[i]).text) by {
        law_trimmed_is_trimmed(lines_of(clean)[i]);
    }
    lemma_templates_found(ls);
    lemma_templates_in_report(s);
    assert forall|i: int| 0 <= i < ls.len() && names_template(#[trigger] ls[i]) implies occurs(
        ls[i].text,
        list_templates_filtered(output),
    ) by {
        let text = ls[i].text;
        if s.standard.contains(text) {
            let k = choose|k: int| 0 <= k < s.standard.len() && s.standard[k] == text;
            assert(occurs(s.standard[k], templates_report(s)));
        } else {
            let k = choose|k: int| 0 <= k < s.recent.len() && s.recent[k] == text;
            assert(occurs(s.recent[k], templates_report(s)));
        }
    }
}

/// The report states the number of templates outside of the sections on recent
/// ones.
pub proof fn law_templates_counted(s: TemplatesView)
    ensures
        occurs(
            "xctrace templates ("@ + decimal(s.standard.len()) + ")"@,
            templates_report(s),
        ),
{
    let needle = "xctrace templates ("@ + decimal(s.standard.len()) + ")"@;
    let post = "\n"@ + listed(s.standard, "  "@) + recent_part(s.recent);
    assert(")\n"@ =~= ")"@ + "\n"@ && ")"@.len() > 0 && !is_space(")"@.last())) by {
        reveal_strlit(")\n");
        reveal_strlit(")");
        reveal_strlit("\n");
    }
    assert("xctrace templates ("@.len() > 0 && !is_space("xctrace templates ("@[0])) by {
        reveal_strlit("xctrace templates (");
    }
    assert(needle[0] == "xctrace templates ("@[0] && needle.last() == ")"@.last());
    lemma_head_kept(needle, post);
    assert(needle + post =~= templates_body(s));
}

} // verus!
