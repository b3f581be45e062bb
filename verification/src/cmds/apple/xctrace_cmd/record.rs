//! `xctrace record`: drops the progress, keeps the facts of the recording, the
//! heaviest stacks and the metrics.

use crate::ansi::{law_plain_text_unchanged, strip_ansi, without_ansi};
use crate::pattern::{
    group_text, regex_captures, regex_matches, Found, FoundText, Pattern, RECORD_DURATION,
    RECORD_METRIC, RECORD_NOISE, RECORD_STACK, RECORD_TARGET, RECORD_TEMPLATE, RECORD_TRACE_FILE,
    RECORD_TRACE_SIZE,
};
use crate::report::{
    is_trimmed, law_picked_in_order, lemma_head_first, lemma_listed_keeps, lemma_occurs_in_begun,
    lemma_occurs_in_middle, lemma_part_kept, list_lines, listed, shown,
};
use crate::text::{
    begins_with, is_space, joined, lemma_joined_chars, lemma_line_chars, lemma_lines_of_joined,
    lines, lines_of, occurs, trim, trimmed, views,
};
use vstd::prelude::*;

verus! {

/// How many stacks a report lists.
pub const STACK_LIMIT: usize = 5;

// ─── Lines ──────────────────────────────────────────────────────────────────

/// A trimmed line with what each pattern finds in it. `T` is the type of text,
/// `F` that of a search result.
pub struct RecordLine<T, F> {
    pub text: T,
    pub noise: bool,
    pub target: F,
    pub template: F,
    pub duration: F,
    pub trace_file: F,
    pub trace_size: F,
    pub stack: F,
    pub metric: F,
}

impl View for RecordLine<String, Found> {
    type V = RecordLine<Seq<char>, FoundText>;

    open spec fn view(&self) -> RecordLine<Seq<char>, FoundText> {
        RecordLine {
            text: self.text@,
            noise: self.noise,
            target: self.target@,
            template: self.template@,
            duration: self.duration@,
            trace_file: self.trace_file@,
            trace_size: self.trace_size@,
            stack: self.stack@,
            metric: self.metric@,
        }
    }
}

/// What the patterns find in a line of output.
pub open spec fn record_line(line: Seq<char>) -> RecordLine<Seq<char>, FoundText> {
    let text = trimmed(line);
    RecordLine {
        text,
        noise: regex_matches(RECORD_NOISE@, text),
        target: regex_captures(RECORD_TARGET@, text),
        template: regex_captures(RECORD_TEMPLATE@, text),
        duration: regex_captures(RECORD_DURATION@, text),
        trace_file: regex_captures(RECORD_TRACE_FILE@, text),
        trace_size: regex_captures(RECORD_TRACE_SIZE@, text),
        stack: regex_captures(RECORD_STACK@, text),
        metric: regex_captures(RECORD_METRIC@, text),
    }
}

/// What the patterns find in each line of `clean`.
pub open spec fn record_lines(clean: Seq<char>) -> Seq<RecordLine<Seq<char>, FoundText>> {
    lines_of(clean).map_values(|line: Seq<char>| record_line(line))
}

/// Searches each line of `clean` for the patterns.
pub fn read_record_lines(clean: &str) -> (r: Vec<RecordLine<String, Found>>)
    ensures
        views(r@) == record_lines(clean@),
{
    let noise = Pattern::compile(RECORD_NOISE);
    let target = Pattern::compile(RECORD_TARGET);
    let template = Pattern::compile(RECORD_TEMPLATE);
    let duration = Pattern::compile(RECORD_DURATION);
    let trace_file = Pattern::compile(RECORD_TRACE_FILE);
    let trace_size = Pattern::compile(RECORD_TRACE_SIZE);
    let stack = Pattern::compile(RECORD_STACK);
    let metric = Pattern::compile(RECORD_METRIC);
    let raw = lines(clean);
    let mut out: Vec<RecordLine<String, Found>> = Vec::new();
    for i in 0..raw.len()
        invariant
            noise.source() == RECORD_NOISE@,
            target.source() == RECORD_TARGET@,
            template.source() == RECORD_TEMPLATE@,
            duration.source() == RECORD_DURATION@,
            trace_file.source() == RECORD_TRACE_FILE@,
            trace_size.source() == RECORD_TRACE_SIZE@,
            stack.source() == RECORD_STACK@,
            metric.source() == RECORD_METRIC@,
            views(raw@) == lines_of(clean@),
            views(out@) == record_lines(clean@).take(i as int),
    {
        let text = trim(raw[i].as_str());
        let line = RecordLine {
            noise: noise.is_match(text.as_str()),
            target: target.captures(text.as_str()),
            template: template.captures(text.as_str()),
            duration: duration.captures(text.as_str()),
            trace_file: trace_file.captures(text.as_str()),
            trace_size: trace_size.captures(text.as_str()),
            stack: stack.captures(text.as_str()),
            metric: metric.captures(text.as_str()),
            text,
        };
        assert(line@ == record_line(views(raw@)[i as int]));
        assert(record_lines(clean@)[i as int] == line@);
        let ghost before = views(out@);
        out.push(line);
        assert(views(out@) =~= before.push(line@));
        assert(views(out@) =~= record_lines(clean@).take(i + 1));
    }
    assert(views(out@) =~= record_lines(clean@));
    out
}

// ─── Summary ────────────────────────────────────────────────────────────────

/// What has been read of a recording, as text sequences.
#[verifier::ext_equal]
pub struct RecordingView {
    pub target: Seq<char>,
    pub template: Seq<char>,
    pub duration: Seq<char>,
    pub trace_file: Seq<char>,
    pub trace_size: Seq<char>,
    pub stacks: Seq<(Seq<char>, Seq<char>)>,
    pub metrics: Seq<(Seq<char>, Seq<char>)>,
}

/// What has been read of a recording. A stack is its share, as it stands in the
/// output, and its name; a metric is its name and its value.
pub struct Recording {
    pub target: String,
    pub template: String,
    pub duration: String,
    pub trace_file: String,
    pub trace_size: String,
    pub stacks: Vec<(String, String)>,
    pub metrics: Vec<(String, String)>,
}

impl View for Recording {
    type V = RecordingView;

    open spec fn view(&self) -> RecordingView {
        RecordingView {
            target: self.target@,
            template: self.template@,
            duration: self.duration@,
            trace_file: self.trace_file@,
            trace_size: self.trace_size@,
            stacks: views(self.stacks@),
            metrics: views(self.metrics@),
        }
    }
}

/// Before the first line.
pub open spec fn recording_start() -> RecordingView {
    RecordingView {
        target: seq![],
        template: seq![],
        duration: seq![],
        trace_file: seq![],
        trace_size: seq![],
        stacks: seq![],
        metrics: seq![],
    }
}

/// What reading one more line makes of what has been read.
pub open spec fn recording_step(
    s: RecordingView,
    l: RecordLine<Seq<char>, FoundText>,
) -> RecordingView {
    if l.text.len() == 0 || l.noise {
        s
    } else if l.target is Some {
        RecordingView { target: group_text(l.target, 1), ..s }
    } else if l.template is Some {
        RecordingView { template: group_text(l.template, 1), ..s }
    } else if l.duration is Some {
        RecordingView { duration: group_text(l.duration, 1), ..s }
    } else if l.trace_file is Some {
        RecordingView { trace_file: group_text(l.trace_file, 1), ..s }
    } else if l.trace_size is Some {
        RecordingView { trace_size: group_text(l.trace_size, 1), ..s }
    } else if l.stack is Some {
        RecordingView {
            stacks: s.stacks.push((group_text(l.stack, 1), group_text(l.stack, 2))),
            ..s
        }
    } else if l.metric is Some {
        RecordingView {
            metrics: s.metrics.push((group_text(l.metric, 1), group_text(l.metric, 2))),
            ..s
        }
    } else {
        s
    }
}

/// What has been read after all the lines.
pub open spec fn recording_of(ls: Seq<RecordLine<Seq<char>, FoundText>>) -> RecordingView
    decreases ls.len(),
{
    if ls.len() == 0 {
        recording_start()
    } else {
        recording_step(recording_of(ls.drop_last()), ls.last())
    }
}

impl Recording {
    /// Before the first line.
    pub fn start() -> (r: Self)
        ensures
            r@ == recording_start(),
    {
        let r = Recording {
            target: String::new(),
            template: String::new(),
            duration: String::new(),
            trace_file: String::new(),
            trace_size: String::new(),
            stacks: Vec::new(),
            metrics: Vec::new(),
        };
        assert(r@ =~= recording_start());
        r
    }

    /// Reads one more line.
    pub fn read(&mut self, l: &RecordLine<String, Found>)
        ensures
            final(self)@ == recording_step(old(self)@, l@),
    {
        if !l.text.as_str().is_empty() && !l.noise {
            if l.target.is_match() {
                self.target = l.target.group(1);
            } else if l.template.is_match() {
                self.template = l.template.group(1);
            } else if l.duration.is_match() {
                self.duration = l.duration.group(1);
            } else if l.trace_file.is_match() {
                self.trace_file = l.trace_file.group(1);
            } else if l.trace_size.is_match() {
                self.trace_size = l.trace_size.group(1);
            } else if l.stack.is_match() {
                self.stacks.push((l.stack.group(1), l.stack.group(2)));
            } else if l.metric.is_match() {
                self.metrics.push((l.metric.group(1), l.metric.group(2)));
            }
        }
        assert(self@ =~= recording_step(old(self)@, l@));
    }
}

/// Reads the lines of a recording.
pub fn summarize_recording(ls: &Vec<RecordLine<String, Found>>) -> (r: Recording)
    ensures
        r@ == recording_of(views(ls@)),
{
    let mut s = Recording::start();
    let ghost all = views(ls@);
    for i in 0..ls.len()
        invariant
            all == views(ls@),
            s@ == recording_of(all.take(i as int)),
    {
        assert(all.take(i + 1).drop_last() =~= all.take(i as int));
        s.read(&ls[i]);
    }
    assert(all.take(all.len() as int) =~= all);
    s
}

// ─── Report ─────────────────────────────────────────────────────────────────

/// A line that begins with `label` and `main`, with `more_label` and `more` behind
/// them unless `more` is empty; nothing where `main` is empty.
pub open spec fn fact_line(
    label: Seq<char>,
    main: Seq<char>,
    more_label: Seq<char>,
    more: Seq<char>,
) -> Seq<char> {
    if main.len() == 0 {
        seq![]
    } else if more.len() == 0 {
        label + main + "\n"@
    } else {
        label + main + more_label + more + "\n"@
    }
}

/// `share%  name` for each of the first stacks; `shares` are their shares as they
/// are to be printed.
pub open spec fn stack_entries(
    stacks: Seq<(Seq<char>, Seq<char>)>,
    shares: Seq<Seq<char>>,
) -> Seq<Seq<char>> {
    Seq::new(
        shown(stacks.len(), STACK_LIMIT as nat),
        |i: int| shares[i] + "%  "@ + stacks[i].1,
    )
}

/// `name: value` for each metric.
pub open spec fn metric_entries(metrics: Seq<(Seq<char>, Seq<char>)>) -> Seq<Seq<char>> {
    metrics.map_values(|m: (Seq<char>, Seq<char>)| m.0 + ": "@ + m.1)
}

/// A heading with a list under it; nothing for no items.
pub open spec fn headed(heading: Seq<char>, items: Seq<Seq<char>>) -> Seq<char> {
    if items.len() == 0 {
        seq![]
    } else {
        heading + listed(items, "  "@)
    }
}

/// The report before it is trimmed.
pub open spec fn record_body(s: RecordingView, shares: Seq<Seq<char>>) -> Seq<char> {
    "xctrace record\n"@ + fact_line("Template: "@, s.template, " | Target: "@, s.target)
        + fact_line("Duration: "@, s.duration, " | Size: "@, s.trace_size) + fact_line(
        "Trace: "@,
        s.trace_file,
        seq![],
        seq![],
    ) + headed("\nHeaviest stacks:\n"@, stack_entries(s.stacks, shares)) + headed(
        "\nMetrics:\n"@,
        metric_entries(s.metrics),
    )
}

/// The report on a recording.
pub open spec fn record_report(s: RecordingView, shares: Seq<Seq<char>>) -> Seq<char> {
    trimmed(record_body(s, shares))
}

fn fact_text(label: &str, main: &str, more_label: &str, more: &str) -> (r: String)
    ensures
        r@ == fact_line(label@, main@, more_label@, more@),
{
    if main.is_empty() {
        return String::new();
    }
    let mut out = label.to_owned();
    out.append(main);
    if !more.is_empty() {
        out.append(more_label);
        out.append(more);
    }
    out.append("\n");
    out
}

fn headed_text(heading: &str, items: &Vec<String>) -> (r: String)
    ensures
        r@ == headed(heading@, views(items@)),
{
    if items.len() == 0 {
        return String::new();
    }
    let mut out = heading.to_owned();
    out.append(list_lines(items, items.len(), "  ").as_str());
    assert(views(items@).take(items@.len() as int) =~= views(items@));
    out
}

fn metrics_text(metrics: &Vec<(String, String)>) -> (r: Vec<String>)
    ensures
        views(r@) == metric_entries(views(metrics@)),
{
    let mut out: Vec<String> = Vec::new();
    let ghost all = metric_entries(views(metrics@));
    for i in 0..metrics.len()
        invariant
            all == metric_entries(views(metrics@)),
            views(out@) == all.take(i as int),
    {
        let mut entry = metrics[i].0.clone();
        entry.append(": ");
        entry.append(metrics[i].1.as_str());
        assert(views(metrics@)[i as int] == metrics@[i as int]@);
        assert(all[i as int] == entry@);
        let ghost before = views(out@);
        out.push(entry);
        assert(views(out@) =~= before.push(entry@));
        assert(views(out@) =~= all.take(i + 1));
    }
    assert(views(out@) =~= all);
    out
}

fn stacks_text(stacks: &Vec<(String, String)>, shares: &Vec<String>) -> (r: Vec<String>)
    requires
        shares@.len() == shown(stacks@.len(), STACK_LIMIT as nat),
    ensures
        views(r@) == stack_entries(views(stacks@), views(shares@)),
{
    let mut out: Vec<String> = Vec::new();
    let ghost all = stack_entries(views(stacks@), views(shares@));
    for i in 0..shares.len()
        invariant
            shares@.len() == shown(stacks@.len(), STACK_LIMIT as nat),
            all == stack_entries(views(stacks@), views(shares@)),
            views(out@) == all.take(i as int),
    {
        let mut entry = shares[i].clone();
        entry.append("%  ");
        entry.append(stacks[i].1.as_str());
        assert(views(stacks@)[i as int] == stacks@[i as int]@);
        assert(all[i as int] == entry@);
        let ghost before = views(out@);
        out.push(entry);
        assert(views(out@) =~= before.push(entry@));
        assert(views(out@) =~= all.take(i + 1));
    }
    assert(views(out@) =~= all);
    out
}

/// Writes the report on a recording. `shares` are the shares of the first stacks,
/// as they are to be printed.
pub fn render_recording(s: &Recording, shares: &Vec<String>) -> (r: String)
    requires
        shares@.len() == shown(s@.stacks.len(), STACK_LIMIT as nat),
    ensures
        r@ == record_report(s@, views(shares@)),
{
    let mut out = "xctrace record\n".to_owned();
    out.append(
        fact_text("Template: ", s.template.as_str(), " | Target: ", s.target.as_str()).as_str(),
    );
    out.append(
        fact_text("Duration: ", s.duration.as_str(), " | Size: ", s.trace_size.as_str()).as_str(),
    );
    let none = String::new();
    out.append(
        fact_text("Trace: ", s.trace_file.as_str(), none.as_str(), none.as_str()).as_str(),
    );
    assert(none@ =~= Seq::<char>::empty());
    out.append(
        headed_text("\nHeaviest stacks:\n", &stacks_text(&s.stacks, shares)).as_str(),
    );
    out.append(headed_text("\nMetrics:\n", &metrics_text(&s.metrics)).as_str());
    trim(out.as_str())
}

/// Whether `out` is what `percent` gives for the share `share`.
pub open spec fn prints<F: Fn(&str) -> String>(
    percent: F,
    share: Seq<char>,
    out: Seq<char>,
) -> bool {
    exists|arg: &str, ret: String| #[trigger]
        percent.ensures((arg,), ret) && arg@ == share && ret@ == out
}

/// Whether `shares` are what `percent` gives for the shares of the first stacks.
pub open spec fn printed_shares<F: Fn(&str) -> String>(
    percent: F,
    s: RecordingView,
    shares: Seq<Seq<char>>,
) -> bool {
    &&& shares.len() == shown(s.stacks.len(), STACK_LIMIT as nat)
    &&& forall|i: int|
        0 <= i < shares.len() ==> prints(percent, s.stacks[i].0, #[trigger] shares[i])
}

/// Prints the shares of the first stacks.
pub fn print_shares<F: Fn(&str) -> String>(s: &Recording, percent: &F) -> (r: Vec<String>)
    requires
        forall|arg: &str| percent.requires((arg,)),
    ensures
        printed_shares(*percent, s@, views(r@)),
{
    let n: usize = if s.stacks.len() <= STACK_LIMIT {
        s.stacks.len()
    } else {
        STACK_LIMIT
    };
    let mut out: Vec<String> = Vec::new();
    for i in 0..n
        invariant
            n == shown(s.stacks@.len(), STACK_LIMIT as nat),
            forall|arg: &str| percent.requires((arg,)),
            out@.len() == i,
            forall|j: int|
                0 <= j < i ==> prints(*percent, s@.stacks[j].0, #[trigger] views(out@)[j]),
    {
        let arg = s.stacks[i].0.as_str();
        let share = percent(arg);
        assert(s@.stacks[i as int] == s.stacks@[i as int]@);
        assert(prints(*percent, s@.stacks[i as int].0, share@));
        let ghost before = views(out@);
        out.push(share);
        assert(views(out@) =~= before.push(share@));
    }
    out
}

/// Condenses the output of `xctrace record`. `percent` prints a share: it is given
/// the digits of the output.
pub fn filter_record<F: Fn(&str) -> String>(output: &str, percent: &F) -> (r: String)
    requires
        forall|arg: &str| percent.requires((arg,)),
    ensures
        exists|shares: Seq<Seq<char>>|
            {
                &&& #[trigger] printed_shares(
                    *percent,
                    recording_of(record_lines(without_ansi(output@))),
                    shares,
                )
                &&& r@ == record_report(
                    recording_of(record_lines(without_ansi(output@))),
                    shares,
                )
            },
{
    let clean = strip_ansi(output);
    let s = summarize_recording(&read_record_lines(clean.as_str()));
    let shares = print_shares(&s, percent);
    render_recording(&s, &shares)
}

// ─── Laws ───────────────────────────────────────────────────────────────────

/// Empty lines and progress lines leave no trace.
pub proof fn law_record_noise_dropped(
    before: Seq<RecordLine<Seq<char>, FoundText>>,
    l: RecordLine<Seq<char>, FoundText>,
    after: Seq<RecordLine<Seq<char>, FoundText>>,
)
    requires
        l.text.len() == 0 || l.noise,
    ensures
        recording_of(before.push(l) + after) == recording_of(before + after),
    decreases after.len(),
{
    if after.len() == 0 {
        assert(before.push(l) + after =~= before.push(l));
        assert(before + after =~= before);
        assert(before.push(l).drop_last() =~= before);
    } else {
        law_record_noise_dropped(before, l, after.drop_last());
        assert((before.push(l) + after).drop_last() =~= before.push(l) + after.drop_last());
        assert((before + after).drop_last() =~= before + after.drop_last());
    }
}

/// The lines without the progress lines.
pub open spec fn quiet_lines(ls: Seq<Seq<char>>) -> Seq<Seq<char>> {
    ls.filter_map(
        |line: Seq<char>|
            if record_line(line).noise {
                None
            } else {
                Some(line)
            },
    )
}

/// The text without its progress lines.
pub open spec fn quiet_text(text: Seq<char>) -> Seq<char> {
    joined(quiet_lines(lines_of(text)), "\n"@)
}

spec fn searched(ls: Seq<Seq<char>>) -> Seq<RecordLine<Seq<char>, FoundText>> {
    ls.map_values(|line: Seq<char>| record_line(line))
}

proof fn lemma_quiet_same(ls: Seq<Seq<char>>)
    ensures
        recording_of(searched(quiet_lines(ls))) == recording_of(searched(ls)),
    decreases ls.len(),
{
    if ls.len() > 0 {
        let init = ls.drop_last();
        let line = ls.last();
        lemma_quiet_same(init);
        assert(searched(ls).drop_last() =~= searched(init));
        assert(searched(ls).last() == record_line(line));
        if !record_line(line).noise {
            let q = quiet_lines(init);
            assert(quiet_lines(ls) =~= q.push(line));
            assert(searched(q.push(line)).drop_last() =~= searched(q));
            assert(searched(q.push(line)).last() == record_line(line));
        }
    } else {
        assert(quiet_lines(ls) =~= ls);
    }
}

proof fn lemma_joined_same(ks: Seq<Seq<char>>)
    requires
        forall|k: int| 0 <= k < ks.len() ==> !(#[trigger] ks[k]).contains('\n'),
    ensures
        recording_of(record_lines(joined(ks, "\n"@))) == recording_of(searched(ks)),
{
    let ls = lines_of(joined(ks, "\n"@));
    lemma_lines_of_joined(ks);
    assert forall|i: int| 0 <= i < ls.len() implies record_line(#[trigger] ls[i]) == record_line(
        ks[i],
    ) by {
        assert(trimmed(ls[i]) == trimmed(ks[i]));
    }
    if ls.len() == ks.len() {
        assert(searched(ls) =~= searched(ks));
    } else {
        assert(searched(ks).drop_last() =~= searched(ls));
        assert(searched(ks).last() == record_line(ks.last()));
        assert(trimmed(ks.last()).len() == 0);
    }
}

/// The progress lines of the output leave no trace, whatever they hold: the output
/// without them gives the same recording, and so the same report.
pub proof fn law_record_quiet_output(output: Seq<char>)
    requires
        !output.contains('\u{1b}'),
    ensures
        recording_of(record_lines(without_ansi(quiet_text(output)))) == recording_of(
            record_lines(without_ansi(output)),
        ),
{
    let ls = lines_of(output);
    let ks = quiet_lines(ls);
    let at = law_picked_in_order(
        ls,
        |line: Seq<char>|
            if record_line(line).noise {
                None
            } else {
                Some(line)
            },
    );
    assert forall|k: int| 0 <= k < ks.len() implies !(#[trigger] ks[k]).contains('\n')
        && !ks[k].contains('\u{1b}') by {
        assert(ls[at[k]] == ks[k]);
        if ks[k].contains('\n') {
            lemma_line_chars(output, at[k], '\n');
        }
        if ks[k].contains('\u{1b}') {
            lemma_line_chars(output, at[k], '\u{1b}');
        }
    }
    assert(!"\n"@.contains('\u{1b}')) by {
        reveal_strlit("\n");
    }
    lemma_joined_chars(ks, "\n"@, '\u{1b}');
    law_plain_text_unchanged(output);
    law_plain_text_unchanged(quiet_text(output));
    lemma_joined_same(ks);
    lemma_quiet_same(ls);
}

/// The report is never empty: it begins with its title.
pub proof fn law_record_begins_with_title(s: RecordingView, shares: Seq<Seq<char>>)
    ensures
        begins_with(record_report(s, shares), "xctrace record"@),
        "xctrace record"@.len() > 0,
{
    let title = "xctrace record"@;
    let a = fact_line("Template: "@, s.template, " | Target: "@, s.target);
    let b = fact_line("Duration: "@, s.duration, " | Size: "@, s.trace_size);
    let c = fact_line("Trace: "@, s.trace_file, seq![], seq![]);
    let d = headed("\nHeaviest stacks:\n"@, stack_entries(s.stacks, shares));
    let e = headed("\nMetrics:\n"@, metric_entries(s.metrics));
    assert("xctrace record\n"@ =~= title + "\n"@ && title.len() > 0 && is_trimmed(title)) by {
        reveal_strlit("xctrace record\n");
        reveal_strlit("xctrace record");
        reveal_strlit("\n");
    }
    assert(title + "\n"@ + a + b + c + d + e =~= title + ("\n"@ + a + b + c + d + e));
    lemma_head_first(title, "\n"@ + a + b + c + d + e);
}

proof fn lemma_record_begins()
    ensures
        "xctrace record\n"@.len() > 0,
        !is_space("xctrace record\n"@[0]),
{
    reveal_strlit("xctrace record\n");
}

proof fn lemma_headed_survives(
    pre: Seq<char>,
    heading: Seq<char>,
    items: Seq<Seq<char>>,
    post: Seq<char>,
    k: int,
)
    requires
        0 <= k < items.len(),
        items[k].len() > 0,
        !is_space(items[k].last()),
        pre.len() > 0,
        !is_space(pre[0]),
    ensures
        occurs(items[k], trimmed(pre + headed(heading, items) + post)),
{
    let whole = pre + headed(heading, items) + post;
    let none = Seq::<char>::empty();
    lemma_listed_keeps(items, "  "@, k);
    lemma_occurs_in_middle(items[k], heading, listed(items, "  "@), none);
    assert(heading + listed(items, "  "@) + none =~= headed(heading, items));
    lemma_occurs_in_middle(items[k], pre, headed(heading, items), post);
    assert(whole[0] == pre[0]);
    lemma_occurs_in_begun(items[k], whole);
}

/// Every metric whose value ends in text is in the report.
pub proof fn law_record_metrics_kept(s: RecordingView, shares: Seq<Seq<char>>, k: int)
    requires
        0 <= k < s.metrics.len(),
        s.metrics[k].1.len() > 0,
        !is_space(s.metrics[k].1.last()),
    ensures
        occurs(s.metrics[k].0 + ": "@ + s.metrics[k].1, record_report(s, shares)),
{
    let items = metric_entries(s.metrics);
    let none = Seq::<char>::empty();
    let pre = "xctrace record\n"@ + fact_line("Template: "@, s.template, " | Target: "@, s.target)
        + fact_line("Duration: "@, s.duration, " | Size: "@, s.trace_size) + fact_line(
        "Trace: "@,
        s.trace_file,
        seq![],
        seq![],
    ) + headed("\nHeaviest stacks:\n"@, stack_entries(s.stacks, shares));
    lemma_record_begins();
    assert(pre[0] == "xctrace record\n"@[0]);
    assert(items[k].last() == s.metrics[k].1.last());
    lemma_headed_survives(pre, "\nMetrics:\n"@, items, none, k);
    assert(pre + headed("\nMetrics:\n"@, items) + none =~= record_body(s, shares));
}

/// Each of the first five stacks whose name ends in text is in the report, with
/// its share.
pub proof fn law_record_stacks_kept(s: RecordingView, shares: Seq<Seq<char>>, k: int)
    requires
        0 <= k < s.stacks.len(),
        k < 5,
        shares.len() == shown(s.stacks.len(), 5),
        s.stacks[k].1.len() > 0,
        !is_space(s.stacks[k].1.last()),
    ensures
        occurs(shares[k] + "%  "@ + s.stacks[k].1, record_report(s, shares)),
{
    let items = stack_entries(s.stacks, shares);
    let pre = "xctrace record\n"@ + fact_line("Template: "@, s.template, " | Target: "@, s.target)
        + fact_line("Duration: "@, s.duration, " | Size: "@, s.trace_size) + fact_line(
        "Trace: "@,
        s.trace_file,
        seq![],
        seq![],
    );
    let post = headed("\nMetrics:\n"@, metric_entries(s.metrics));
    lemma_record_begins();
    assert(pre[0] == "xctrace record\n"@[0]);
    assert(items[k].last() == s.stacks[k].1.last());
    lemma_headed_survives(pre, "\nHeaviest stacks:\n"@, items, post, k);
    assert(pre + headed("\nHeaviest stacks:\n"@, items) + post =~= record_body(s, shares));
}

proof fn lemma_fact_survives(
    pre: Seq<char>,
    label: Seq<char>,
    main: Seq<char>,
    more_label: Seq<char>,
    more: Seq<char>,
    post: Seq<char>,
)
    requires
        pre.len() > 0,
        !is_space(pre[0]),
        main.len() > 0,
        !is_space(main.last()),
    ensures
        occurs(label + main, trimmed(pre + fact_line(label, main, more_label, more) + post)),
{
    let rest = if more.len() == 0 {
        "\n"@
    } else {
        more_label + more + "\n"@
    };
    assert(pre + (label + main) + (rest + post) =~= pre + fact_line(label, main, more_label, more)
        + post);
    assert((label + main).last() == main.last());
    lemma_part_kept(pre, label + main, rest + post);
}

/// The template, the duration and the trace file that were read last are in the
/// report, each where it ends in text.
pub proof fn law_record_facts_kept(s: RecordingView, shares: Seq<Seq<char>>)
    ensures
        s.template.len() > 0 && !is_space(s.template.last()) ==> occurs(
            "Template: "@ + s.template,
            record_report(s, shares),
        ),
        s.duration.len() > 0 && !is_space(s.duration.last()) ==> occurs(
            "Duration: "@ + s.duration,
            record_report(s, shares),
        ),
        s.trace_file.len() > 0 && !is_space(s.trace_file.last()) ==> occurs(
            "Trace: "@ + s.trace_file,
            record_report(s, shares),
        ),
{
    let head = "xctrace record\n"@;
    let a = fact_line("Template: "@, s.template, " | Target: "@, s.target);
    let b = fact_line("Duration: "@, s.duration, " | Size: "@, s.trace_size);
    let c = fact_line("Trace: "@, s.trace_file, seq![], seq![]);
    let d = headed("\nHeaviest stacks:\n"@, stack_entries(s.stacks, shares));
    let e = headed("\nMetrics:\n"@, metric_entries(s.metrics));
    lemma_record_begins();
    assert((head + a)[0] == head[0]);
    assert((head + a + b)[0] == head[0]);
    if s.template.len() > 0 && !is_space(s.template.last()) {
        lemma_fact_survives(
            head,
            "Template: "@,
            s.template,
            " | Target: "@,
            s.target,
            b + c + d + e,
        );
        assert(head + a + (b + c + d + e) =~= record_body(s, shares));
    }
    if s.duration.len() > 0 && !is_space(s.duration.last()) {
        lemma_fact_survives(
            head + a,
            "Duration: "@,
            s.duration,
            " | Size: "@,
            s.trace_size,
            c + d + e,
        );
        assert(head + a + b + (c + d + e) =~= record_body(s, shares));
    }
    if s.trace_file.len() > 0 && !is_space(s.trace_file.last()) {
        lemma_fact_survives(head + a + b, "Trace: "@, s.trace_file, seq![], seq![], d + e);
        assert(head + a + b + c + (d + e) =~= record_body(s, shares));
    }
}

} // verus!
