//! `xcrun xctrace record`: which line of the output becomes what in the report.

use crate::ansi::without_ansi;
use crate::cmds::apple::xctrace_cmd::record::{
    metric_entries, printed_shares, prints, record_line, record_lines, record_report, recording_of,
    stack_entries, RecordLine, RecordingView,
};
use crate::laws::picks::last_before;
use crate::pattern::{
    group_text, regex_captures, regex_matches, FoundText, RECORD_DURATION, RECORD_METRIC,
    RECORD_NOISE, RECORD_STACK, RECORD_TARGET, RECORD_TEMPLATE, RECORD_TRACE_FILE,
    RECORD_TRACE_SIZE,
};
use crate::report::listed;
use crate::text::{lines_of, trimmed};
use vstd::prelude::*;

verus! {

/// Whether a line, taken without the whitespace at its ends, tells something: it is
/// neither empty nor noise.
pub open spec fn tells(text: Seq<char>) -> bool {
    text.len() > 0 && !regex_matches(RECORD_NOISE@, text)
}

/// Whether a line gives the target.
pub open spec fn gives_target(text: Seq<char>) -> bool {
    tells(text) && regex_matches(RECORD_TARGET@, text)
}

/// Whether a line gives the template, and not the target.
pub open spec fn gives_template(text: Seq<char>) -> bool {
    tells(text) && !gives_target(text) && regex_matches(RECORD_TEMPLATE@, text)
}

/// Whether a line gives the duration, and none of these.
pub open spec fn gives_duration(text: Seq<char>) -> bool {
    tells(text) && !gives_target(text) && !gives_template(text) && regex_matches(
        RECORD_DURATION@,
        text,
    )
}

/// Whether a line gives the trace file, and none of these.
pub open spec fn gives_trace_file(text: Seq<char>) -> bool {
    tells(text) && !gives_target(text) && !gives_template(text) && !gives_duration(text)
        && regex_matches(RECORD_TRACE_FILE@, text)
}

/// Whether a line gives the size of the trace, and none of these.
pub open spec fn gives_trace_size(text: Seq<char>) -> bool {
    tells(text) && !gives_target(text) && !gives_template(text) && !gives_duration(text)
        && !gives_trace_file(text) && regex_matches(RECORD_TRACE_SIZE@, text)
}

/// Whether a line tells something and gives none of these.
pub open spec fn gives_no_fact(text: Seq<char>) -> bool {
    tells(text) && !gives_target(text) && !gives_template(text) && !gives_duration(text)
        && !gives_trace_file(text) && !gives_trace_size(text)
}

/// The last line for which `p` holds, searched for a pattern; nothing where there is
/// none.
pub open spec fn last_found(
    lines: Seq<Seq<char>>,
    n: int,
    p: spec_fn(Seq<char>) -> bool,
    pattern: Seq<char>,
) -> Seq<char> {
    match last_before(lines, n, |line: Seq<char>| p(trimmed(line))) {
        Some(line) => group_text(regex_captures(pattern, trimmed(line)), 1),
        None => seq![],
    }
}

/// A stack: its share and its name.
pub open spec fn stack_on(line: Seq<char>) -> Option<(Seq<char>, Seq<char>)> {
    let found = regex_captures(RECORD_STACK@, trimmed(line));
    if gives_no_fact(trimmed(line)) && found is Some {
        Some((group_text(found, 1), group_text(found, 2)))
    } else {
        None
    }
}

/// A metric: its name and its value.
pub open spec fn metric_on(line: Seq<char>) -> Option<(Seq<char>, Seq<char>)> {
    let found = regex_captures(RECORD_METRIC@, trimmed(line));
    if gives_no_fact(trimmed(line)) && !regex_matches(RECORD_STACK@, trimmed(line))
        && found is Some {
        Some((group_text(found, 1), group_text(found, 2)))
    } else {
        None
    }
}

proof fn lemma_recording(lines: Seq<Seq<char>>, n: int)
    requires
        0 <= n <= lines.len(),
    ensures
        ({
            let s = recording_of(lines.map_values(|line: Seq<char>| record_line(line)).take(n));
            &&& s.target == last_found(
                lines,
                n,
                |text: Seq<char>| gives_target(text),
                RECORD_TARGET@,
            )
            &&& s.template == last_found(
                lines,
                n,
                |text: Seq<char>| gives_template(text),
                RECORD_TEMPLATE@,
            )
            &&& s.duration == last_found(
                lines,
                n,
                |text: Seq<char>| gives_duration(text),
                RECORD_DURATION@,
            )
            &&& s.trace_file == last_found(
                lines,
                n,
                |text: Seq<char>| gives_trace_file(text),
                RECORD_TRACE_FILE@,
            )
            &&& s.trace_size == last_found(
                lines,
                n,
                |text: Seq<char>| gives_trace_size(text),
                RECORD_TRACE_SIZE@,
            )
            &&& s.stacks == lines.take(n).filter_map(|line: Seq<char>| stack_on(line))
            &&& s.metrics == lines.take(n).filter_map(|line: Seq<char>| metric_on(line))
        }),
    decreases n,
{
    let ls = lines.map_values(|line: Seq<char>| record_line(line));
    if n > 0 {
        lemma_recording(lines, n - 1);
        assert(ls.take(n).drop_last() =~= ls.take(n - 1));
        assert(ls.take(n).last() == record_line(lines[n - 1]));
        assert(lines.take(n).drop_last() =~= lines.take(n - 1));
        assert(lines.take(n).last() == lines[n - 1]);
        let s = recording_of(ls.take(n));
        assert(s.stacks =~= lines.take(n).filter_map(|line: Seq<char>| stack_on(line)));
        assert(s.metrics =~= lines.take(n).filter_map(|line: Seq<char>| metric_on(line)));
    } else {
        assert(ls.take(0) =~= Seq::<RecordLine<Seq<char>, FoundText>>::empty());
        assert(lines.take(0) =~= Seq::<Seq<char>>::empty());
        assert(lines.take(0).filter_map(|line: Seq<char>| stack_on(line)) =~= seq![]);
        assert(lines.take(0).filter_map(|line: Seq<char>| metric_on(line)) =~= seq![]);
    }
}

/// Each fact of the recording is the last that the output gives. The stacks and the
/// metrics are the lines that give one, all of them, in the order of the output.
pub proof fn law_recording_is_lines(output: Seq<char>)
    ensures
        ({
            let lines = lines_of(without_ansi(output));
            let n = lines.len() as int;
            let s = recording_of(record_lines(without_ansi(output)));
            &&& s.target == last_found(
                lines,
                n,
                |text: Seq<char>| gives_target(text),
                RECORD_TARGET@,
            )
            &&& s.template == last_found(
                lines,
                n,
                |text: Seq<char>| gives_template(text),
                RECORD_TEMPLATE@,
            )
            &&& s.duration == last_found(
                lines,
                n,
                |text: Seq<char>| gives_duration(text),
                RECORD_DURATION@,
            )
            &&& s.trace_file == last_found(
                lines,
                n,
                |text: Seq<char>| gives_trace_file(text),
                RECORD_TRACE_FILE@,
            )
            &&& s.trace_size == last_found(
                lines,
                n,
                |text: Seq<char>| gives_trace_size(text),
                RECORD_TRACE_SIZE@,
            )
            &&& s.stacks == lines.filter_map(|line: Seq<char>| stack_on(line))
            &&& s.metrics == lines.filter_map(|line: Seq<char>| metric_on(line))
        }),
{
    let lines = lines_of(without_ansi(output));
    let ls = record_lines(without_ansi(output));
    lemma_recording(lines, lines.len() as int);
    assert(ls.take(lines.len() as int) =~= ls);
    assert(lines.take(lines.len() as int) =~= lines);
}

/// The report has the template with the target, the duration with the size, and the
/// trace, then the stacks, no more than five of them, the first ones, each with its
/// share, and the metrics, all of them.
pub proof fn law_record_layout(s: RecordingView, shares: Seq<Seq<char>>)
    ensures
        ({
            let shown = if s.stacks.len() > 5 {
                5nat
            } else {
                s.stacks.len()
            };
            record_report(s, shares) == trimmed(
                "xctrace record\n"@ + (if s.template.len() == 0 {
                    seq![]
                } else if s.target.len() == 0 {
                    "Template: "@ + s.template + "\n"@
                } else {
                    "Template: "@ + s.template + " | Target: "@ + s.target + "\n"@
                }) + (if s.duration.len() == 0 {
                    seq![]
                } else if s.trace_size.len() == 0 {
                    "Duration: "@ + s.duration + "\n"@
                } else {
                    "Duration: "@ + s.duration + " | Size: "@ + s.trace_size + "\n"@
                }) + (if s.trace_file.len() == 0 {
                    seq![]
                } else {
                    "Trace: "@ + s.trace_file + "\n"@
                }) + (if s.stacks.len() == 0 {
                    seq![]
                } else {
                    "\nHeaviest stacks:\n"@ + listed(
                        Seq::new(shown, |i: int| shares[i] + "%  "@ + s.stacks[i].1),
                        "  "@,
                    )
                }) + (if s.metrics.len() == 0 {
                    seq![]
                } else {
                    "\nMetrics:\n"@ + listed(
                        s.metrics.map_values(|m: (Seq<char>, Seq<char>)| m.0 + ": "@ + m.1),
                        "  "@,
                    )
                }),
            )
        }),
{
    let shown = if s.stacks.len() > 5 {
        5nat
    } else {
        s.stacks.len()
    };
    assert(stack_entries(s.stacks, shares) =~= Seq::new(
        shown,
        |i: int| shares[i] + "%  "@ + s.stacks[i].1,
    ));
    assert(metric_entries(s.metrics) =~= s.metrics.map_values(
        |m: (Seq<char>, Seq<char>)| m.0 + ": "@ + m.1,
    ));
}

/// There is a share for each stack that is shown, and it is what was printed of the
/// digits of that stack.
pub proof fn law_record_shares<F: Fn(&str) -> String>(
    percent: F,
    s: RecordingView,
    shares: Seq<Seq<char>>,
    i: int,
)
    requires
        printed_shares(percent, s, shares),
    ensures
        shares.len() == if s.stacks.len() > 5 {
            5nat
        } else {
            s.stacks.len()
        },
        0 <= i < shares.len() ==> exists|arg: &str, ret: String| #[trigger]
            percent.ensures((arg,), ret) && arg@ == s.stacks[i].0 && ret@ == shares[i],
{
    if 0 <= i < shares.len() {
        assert(prints(percent, s.stacks[i].0, shares[i]));
    }
}

} // verus!
