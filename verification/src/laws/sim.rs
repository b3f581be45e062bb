//! `xcrun simctl list`: which line of the output becomes what in the report.

use crate::ansi::without_ansi;
use crate::cmds::apple::simctl_cmd::{
    booted_devices, booted_names, by_runtime_part, runtime_line, runtime_lines, runtimes_part,
    sim_body, sim_line, sim_lines, sim_report, sim_section_of, simctl_list_filtered, surveyed,
    unavailable_part, with_runtime, SimLine, SimSection, SurveyView,
};
use crate::groups::grouped;
use crate::laws::layouts::law_values_grouped;
use crate::laws::picks::{last_before, last_position, lemma_picked_at_next, picked_at};
use crate::pattern::{
    group_text, regex_captures, regex_matches, FoundText, DEVICE_GROUP, RUNTIME, SECTION_HEADER,
    SIM_DEVICE, UNAVAILABLE,
};
use crate::report::{all_listed, lemma_decimal_ends_in_digit, lemma_head_first};
use crate::text::{begins_with, decimal, is_space, joined, lines_of, trimmed, utf8_len};
use vstd::prelude::*;

verus! {

/// Whether a line is the header of a section.
pub open spec fn heads(line: Seq<char>) -> bool {
    trimmed(line).len() > 0 && regex_matches(SECTION_HEADER@, trimmed(line))
}

/// Whether a line says that what follows is unavailable.
pub open spec fn tells_unavailable(line: Seq<char>) -> bool {
    trimmed(line).len() > 0 && regex_matches(UNAVAILABLE@, trimmed(line))
}

/// Whether a line is neither empty nor a header, and the nearest header before it
/// has this title.
pub open spec fn stands_under(lines: Seq<Seq<char>>, i: int, title: Seq<char>) -> bool {
    &&& trimmed(lines[i]).len() > 0
    &&& !heads(lines[i])
    &&& match last_before(lines, i, |line: Seq<char>| heads(line)) {
        Some(head) => group_text(regex_captures(SECTION_HEADER@, trimmed(head)), 1) == title,
        None => false,
    }
}

/// Whether the nearest line before that is a header or says that what follows is
/// unavailable says the latter.
pub open spec fn is_stale(lines: Seq<Seq<char>>, i: int) -> bool {
    match last_before(lines, i, |line: Seq<char>| heads(line) || tells_unavailable(line)) {
        Some(line) => !heads(line),
        None => false,
    }
}

/// Whether a line among the devices is about what is available.
pub open spec fn is_available(lines: Seq<Seq<char>>, i: int) -> bool {
    stands_under(lines, i, "Devices"@) && !is_stale(lines, i) && !tells_unavailable(lines[i])
}

/// Whether a line opens the devices of a runtime.
pub open spec fn opens_runtime(lines: Seq<Seq<char>>, i: int) -> bool {
    is_available(lines, i) && regex_matches(DEVICE_GROUP@, trimmed(lines[i]))
}

/// The runtime that was opened last before a line.
pub open spec fn runtime_over(lines: Seq<Seq<char>>, i: int) -> Seq<char> {
    match last_position(i, |j: int| opens_runtime(lines, j)) {
        Some(j) => group_text(regex_captures(DEVICE_GROUP@, trimmed(lines[j])), 1),
        None => seq![],
    }
}

/// A device type: any line under their header.
pub open spec fn type_at(lines: Seq<Seq<char>>, i: int) -> Option<int> {
    if stands_under(lines, i, "Device Types"@) {
        Some(i)
    } else {
        None
    }
}

/// A runtime: a line under their header that matches the pattern of runtimes.
pub open spec fn runtime_at(lines: Seq<Seq<char>>, i: int) -> Option<Seq<char>> {
    if stands_under(lines, i, "Runtimes"@) && regex_matches(RUNTIME@, trimmed(lines[i])) {
        Some(group_text(regex_captures(RUNTIME@, trimmed(lines[i])), 1))
    } else {
        None
    }
}

/// A device: an available line that matches the pattern of devices, with the runtime
/// over it, its name, and whether it is booted.
pub open spec fn device_at(lines: Seq<Seq<char>>, i: int) -> Option<
    (Seq<char>, (Seq<char>, bool)),
> {
    let found = regex_captures(SIM_DEVICE@, trimmed(lines[i]));
    if is_available(lines, i) && !opens_runtime(lines, i) && found is Some {
        Some(
            (runtime_over(lines, i), (group_text(found, 1), group_text(found, 2) == "Booted"@)),
        )
    } else {
        None
    }
}

/// An unavailable device: a line among the devices behind one that says so, up to
/// the next header, that opens no group.
pub open spec fn stale_at(lines: Seq<Seq<char>>, i: int) -> Option<int> {
    if stands_under(lines, i, "Devices"@) && is_stale(lines, i) && !tells_unavailable(lines[i])
        && !regex_matches(DEVICE_GROUP@, trimmed(lines[i])) {
        Some(i)
    } else {
        None
    }
}

/// A pair: a line under their header that begins with a hexadecimal digit and is at
/// least as long as an identifier.
pub open spec fn pair_at(lines: Seq<Seq<char>>, i: int) -> Option<int> {
    let text = trimmed(lines[i]);
    if stands_under(lines, i, "Device Pairs"@) && utf8_len(text) >= 36 && (('0' <= text[0]
        && text[0] <= '9') || ('a' <= text[0] && text[0] <= 'f') || ('A' <= text[0] && text[0]
        <= 'F')) {
        Some(i)
    } else {
        None
    }
}

proof fn lemma_titles()
    ensures
        "Device Types"@ != "Runtimes"@,
        "Device Types"@ != "Devices"@,
        "Device Types"@ != "Device Pairs"@,
        "Runtimes"@ != "Devices"@,
        "Runtimes"@ != "Device Pairs"@,
        "Devices"@ != "Device Pairs"@,
{
    reveal_strlit("Device Types");
    reveal_strlit("Runtimes");
    reveal_strlit("Devices");
    reveal_strlit("Device Pairs");
    assert("Device Types"@.len() == 12);
    assert("Device Pairs"@.len() == 12);
    assert("Device Types"@[7] != "Device Pairs"@[7]);
    assert("Runtimes"@.len() == 8);
    assert("Devices"@.len() == 7);
}

/// What the survey knows after the first `n` lines.
proof fn lemma_surveyed(lines: Seq<Seq<char>>, n: int)
    requires
        0 <= n <= lines.len(),
    ensures
        ({
            let s = surveyed(lines.map_values(|line: Seq<char>| sim_line(line)).take(n));
            &&& s.section == (match last_before(lines, n, |line: Seq<char>| heads(line)) {
                Some(head) => sim_section_of(
                    group_text(regex_captures(SECTION_HEADER@, trimmed(head)), 1),
                ),
                None => SimSection::Other,
            })
            &&& s.section is Devices ==> s.in_unavailable == is_stale(lines, n)
            &&& s.current == runtime_over(lines, n)
            &&& s.device_types == picked_at(n as nat, |i: int| type_at(lines, i)).len()
            &&& s.runtimes == picked_at(n as nat, |i: int| runtime_at(lines, i))
            &&& s.devices == picked_at(n as nat, |i: int| device_at(lines, i))
            &&& s.unavailable == picked_at(n as nat, |i: int| stale_at(lines, i)).len()
            &&& s.pairs == picked_at(n as nat, |i: int| pair_at(lines, i)).len()
        }),
    decreases n,
{
    let ls = lines.map_values(|line: Seq<char>| sim_line(line));
    if n > 0 {
        let m = (n - 1) as nat;
        lemma_surveyed(lines, n - 1);
        lemma_titles();
        assert(ls.take(n).drop_last() =~= ls.take(n - 1));
        assert(ls.take(n).last() == sim_line(lines[n - 1]));
        lemma_picked_at_next(m, |i: int| type_at(lines, i));
        lemma_picked_at_next(m, |i: int| runtime_at(lines, i));
        lemma_picked_at_next(m, |i: int| device_at(lines, i));
        lemma_picked_at_next(m, |i: int| stale_at(lines, i));
        lemma_picked_at_next(m, |i: int| pair_at(lines, i));
        let s = surveyed(ls.take(n));
        assert(s.runtimes =~= picked_at(n as nat, |i: int| runtime_at(lines, i)));
        assert(s.devices =~= picked_at(n as nat, |i: int| device_at(lines, i)));
    } else {
        assert(ls.take(0) =~= Seq::<SimLine<Seq<char>, FoundText>>::empty());
        assert(picked_at(0, |i: int| runtime_at(lines, i)) =~= seq![]);
        assert(picked_at(0, |i: int| device_at(lines, i)) =~= seq![]);
    }
}

/// The number of device types is the number of lines that are neither empty nor
/// headers and whose nearest header before them is that of the device types. The
/// runtimes, the devices, the unavailable devices and the pairs are found under
/// their headers in the same way.
pub proof fn law_sim_survey_is_lines(output: Seq<char>)
    ensures
        ({
            let lines = lines_of(without_ansi(output));
            let s = surveyed(sim_lines(without_ansi(output)));
            &&& s.device_types == picked_at(lines.len(), |i: int| type_at(lines, i)).len()
            &&& s.runtimes == picked_at(lines.len(), |i: int| runtime_at(lines, i))
            &&& s.devices == picked_at(lines.len(), |i: int| device_at(lines, i))
            &&& s.unavailable == picked_at(lines.len(), |i: int| stale_at(lines, i)).len()
            &&& s.pairs == picked_at(lines.len(), |i: int| pair_at(lines, i)).len()
        }),
{
    let lines = lines_of(without_ansi(output));
    let ls = sim_lines(without_ansi(output));
    lemma_surveyed(lines, lines.len() as int);
    assert(ls.take(lines.len() as int) =~= ls);
}

/// The report begins with the title and the counts. Then come the runtimes, the
/// booted devices, the number of unavailable devices, and the devices by runtime,
/// each part only where there is something to report.
pub proof fn law_sim_layout(s: SurveyView)
    ensures
        ({
            let groups = grouped(s.devices);
            let booted = groups.map_values(
                |g: (Seq<char>, Seq<(Seq<char>, bool)>)|
                    g.1.filter_map(
                        |d: (Seq<char>, bool)|
                            if d.1 {
                                Some(d.0 + " ("@ + g.0 + ")"@)
                            } else {
                                None
                            },
                    ),
            ).flatten();
            sim_report(s) == trimmed(
                "simctl list\n"@ + ("Device types: "@ + decimal(s.device_types) + " | Runtimes: "@
                    + decimal(s.runtimes.len()) + " | Devices: "@ + decimal(s.devices.len())
                    + " | Pairs: "@ + decimal(s.pairs) + "\n"@) + (if s.runtimes.len() > 0 {
                    "\nRuntimes: "@ + joined(s.runtimes, ", "@) + "\n"@
                } else {
                    seq![]
                }) + all_listed("\nBooted ("@, booted) + (if s.unavailable > 0 {
                    "\n"@ + decimal(s.unavailable) + " unavailable devices (stale runtimes)\n"@
                } else {
                    seq![]
                }) + (if s.devices.len() > 0 {
                    "\nDevices by runtime:\n"@ + groups.map_values(
                        |g: (Seq<char>, Seq<(Seq<char>, bool)>)| line_of_runtime(g.0, g.1),
                    ).flatten()
                } else {
                    seq![]
                }),
            )
        }),
{
    let groups = grouped(s.devices);
    lemma_booted_flat(groups);
    lemma_runtimes_flat(groups);
    lemma_no_groups(s.devices);
}

/// The line of a runtime: how many devices it has, and how many of them are booted
/// where any is.
pub open spec fn line_of_runtime(runtime: Seq<char>, devs: Seq<(Seq<char>, bool)>) -> Seq<char> {
    let booted = devs.filter(|d: (Seq<char>, bool)| d.1).len();
    "  "@ + runtime + ": "@ + decimal(devs.len()) + (if booted > 0 {
        " ("@ + decimal(booted) + " booted)\n"@
    } else {
        "\n"@
    })
}

proof fn lemma_no_groups(devices: Seq<(Seq<char>, (Seq<char>, bool))>)
    ensures
        grouped(devices).len() == 0 <==> devices.len() == 0,
{
    if devices.len() > 0 {
        law_values_grouped(devices, 0);
    }
}

proof fn lemma_booted_counted(devs: Seq<(Seq<char>, bool)>)
    ensures
        booted_names(devs).len() == devs.filter(|d: (Seq<char>, bool)| d.1).len(),
    decreases devs.len(),
{
    reveal(Seq::filter);
    if devs.len() > 0 {
        lemma_booted_counted(devs.drop_last());
    }
}

proof fn lemma_booted_with_runtime(devs: Seq<(Seq<char>, bool)>, runtime: Seq<char>)
    ensures
        with_runtime(booted_names(devs), runtime) == devs.filter_map(
            |d: (Seq<char>, bool)|
                if d.1 {
                    Some(d.0 + " ("@ + runtime + ")"@)
                } else {
                    None
                },
        ),
    decreases devs.len(),
{
    if devs.len() > 0 {
        lemma_booted_with_runtime(devs.drop_last(), runtime);
    }
    assert(with_runtime(booted_names(devs), runtime) =~= devs.filter_map(
        |d: (Seq<char>, bool)|
            if d.1 {
                Some(d.0 + " ("@ + runtime + ")"@)
            } else {
                None
            },
    ));
}

proof fn lemma_booted_flat(groups: Seq<(Seq<char>, Seq<(Seq<char>, bool)>)>)
    ensures
        booted_devices(groups) == groups.map_values(
            |g: (Seq<char>, Seq<(Seq<char>, bool)>)|
                g.1.filter_map(
                    |d: (Seq<char>, bool)|
                        if d.1 {
                            Some(d.0 + " ("@ + g.0 + ")"@)
                        } else {
                            None
                        },
                ),
        ).flatten(),
    decreases groups.len(),
{
    let write = |g: (Seq<char>, Seq<(Seq<char>, bool)>)|
        g.1.filter_map(
            |d: (Seq<char>, bool)|
                if d.1 {
                    Some(d.0 + " ("@ + g.0 + ")"@)
                } else {
                    None
                },
        );
    let written = groups.map_values(write);
    written.lemma_flatten_and_flatten_alt_are_equivalent();
    if groups.len() > 0 {
        lemma_booted_flat(groups.drop_last());
        written.drop_last().lemma_flatten_and_flatten_alt_are_equivalent();
        assert(written.drop_last() =~= groups.drop_last().map_values(write));
        lemma_booted_with_runtime(groups.last().1, groups.last().0);
    }
}

proof fn lemma_runtimes_flat(groups: Seq<(Seq<char>, Seq<(Seq<char>, bool)>)>)
    ensures
        runtime_lines(groups) == groups.map_values(
            |g: (Seq<char>, Seq<(Seq<char>, bool)>)| line_of_runtime(g.0, g.1),
        ).flatten(),
    decreases groups.len(),
{
    let write = |g: (Seq<char>, Seq<(Seq<char>, bool)>)| line_of_runtime(g.0, g.1);
    let written = groups.map_values(write);
    written.lemma_flatten_and_flatten_alt_are_equivalent();
    if groups.len() > 0 {
        let g = groups.last();
        lemma_runtimes_flat(groups.drop_last());
        written.drop_last().lemma_flatten_and_flatten_alt_are_equivalent();
        assert(written.drop_last() =~= groups.drop_last().map_values(write));
        lemma_booted_counted(g.1);
        assert(runtime_line(g.0, g.1) =~= line_of_runtime(g.0, g.1));
    }
}

/// The report begins with the counts, and they are those of the lines: the number
/// behind `Device types: ` is the number of lines under the header of the device
/// types, and so on.
pub proof fn law_sim_counts_reported(output: Seq<char>)
    ensures
        ({
            let lines = lines_of(without_ansi(output));
            begins_with(
                simctl_list_filtered(output),
                "simctl list\n"@ + ("Device types: "@ + decimal(
                    picked_at(lines.len(), |i: int| type_at(lines, i)).len(),
                ) + " | Runtimes: "@ + decimal(
                    picked_at(lines.len(), |i: int| runtime_at(lines, i)).len(),
                ) + " | Devices: "@ + decimal(
                    picked_at(lines.len(), |i: int| device_at(lines, i)).len(),
                ) + " | Pairs: "@ + decimal(
                    picked_at(lines.len(), |i: int| pair_at(lines, i)).len(),
                )),
            )
        }),
{
    let lines = lines_of(without_ansi(output));
    let s = surveyed(sim_lines(without_ansi(output)));
    law_sim_survey_is_lines(output);
    let title = "simctl list\n"@;
    let counts = "Device types: "@ + decimal(s.device_types) + " | Runtimes: "@ + decimal(
        s.runtimes.len(),
    ) + " | Devices: "@ + decimal(s.devices.len()) + " | Pairs: "@ + decimal(s.pairs);
    let head = title + counts;
    let g = grouped(s.devices);
    let a = runtimes_part(s.runtimes);
    let b = all_listed("\nBooted ("@, booted_devices(g));
    let c = unavailable_part(s.unavailable);
    let d = by_runtime_part(g);
    lemma_begun(title, counts, "\n"@, a, b, c, d);
    assert(sim_body(s) == head + ("\n"@ + a + b + c + d));
    assert(head.len() > 0 && !is_space(head[0])) by {
        reveal_strlit("simctl list\n");
    }
    lemma_decimal_ends_in_digit(s.pairs);
    assert(head.last() == decimal(s.pairs).last());
    lemma_head_first(head, "\n"@ + a + b + c + d);
}

proof fn lemma_begun(
    a: Seq<char>,
    b: Seq<char>,
    c: Seq<char>,
    d: Seq<char>,
    e: Seq<char>,
    f: Seq<char>,
    g: Seq<char>,
)
    ensures
        a + (b + c) + d + e + f + g == (a + b) + (c + d + e + f + g),
{
    assert(a + (b + c) + d + e + f + g =~= (a + b) + (c + d + e + f + g));
}

/// Every output is reported on.
pub proof fn law_sim_reported(output: Seq<char>)
    ensures
        simctl_list_filtered(output) == sim_report(surveyed(sim_lines(without_ansi(output)))),
{
}

} // verus!
