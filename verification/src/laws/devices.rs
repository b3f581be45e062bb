//! `xcrun xctrace list devices`: which line of the output becomes what in the
//! report.

use crate::ansi::without_ansi;
use crate::cmds::apple::xctrace_cmd::devices::{
    device_line, device_lines, devices_report, inventory_of, list_devices_filtered, os_line,
    os_lines, DeviceLine, InventoryView,
};
use crate::groups::grouped;
use crate::laws::picks::{last_before, lemma_picked_at_next, picked_at};
use crate::pattern::{
    group_text, regex_captures, regex_matches, FoundText, DEVICE_HEADER, DEVICE_OS, SECTION_HEADER,
};
use crate::report::all_listed;
use crate::text::{before_first, decimal, joined, lines_of, occurs, trimmed};
use vstd::prelude::*;

verus! {

/// Whether a line is the header of a section.
pub open spec fn heads(line: Seq<char>) -> bool {
    trimmed(line).len() > 0 && regex_matches(SECTION_HEADER@, trimmed(line))
}

/// Whether a line opens a device.
pub open spec fn opens_device(line: Seq<char>) -> bool {
    trimmed(line).len() > 0 && !heads(line) && regex_matches(DEVICE_HEADER@, trimmed(line))
}

/// Whether the nearest header before a line is about simulators.
pub open spec fn is_simulated(lines: Seq<Seq<char>>, i: int) -> bool {
    match last_before(lines, i, |line: Seq<char>| heads(line)) {
        Some(head) => occurs(
            "Simulator"@,
            group_text(regex_captures(SECTION_HEADER@, trimmed(head)), 1),
        ),
        None => false,
    }
}

/// The name of the device that was opened last before a line.
pub open spec fn device_over(lines: Seq<Seq<char>>, i: int) -> Seq<char> {
    match last_before(lines, i, |line: Seq<char>| opens_device(line)) {
        Some(line) => group_text(regex_captures(DEVICE_HEADER@, trimmed(line)), 1),
        None => seq![],
    }
}

/// The operating system that a line gives, if it gives one.
pub open spec fn os_on(line: Seq<char>) -> Option<Seq<char>> {
    let found = regex_captures(DEVICE_OS@, line);
    if trimmed(line).len() > 0 && !heads(line) && !opens_device(line) && found is Some {
        Some(trimmed(group_text(found, 1)))
    } else {
        None
    }
}

/// A physical device: its name and its operating system.
pub open spec fn physical_at(lines: Seq<Seq<char>>, i: int) -> Option<Seq<char>> {
    match os_on(lines[i]) {
        Some(os) => if is_simulated(lines, i) {
            None
        } else {
            Some(device_over(lines, i) + " ("@ + os + ")"@)
        },
        None => None,
    }
}

/// A simulator: its operating system, without the build in brackets, and its name.
pub open spec fn simulator_at(lines: Seq<Seq<char>>, i: int) -> Option<(Seq<char>, Seq<char>)> {
    match os_on(lines[i]) {
        Some(os) => if is_simulated(lines, i) {
            Some((trimmed(before_first(os, '(')), device_over(lines, i)))
        } else {
            None
        },
        None => None,
    }
}

proof fn lemma_inventory(lines: Seq<Seq<char>>, n: int)
    requires
        0 <= n <= lines.len(),
    ensures
        ({
            let s = inventory_of(lines.map_values(|line: Seq<char>| device_line(line)).take(n));
            &&& s.in_simulators == is_simulated(lines, n)
            &&& s.name == device_over(lines, n)
            &&& s.physical == picked_at(n as nat, |i: int| physical_at(lines, i))
            &&& s.simulators == picked_at(n as nat, |i: int| simulator_at(lines, i))
        }),
    decreases n,
{
    let ls = lines.map_values(|line: Seq<char>| device_line(line));
    if n > 0 {
        let m = (n - 1) as nat;
        lemma_inventory(lines, n - 1);
        assert(ls.take(n).drop_last() =~= ls.take(n - 1));
        assert(ls.take(n).last() == device_line(lines[n - 1]));
        lemma_picked_at_next(m, |i: int| physical_at(lines, i));
        lemma_picked_at_next(m, |i: int| simulator_at(lines, i));
        let s = inventory_of(ls.take(n));
        assert(s.physical =~= picked_at(n as nat, |i: int| physical_at(lines, i)));
        assert(s.simulators =~= picked_at(n as nat, |i: int| simulator_at(lines, i)));
    } else {
        assert(ls.take(0) =~= Seq::<DeviceLine<Seq<char>, FoundText>>::empty());
        assert(picked_at(0, |i: int| physical_at(lines, i)) =~= seq![]);
        assert(picked_at(0, |i: int| simulator_at(lines, i)) =~= seq![]);
    }
}

/// A device is in the inventory for each line that gives an operating system, under
/// the name that was opened last before it; it is a simulator where the nearest
/// header before it says so, and physical elsewhere. All are in the order of the
/// output.
pub proof fn law_devices_are_lines(output: Seq<char>)
    ensures
        ({
            let lines = lines_of(without_ansi(output));
            let s = inventory_of(device_lines(without_ansi(output)));
            &&& s.physical == picked_at(lines.len(), |i: int| physical_at(lines, i))
            &&& s.simulators == picked_at(lines.len(), |i: int| simulator_at(lines, i))
        }),
{
    let lines = lines_of(without_ansi(output));
    let ls = device_lines(without_ansi(output));
    lemma_inventory(lines, lines.len() as int);
    assert(ls.take(lines.len() as int) =~= ls);
}

/// The report has the physical devices, all of them, and the number of simulators,
/// with a line for each operating system that counts and names its simulators.
pub proof fn law_devices_layout(s: InventoryView)
    ensures
        devices_report(s) == trimmed(
            "xctrace devices\n"@ + all_listed("\nPhysical ("@, s.physical) + (
            if s.simulators.len() > 0 {
                "\nSimulators ("@ + decimal(s.simulators.len()) + "):\n"@ + grouped(
                    s.simulators,
                ).map_values(
                    |g: (Seq<char>, Seq<Seq<char>>)|
                        "  "@ + g.0 + " ("@ + decimal(g.1.len()) + "): "@ + joined(g.1, ", "@)
                            + "\n"@,
                ).flatten()
            } else {
                seq![]
            }),
        ),
{
    lemma_os_lines_flat(grouped(s.simulators));
}

proof fn lemma_os_lines_flat(groups: Seq<(Seq<char>, Seq<Seq<char>>)>)
    ensures
        os_lines(groups) == groups.map_values(
            |g: (Seq<char>, Seq<Seq<char>>)|
                "  "@ + g.0 + " ("@ + decimal(g.1.len()) + "): "@ + joined(g.1, ", "@) + "\n"@,
        ).flatten(),
    decreases groups.len(),
{
    let write = |g: (Seq<char>, Seq<Seq<char>>)|
        "  "@ + g.0 + " ("@ + decimal(g.1.len()) + "): "@ + joined(g.1, ", "@) + "\n"@;
    let written = groups.map_values(write);
    written.lemma_flatten_and_flatten_alt_are_equivalent();
    if groups.len() > 0 {
        let g = groups.last();
        lemma_os_lines_flat(groups.drop_last());
        written.drop_last().lemma_flatten_and_flatten_alt_are_equivalent();
        assert(written.drop_last() =~= groups.drop_last().map_values(write));
        assert(os_line(g.0, g.1) == write(g));
    }
}

/// Every output is reported on.
pub proof fn law_devices_reported(output: Seq<char>)
    ensures
        list_devices_filtered(output) == devices_report(
            inventory_of(device_lines(without_ansi(output))),
        ),
{
}

} // verus!
