//! `xctrace list devices`: physical devices with their systems, simulators by
//! system.

use crate::ansi::{strip_ansi, without_ansi};
use crate::groups::{
    group_total, grouped, keys_ascend, law_group_total, law_grouped, lemma_value_has_group, Groups,
};
use crate::pattern::{
    group_text, regex_captures, Found, FoundText, Pattern, DEVICE_HEADER, DEVICE_OS,
    SECTION_HEADER,
};
use crate::report::{
    all_listed, all_listed_text, lemma_joined_keeps, lemma_listed_keeps, lemma_occurs_after_trim,
    lemma_occurs_in_begun, lemma_occurs_in_itself, lemma_occurs_in_middle, lemma_occurs_in_parts,
    is_trimmed, listed,
};
use crate::text::{
    before_first, contains, decimal, decimal_text, is_space, join, joined, lines, lines_of, occurs,
    text_before, trim, trimmed, views,
};
use vstd::prelude::*;

verus! {

// ─── Lines ──────────────────────────────────────────────────────────────────

/// A trimmed line with what each pattern finds in it. `T` is the type of text,
/// `F` that of a search result.
pub struct DeviceLine<T, F> {
    pub text: T,
    pub section: F,
    pub header: F,
    pub os: F,
}

impl View for DeviceLine<String, Found> {
    type V = DeviceLine<Seq<char>, FoundText>;

    open spec fn view(&self) -> DeviceLine<Seq<char>, FoundText> {
        DeviceLine {
            text: self.text@,
            section: self.section@,
            header: self.header@,
            os: self.os@,
        }
    }
}

/// What the patterns find in a line of output. The line on the system is known by
/// its indentation, and searched untrimmed.
pub open spec fn device_line(line: Seq<char>) -> DeviceLine<Seq<char>, FoundText> {
    let text = trimmed(line);
    DeviceLine {
        text,
        section: regex_captures(SECTION_HEADER@, text),
        header: regex_captures(DEVICE_HEADER@, text),
        os: regex_captures(DEVICE_OS@, line),
    }
}

/// What the patterns find in each line of `clean`.
pub open spec fn device_lines(clean: Seq<char>) -> Seq<DeviceLine<Seq<char>, FoundText>> {
    lines_of(clean).map_values(|line: Seq<char>| device_line(line))
}

/// Searches each line of `clean` for the patterns.
pub fn read_device_lines(clean: &str) -> (r: Vec<DeviceLine<String, Found>>)
    ensures
        views(r@) == device_lines(clean@),
{
    let section = Pattern::compile(SECTION_HEADER);
    let header = Pattern::compile(DEVICE_HEADER);
    let os = Pattern::compile(DEVICE_OS);
    let raw = lines(clean);
    let mut out: Vec<DeviceLine<String, Found>> = Vec::new();
    for i in 0..raw.len()
        invariant
            section.source() == SECTION_HEADER@,
            header.source() == DEVICE_HEADER@,
            os.source() == DEVICE_OS@,
            views(raw@) == lines_of(clean@),
            views(out@) == device_lines(clean@).take(i as int),
    {
        let text = trim(raw[i].as_str());
        let line = DeviceLine {
            section: section.captures(text.as_str()),
            header: header.captures(text.as_str()),
            os: os.captures(raw[i].as_str()),
            text,
        };
        assert(line@ == device_line(views(raw@)[i as int]));
        assert(device_lines(clean@)[i as int] == line@);
        let ghost before = views(out@);
        out.push(line);
        assert(views(out@) =~= before.push(line@));
        assert(views(out@) =~= device_lines(clean@).take(i + 1));
    }
    assert(views(out@) =~= device_lines(clean@));
    out
}

// ─── Inventory ──────────────────────────────────────────────────────────────

/// What has been read of a listing, as text sequences.
#[verifier::ext_equal]
pub struct InventoryView {
    pub physical: Seq<Seq<char>>,
    pub simulators: Seq<(Seq<char>, Seq<char>)>,
    pub name: Seq<char>,
    pub in_simulators: bool,
}

/// What has been read of a listing: the physical devices, each with its system;
/// the simulators (system, name); the name of the device to come, and whether it
/// is a simulator.
pub struct Inventory {
    pub physical: Vec<String>,
    pub simulators: Vec<(String, String)>,
    pub name: String,
    pub in_simulators: bool,
}

impl View for Inventory {
    type V = InventoryView;

    open spec fn view(&self) -> InventoryView {
        InventoryView {
            physical: views(self.physical@),
            simulators: views(self.simulators@),
            name: self.name@,
            in_simulators: self.in_simulators,
        }
    }
}

/// Before the first line.
pub open spec fn inventory_start() -> InventoryView {
    InventoryView { physical: seq![], simulators: seq![], name: seq![], in_simulators: false }
}

/// The family and version of a system, without its build number in brackets.
pub open spec fn short_os(os: Seq<char>) -> Seq<char> {
    trimmed(before_first(os, '('))
}

/// What reading one more line makes of what has been read.
pub open spec fn inventory_step(
    s: InventoryView,
    l: DeviceLine<Seq<char>, FoundText>,
) -> InventoryView {
    if l.text.len() == 0 {
        s
    } else if l.section is Some {
        InventoryView { in_simulators: occurs("Simulator"@, group_text(l.section, 1)), ..s }
    } else if l.header is Some {
        InventoryView { name: group_text(l.header, 1), ..s }
    } else if l.os is Some {
        let os = trimmed(group_text(l.os, 1));
        if s.in_simulators {
            InventoryView { simulators: s.simulators.push((short_os(os), s.name)), ..s }
        } else {
            InventoryView { physical: s.physical.push(s.name + " ("@ + os + ")"@), ..s }
        }
    } else {
        s
    }
}

/// What has been read after all the lines.
pub open spec fn inventory_of(ls: Seq<DeviceLine<Seq<char>, FoundText>>) -> InventoryView
    decreases ls.len(),
{
    if ls.len() == 0 {
        inventory_start()
    } else {
        inventory_step(inventory_of(ls.drop_last()), ls.last())
    }
}

impl Inventory {
    /// Before the first line.
    pub fn start() -> (r: Self)
        ensures
            r@ == inventory_start(),
    {
        let r = Inventory {
            physical: Vec::new(),
            simulators: Vec::new(),
            name: String::new(),
            in_simulators: false,
        };
        assert(r@ =~= inventory_start());
        r
    }

    /// Reads one more line.
    pub fn read(&mut self, l: &DeviceLine<String, Found>)
        ensures
            final(self)@ == inventory_step(old(self)@, l@),
    {
        if !l.text.as_str().is_empty() {
            if l.section.is_match() {
                self.in_simulators = contains(l.section.group(1).as_str(), "Simulator");
            } else if l.header.is_match() {
                self.name = l.header.group(1);
            } else if l.os.is_match() {
                let os = trim(l.os.group(1).as_str());
                if self.in_simulators {
                    let short = trim(text_before(os.as_str(), '(').as_str());
                    self.simulators.push((short, self.name.clone()));
                } else {
                    let mut entry = self.name.clone();
                    entry.append(" (");
                    entry.append(os.as_str());
                    entry.append(")");
                    self.physical.push(entry);
                }
            }
        }
        assert(self@ =~= inventory_step(old(self)@, l@));
    }
}

/// Reads the lines of a listing.
pub fn take_inventory(ls: &Vec<DeviceLine<String, Found>>) -> (r: Inventory)
    ensures
        r@ == inventory_of(views(ls@)),
{
    let mut s = Inventory::start();
    let ghost all = views(ls@);
    for i in 0..ls.len()
        invariant
            all == views(ls@),
            s@ == inventory_of(all.take(i as int)),
    {
        assert(all.take(i + 1).drop_last() =~= all.take(i as int));
        s.read(&ls[i]);
    }
    assert(all.take(all.len() as int) =~= all);
    s
}

// ─── Report ─────────────────────────────────────────────────────────────────

/// The line on the simulators of one system.
pub open spec fn os_line(os: Seq<char>, names: Seq<Seq<char>>) -> Seq<char> {
    "  "@ + os + " ("@ + decimal(names.len()) + "): "@ + joined(names, ", "@) + "\n"@
}

/// One line per system.
pub open spec fn os_lines(g: Seq<(Seq<char>, Seq<Seq<char>>)>) -> Seq<char>
    decreases g.len(),
{
    if g.len() == 0 {
        seq![]
    } else {
        os_lines(g.drop_last()) + os_line(g.last().0, g.last().1)
    }
}

/// The simulators by system, if there are any.
pub open spec fn simulators_part(simulators: Seq<(Seq<char>, Seq<char>)>) -> Seq<char> {
    if simulators.len() == 0 {
        seq![]
    } else {
        "\nSimulators ("@ + decimal(simulators.len()) + "):\n"@ + os_lines(grouped(simulators))
    }
}

/// The report before it is trimmed.
pub open spec fn devices_body(s: InventoryView) -> Seq<char> {
    "xctrace devices\n"@ + all_listed("\nPhysical ("@, s.physical) + simulators_part(s.simulators)
}

/// The report on a listing.
pub open spec fn devices_report(s: InventoryView) -> Seq<char> {
    trimmed(devices_body(s))
}

fn os_line_text(os: &str, names: &Vec<String>) -> (r: String)
    ensures
        r@ == os_line(os@, views(names@)),
{
    let mut out = "  ".to_owned();
    out.append(os);
    out.append(" (");
    out.append(decimal_text(names.len()).as_str());
    out.append("): ");
    out.append(join(names, ", ").as_str());
    out.append("\n");
    out
}

fn simulators_text(simulators: &Vec<(String, String)>) -> (r: String)
    ensures
        r@ == simulators_part(views(simulators@)),
{
    if simulators.len() == 0 {
        return String::new();
    }
    let mut groups: Groups<String> = Groups::new();
    let ghost all = views(simulators@);
    for i in 0..simulators.len()
        invariant
            all == views(simulators@),
            groups@ == grouped(all.take(i as int)),
    {
        assert(all.take(i + 1).drop_last() =~= all.take(i as int));
        assert(all.take(i + 1).last() == simulators@[i as int]@);
        groups.add(simulators[i].0.as_str(), simulators[i].1.clone());
    }
    assert(all.take(all.len() as int) =~= all);
    let ghost g = groups@;
    let mut list = String::new();
    for i in 0..groups.entries.len()
        invariant
            g == groups@,
            list@ == os_lines(g.take(i as int)),
    {
        assert(g.take(i + 1).drop_last() =~= g.take(i as int));
        let entry = &groups.entries[i];
        assert(g[i as int] == (entry.0@, views(entry.1@)));
        list.append(os_line_text(entry.0.as_str(), &entry.1).as_str());
    }
    assert(g.take(g.len() as int) =~= g);
    let mut out = "\nSimulators (".to_owned();
    out.append(decimal_text(simulators.len()).as_str());
    out.append("):\n");
    out.append(list.as_str());
    out
}

/// Writes the report on a listing.
pub fn render_devices(s: &Inventory) -> (r: String)
    ensures
        r@ == devices_report(s@),
{
    let mut out = "xctrace devices\n".to_owned();
    out.append(all_listed_text("\nPhysical (", &s.physical).as_str());
    out.append(simulators_text(&s.simulators).as_str());
    trim(out.as_str())
}

/// What the filter makes of raw output.
pub open spec fn list_devices_filtered(output: Seq<char>) -> Seq<char> {
    devices_report(inventory_of(device_lines(without_ansi(output))))
}

/// Condenses the output of `xctrace list devices`.
pub fn filter_list_devices(output: &str) -> (r: String)
    ensures
        r@ == list_devices_filtered(output@),
{
    let clean = strip_ansi(output);
    render_devices(&take_inventory(&read_device_lines(clean.as_str())))
}

// ─── Laws ───────────────────────────────────────────────────────────────────

proof fn lemma_devices_begin(s: InventoryView)
    ensures
        devices_body(s).len() > 0,
        !is_space(devices_body(s)[0]),
{
    reveal_strlit("xctrace devices\n");
    assert(devices_body(s)[0] == "xctrace devices\n"@[0]);
}

/// Every simulator is in the count of its system: the simulators by system add up
/// to the number that the report states, and the systems come in order, none
/// twice.
pub proof fn law_simulators_accounted(s: InventoryView)
    ensures
        group_total(grouped(s.simulators)) == s.simulators.len(),
        keys_ascend(grouped(s.simulators)),
        s.simulators.len() > 0 ==> occurs(
            "Simulators ("@ + decimal(s.simulators.len()) + "):"@,
            devices_report(s),
        ),
{
    law_group_total(s.simulators);
    law_grouped(s.simulators);
    if s.simulators.len() > 0 {
        let needle = "Simulators ("@ + decimal(s.simulators.len()) + "):"@;
        let pre = "xctrace devices\n"@ + all_listed("\nPhysical ("@, s.physical) + "\n"@;
        let post = "\n"@ + os_lines(grouped(s.simulators));
        assert("\nSimulators ("@ =~= "\n"@ + "Simulators ("@ && "):\n"@ =~= "):"@ + "\n"@
            && "):"@.len() > 0 && !is_space("):"@.last())) by {
            reveal_strlit("\nSimulators (");
            reveal_strlit("Simulators (");
            reveal_strlit("\n");
            reveal_strlit("):\n");
            reveal_strlit("):");
        }
        lemma_occurs_in_itself(needle);
        lemma_occurs_in_middle(needle, pre, needle, post);
        assert(pre + needle + post =~= devices_body(s));
        assert(needle.last() == "):"@.last());
        lemma_devices_begin(s);
        lemma_occurs_in_begun(needle, devices_body(s));
    }
}

/// Every physical device is in the report, with its system.
pub proof fn law_physical_devices_kept(ls: Seq<DeviceLine<Seq<char>, FoundText>>, k: int)
    requires
        0 <= k < inventory_of(ls).physical.len(),
    ensures
        occurs(inventory_of(ls).physical[k], devices_report(inventory_of(ls))),
{
    let s = inventory_of(ls);
    let needle = s.physical[k];
    let part = all_listed("\nPhysical ("@, s.physical);
    lemma_physical_ends(ls, k);
    lemma_listed_keeps(s.physical, "  "@, k);
    lemma_occurs_in_parts(
        needle,
        "\nPhysical ("@ + decimal(s.physical.len()) + "):\n"@,
        listed(s.physical, "  "@),
    );
    lemma_occurs_in_middle(needle, "xctrace devices\n"@, part, simulators_part(s.simulators));
    lemma_devices_begin(s);
    lemma_occurs_in_begun(needle, devices_body(s));
}

proof fn lemma_physical_ends(ls: Seq<DeviceLine<Seq<char>, FoundText>>, k: int)
    requires
        0 <= k < inventory_of(ls).physical.len(),
    ensures
        inventory_of(ls).physical[k].len() > 0,
        inventory_of(ls).physical[k].last() == ')',
    decreases ls.len(),
{
    let before = inventory_of(ls.drop_last());
    if k < before.physical.len() {
        lemma_physical_ends(ls.drop_last(), k);
    } else {
        reveal_strlit(")");
    }
}

proof fn lemma_os_lines_keep(g: Seq<(Seq<char>, Seq<Seq<char>>)>, i: int, j: int)
    requires
        0 <= i < g.len(),
        0 <= j < g[i].1.len(),
    ensures
        occurs(g[i].1[j], os_lines(g)),
    decreases g.len(),
{
    let name = g[i].1[j];
    let before = os_lines(g.drop_last());
    let line = os_line(g.last().0, g.last().1);
    if i < g.len() - 1 {
        lemma_os_lines_keep(g.drop_last(), i, j);
    } else {
        let head = "  "@ + g[i].0 + " ("@ + decimal(g[i].1.len()) + "): "@;
        lemma_joined_keeps(g[i].1, ", "@, j);
        lemma_occurs_in_middle(name, head, joined(g[i].1, ", "@), "\n"@);
    }
    lemma_occurs_in_parts(name, before, line);
}

/// Every simulator whose name is without whitespace at its ends is in the report,
/// in the line on its system.
pub proof fn law_simulators_kept(s: InventoryView, k: int)
    requires
        0 <= k < s.simulators.len(),
        is_trimmed(s.simulators[k].1),
    ensures
        occurs(s.simulators[k].1, devices_report(s)),
        exists|i: int|
            #![trigger grouped(s.simulators)[i]]
            0 <= i < grouped(s.simulators).len() && grouped(s.simulators)[i].0
                == s.simulators[k].0 && grouped(s.simulators)[i].1.contains(s.simulators[k].1),
{
    let g = grouped(s.simulators);
    let name = s.simulators[k].1;
    let (i, j) = lemma_value_has_group(s.simulators, k);
    lemma_os_lines_keep(g, i, j);
    let head = "\nSimulators ("@ + decimal(s.simulators.len()) + "):\n"@;
    lemma_occurs_in_parts(name, head, os_lines(g));
    lemma_occurs_in_parts(
        name,
        "xctrace devices\n"@ + all_listed("\nPhysical ("@, s.physical),
        simulators_part(s.simulators),
    );
    lemma_occurs_after_trim(name, devices_body(s));
}

} // verus!
