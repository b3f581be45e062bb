//! Filters `xcrun simctl list` output: sums up the sections on device types,
//! runtimes, devices and device pairs, and points out the booted devices.

use crate::ansi::{strip_ansi, without_ansi};
use crate::groups::{
    group_total, grouped, keys_ascend, law_group_total, law_grouped, lemma_value_has_group, Groups,
};
use crate::invocation::{
    asks_for, behind, copied, notice, notice_of, Filter, Invocation, InvocationView,
};
use crate::pattern::{
    group_text, regex_captures, regex_matches, Found, FoundText, Pattern, DEVICE_GROUP, RUNTIME,
    SECTION_HEADER, SIM_DEVICE, UNAVAILABLE,
};
use crate::report::{
    all_listed, all_listed_text, law_picked_in_order, lemma_decimal_ends_in_digit,
    lemma_listed_keeps, lemma_occurs_in_begun, lemma_occurs_in_itself, lemma_occurs_in_middle,
    lemma_occurs_in_parts, lemma_part_kept, listed,
};
use crate::text::{
    chars_of, decimal, decimal_text, has_bytes, is_space, join, joined, lines, lines_of, occurs,
    same_text, trim, trimmed, utf8_len, views,
};
use vstd::prelude::*;

verus! {

// ─── Lines ──────────────────────────────────────────────────────────────────

/// A trimmed line with what each pattern finds in it. `T` is the type of text,
/// `F` that of a search result.
pub struct SimLine<T, F> {
    pub text: T,
    pub section: F,
    pub runtime: F,
    pub unavailable: bool,
    pub group: F,
    pub device: F,
}

impl View for SimLine<String, Found> {
    type V = SimLine<Seq<char>, FoundText>;

    open spec fn view(&self) -> SimLine<Seq<char>, FoundText> {
        SimLine {
            text: self.text@,
            section: self.section@,
            runtime: self.runtime@,
            unavailable: self.unavailable,
            group: self.group@,
            device: self.device@,
        }
    }
}

/// What the patterns find in a line of output.
pub open spec fn sim_line(line: Seq<char>) -> SimLine<Seq<char>, FoundText> {
    let text = trimmed(line);
    SimLine {
        text,
        section: regex_captures(SECTION_HEADER@, text),
        runtime: regex_captures(RUNTIME@, text),
        unavailable: regex_matches(UNAVAILABLE@, text),
        group: regex_captures(DEVICE_GROUP@, text),
        device: regex_captures(SIM_DEVICE@, text),
    }
}

/// What the patterns find in each line of `clean`.
pub open spec fn sim_lines(clean: Seq<char>) -> Seq<SimLine<Seq<char>, FoundText>> {
    lines_of(clean).map_values(|line: Seq<char>| sim_line(line))
}

/// Searches each line of `clean` for the patterns.
pub fn read_sim_lines(clean: &str) -> (r: Vec<SimLine<String, Found>>)
    ensures
        views(r@) == sim_lines(clean@),
{
    let section = Pattern::compile(SECTION_HEADER);
    let runtime = Pattern::compile(RUNTIME);
    let unavailable = Pattern::compile(UNAVAILABLE);
    let group = Pattern::compile(DEVICE_GROUP);
    let device = Pattern::compile(SIM_DEVICE);
    let raw = lines(clean);
    let mut out: Vec<SimLine<String, Found>> = Vec::new();
    for i in 0..raw.len()
        invariant
            section.source() == SECTION_HEADER@,
            runtime.source() == RUNTIME@,
            unavailable.source() == UNAVAILABLE@,
            group.source() == DEVICE_GROUP@,
            device.source() == SIM_DEVICE@,
            views(raw@) == lines_of(clean@),
            views(out@) == sim_lines(clean@).take(i as int),
    {
        let text = trim(raw[i].as_str());
        let line = SimLine {
            section: section.captures(text.as_str()),
            runtime: runtime.captures(text.as_str()),
            unavailable: unavailable.is_match(text.as_str()),
            group: group.captures(text.as_str()),
            device: device.captures(text.as_str()),
            text,
        };
        assert(line@ == sim_line(views(raw@)[i as int]));
        assert(sim_lines(clean@)[i as int] == line@);
        let ghost before = views(out@);
        out.push(line);
        assert(views(out@) =~= before.push(line@));
        assert(views(out@) =~= sim_lines(clean@).take(i + 1));
    }
    assert(views(out@) =~= sim_lines(clean@));
    out
}

// ─── Survey ─────────────────────────────────────────────────────────────────

/// The section of the listing that a line stands in.
#[derive(Clone, Copy, PartialEq, Eq, Structural)]
pub enum SimSection {
    Other,
    DeviceTypes,
    Runtimes,
    Devices,
    Pairs,
}

/// What has been read of a listing, as text sequences.
#[verifier::ext_equal]
pub struct SurveyView {
    pub section: SimSection,
    pub device_types: nat,
    pub runtimes: Seq<Seq<char>>,
    pub devices: Seq<(Seq<char>, (Seq<char>, bool))>,
    pub current: Seq<char>,
    pub pairs: nat,
    pub unavailable: nat,
    pub in_unavailable: bool,
}

/// What has been read of a listing: the section, the number of device types, the
/// runtimes, the devices (runtime, name, whether booted), the runtime of the
/// devices to come, the numbers of device pairs and of devices of runtimes that
/// are gone, and whether the devices to come are such.
pub struct Survey {
    pub section: SimSection,
    pub device_types: usize,
    pub runtimes: Vec<String>,
    pub devices: Vec<(String, (String, bool))>,
    pub current: String,
    pub pairs: usize,
    pub unavailable: usize,
    pub in_unavailable: bool,
}

impl View for Survey {
    type V = SurveyView;

    open spec fn view(&self) -> SurveyView {
        SurveyView {
            section: self.section,
            device_types: self.device_types as nat,
            runtimes: views(self.runtimes@),
            devices: views(self.devices@),
            current: self.current@,
            pairs: self.pairs as nat,
            unavailable: self.unavailable as nat,
            in_unavailable: self.in_unavailable,
        }
    }
}

/// Before the first line.
pub open spec fn survey_start() -> SurveyView {
    SurveyView {
        section: SimSection::Other,
        device_types: 0,
        runtimes: seq![],
        devices: seq![],
        current: seq![],
        pairs: 0,
        unavailable: 0,
        in_unavailable: false,
    }
}

/// The section that a title opens.
pub open spec fn sim_section_of(title: Seq<char>) -> SimSection {
    if title == "Device Types"@ {
        SimSection::DeviceTypes
    } else if title == "Runtimes"@ {
        SimSection::Runtimes
    } else if title == "Devices"@ {
        SimSection::Devices
    } else if title == "Device Pairs"@ {
        SimSection::Pairs
    } else {
        SimSection::Other
    }
}

/// An ASCII hexadecimal digit.
pub open spec fn is_hex_digit(c: char) -> bool {
    '0' <= c <= '9' || 'a' <= c <= 'f' || 'A' <= c <= 'F'
}

/// Whether a line of the section on pairs is the head of a pair: at least as many
/// bytes as a UUID has, the first of them a hexadecimal digit.
pub open spec fn is_pair_head(text: Seq<char>) -> bool {
    text.len() > 0 && utf8_len(text) >= 36 && is_hex_digit(text[0])
}

/// A line of the section on devices.
pub open spec fn device_read(s: SurveyView, l: SimLine<Seq<char>, FoundText>) -> SurveyView {
    if l.unavailable {
        SurveyView { in_unavailable: true, ..s }
    } else if l.group is Some {
        if s.in_unavailable {
            s
        } else {
            SurveyView { current: group_text(l.group, 1), ..s }
        }
    } else if s.in_unavailable {
        SurveyView { unavailable: s.unavailable + 1, ..s }
    } else if l.device is Some {
        SurveyView {
            devices: s.devices.push(
                (s.current, (group_text(l.device, 1), group_text(l.device, 2) == "Booted"@)),
            ),
            ..s
        }
    } else {
        s
    }
}

/// What reading one more line makes of what has been read.
pub open spec fn survey_step(s: SurveyView, l: SimLine<Seq<char>, FoundText>) -> SurveyView {
    if l.text.len() == 0 {
        s
    } else if l.section is Some {
        SurveyView {
            section: sim_section_of(group_text(l.section, 1)),
            in_unavailable: false,
            ..s
        }
    } else {
        match s.section {
            SimSection::DeviceTypes => SurveyView { device_types: s.device_types + 1, ..s },
            SimSection::Runtimes => if l.runtime is Some {
                SurveyView { runtimes: s.runtimes.push(group_text(l.runtime, 1)), ..s }
            } else {
                s
            },
            SimSection::Devices => device_read(s, l),
            SimSection::Pairs => if is_pair_head(l.text) {
                SurveyView { pairs: s.pairs + 1, ..s }
            } else {
                s
            },
            SimSection::Other => s,
        }
    }
}

/// What has been read after all the lines.
pub open spec fn surveyed(ls: Seq<SimLine<Seq<char>, FoundText>>) -> SurveyView
    decreases ls.len(),
{
    if ls.len() == 0 {
        survey_start()
    } else {
        survey_step(surveyed(ls.drop_last()), ls.last())
    }
}

fn title_section(title: &str) -> (r: SimSection)
    ensures
        r == sim_section_of(title@),
{
    if same_text(title, "Device Types") {
        SimSection::DeviceTypes
    } else if same_text(title, "Runtimes") {
        SimSection::Runtimes
    } else if same_text(title, "Devices") {
        SimSection::Devices
    } else if same_text(title, "Device Pairs") {
        SimSection::Pairs
    } else {
        SimSection::Other
    }
}

fn pair_head(text: &str) -> (r: bool)
    ensures
        r == is_pair_head(text@),
{
    let cs = chars_of(text);
    if cs.len() == 0 {
        return false;
    }
    let c = cs[0];
    let hex = ('0' <= c && c <= '9') || ('a' <= c && c <= 'f') || ('A' <= c && c <= 'F');
    hex && has_bytes(text, 36)
}

impl Survey {
    /// None of the counts is at the end of its range.
    pub open spec fn can_count(&self) -> bool {
        self.device_types < usize::MAX && self.pairs < usize::MAX && self.unavailable < usize::MAX
    }

    /// Before the first line.
    pub fn start() -> (r: Self)
        ensures
            r@ == survey_start(),
    {
        let r = Survey {
            section: SimSection::Other,
            device_types: 0,
            runtimes: Vec::new(),
            devices: Vec::new(),
            current: String::new(),
            pairs: 0,
            unavailable: 0,
            in_unavailable: false,
        };
        assert(r@ =~= survey_start());
        r
    }

    fn read_device(&mut self, l: &SimLine<String, Found>)
        requires
            old(self).can_count(),
        ensures
            final(self)@ == device_read(old(self)@, l@),
    {
        if l.unavailable {
            self.in_unavailable = true;
        } else if l.group.is_match() {
            if !self.in_unavailable {
                self.current = l.group.group(1);
            }
        } else if self.in_unavailable {
            self.unavailable = self.unavailable + 1;
        } else if l.device.is_match() {
            let booted = same_text(l.device.group(2).as_str(), "Booted");
            self.devices.push((self.current.clone(), (l.device.group(1), booted)));
        }
        assert(self@ =~= device_read(old(self)@, l@));
    }

    /// Reads one more line.
    pub fn read(&mut self, l: &SimLine<String, Found>)
        requires
            old(self).can_count(),
        ensures
            final(self)@ == survey_step(old(self)@, l@),
    {
        if !l.text.as_str().is_empty() {
            if l.section.is_match() {
                self.section = title_section(l.section.group(1).as_str());
                self.in_unavailable = false;
            } else {
                match self.section {
                    SimSection::DeviceTypes => {
                        self.device_types = self.device_types + 1;
                    },
                    SimSection::Runtimes => {
                        if l.runtime.is_match() {
                            self.runtimes.push(l.runtime.group(1));
                        }
                    },
                    SimSection::Devices => {
                        self.read_device(l);
                    },
                    SimSection::Pairs => {
                        if pair_head(l.text.as_str()) {
                            self.pairs = self.pairs + 1;
                        }
                    },
                    SimSection::Other => {},
                }
            }
        }
        assert(self@ =~= survey_step(old(self)@, l@));
    }
}

proof fn lemma_counts_bounded(ls: Seq<SimLine<Seq<char>, FoundText>>)
    ensures
        surveyed(ls).device_types <= ls.len(),
        surveyed(ls).pairs <= ls.len(),
        surveyed(ls).unavailable <= ls.len(),
    decreases ls.len(),
{
    if ls.len() > 0 {
        lemma_counts_bounded(ls.drop_last());
    }
}

/// Reads a listing.
pub fn survey_devices(ls: &Vec<SimLine<String, Found>>) -> (r: Survey)
    ensures
        r@ == surveyed(views(ls@)),
{
    let mut s = Survey::start();
    let ghost all = views(ls@);
    for i in 0..ls.len()
        invariant
            all == views(ls@),
            s@ == surveyed(all.take(i as int)),
    {
        proof {
            lemma_counts_bounded(all.take(i as int));
            assert(all.take(i + 1).drop_last() =~= all.take(i as int));
        }
        s.read(&ls[i]);
    }
    assert(all.take(all.len() as int) =~= all);
    s
}

// ─── Report ─────────────────────────────────────────────────────────────────

/// The names of the booted devices among `devs`.
pub open spec fn booted_names(devs: Seq<(Seq<char>, bool)>) -> Seq<Seq<char>> {
    devs.filter_map(
        |d: (Seq<char>, bool)|
            if d.1 {
                Some(d.0)
            } else {
                None
            },
    )
}

/// `name (runtime)` for each name.
pub open spec fn with_runtime(names: Seq<Seq<char>>, runtime: Seq<char>) -> Seq<Seq<char>> {
    names.map_values(|name: Seq<char>| name + " ("@ + runtime + ")"@)
}

/// `name (runtime)` for each booted device, runtime by runtime.
pub open spec fn booted_devices(g: Seq<(Seq<char>, Seq<(Seq<char>, bool)>)>) -> Seq<Seq<char>>
    decreases g.len(),
{
    if g.len() == 0 {
        seq![]
    } else {
        booted_devices(g.drop_last()) + with_runtime(booted_names(g.last().1), g.last().0)
    }
}

/// The line on the devices of one runtime.
pub open spec fn runtime_line(runtime: Seq<char>, devs: Seq<(Seq<char>, bool)>) -> Seq<char> {
    let booted = booted_names(devs).len();
    if booted > 0 {
        "  "@ + runtime + ": "@ + decimal(devs.len()) + " ("@ + decimal(booted) + " booted)\n"@
    } else {
        "  "@ + runtime + ": "@ + decimal(devs.len()) + "\n"@
    }
}

/// One line per runtime.
pub open spec fn runtime_lines(g: Seq<(Seq<char>, Seq<(Seq<char>, bool)>)>) -> Seq<char>
    decreases g.len(),
{
    if g.len() == 0 {
        seq![]
    } else {
        runtime_lines(g.drop_last()) + runtime_line(g.last().0, g.last().1)
    }
}

/// The line of counts.
pub open spec fn counts_line(s: SurveyView) -> Seq<char> {
    "Device types: "@ + decimal(s.device_types) + " | Runtimes: "@ + decimal(s.runtimes.len())
        + " | Devices: "@ + decimal(s.devices.len()) + " | Pairs: "@ + decimal(s.pairs) + "\n"@
}

/// The line of runtimes, if there are any.
pub open spec fn runtimes_part(runtimes: Seq<Seq<char>>) -> Seq<char> {
    if runtimes.len() == 0 {
        seq![]
    } else {
        "\nRuntimes: "@ + joined(runtimes, ", "@) + "\n"@
    }
}

/// The note on devices of runtimes that are gone, if there are any.
pub open spec fn unavailable_part(n: nat) -> Seq<char> {
    if n == 0 {
        seq![]
    } else {
        "\n"@ + decimal(n) + " unavailable devices (stale runtimes)\n"@
    }
}

/// The devices by runtime, if there are any.
pub open spec fn by_runtime_part(g: Seq<(Seq<char>, Seq<(Seq<char>, bool)>)>) -> Seq<char> {
    if g.len() == 0 {
        seq![]
    } else {
        "\nDevices by runtime:\n"@ + runtime_lines(g)
    }
}

/// The report before it is trimmed.
pub open spec fn sim_body(s: SurveyView) -> Seq<char> {
    let g = grouped(s.devices);
    "simctl list\n"@ + counts_line(s) + runtimes_part(s.runtimes) + all_listed(
        "\nBooted ("@,
        booted_devices(g),
    ) + unavailable_part(s.unavailable) + by_runtime_part(g)
}

/// The report on a listing.
pub open spec fn sim_report(s: SurveyView) -> Seq<char> {
    trimmed(sim_body(s))
}

fn counts_text(s: &Survey) -> (r: String)
    ensures
        r@ == counts_line(s@),
{
    let mut out = "Device types: ".to_owned();
    out.append(decimal_text(s.device_types).as_str());
    out.append(" | Runtimes: ");
    out.append(decimal_text(s.runtimes.len()).as_str());
    out.append(" | Devices: ");
    out.append(decimal_text(s.devices.len()).as_str());
    out.append(" | Pairs: ");
    out.append(decimal_text(s.pairs).as_str());
    out.append("\n");
    out
}

fn runtimes_text(runtimes: &Vec<String>) -> (r: String)
    ensures
        r@ == runtimes_part(views(runtimes@)),
{
    if runtimes.len() == 0 {
        return String::new();
    }
    let mut out = "\nRuntimes: ".to_owned();
    out.append(join(runtimes, ", ").as_str());
    out.append("\n");
    out
}

fn unavailable_text(n: usize) -> (r: String)
    ensures
        r@ == unavailable_part(n as nat),
{
    if n == 0 {
        return String::new();
    }
    let mut out = "\n".to_owned();
    out.append(decimal_text(n).as_str());
    out.append(" unavailable devices (stale runtimes)\n");
    out
}

fn names_of_booted(devs: &Vec<(String, bool)>) -> (r: Vec<String>)
    ensures
        views(r@) == booted_names(views(devs@)),
{
    let mut out: Vec<String> = Vec::new();
    let ghost all = views(devs@);
    for i in 0..devs.len()
        invariant
            all == views(devs@),
            views(out@) == booted_names(all.take(i as int)),
    {
        assert(all.take(i + 1).drop_last() =~= all.take(i as int));
        assert(all.take(i + 1).last() == devs@[i as int]@);
        if devs[i].1 {
            out.push(devs[i].0.clone());
        }
        assert(views(out@) =~= booted_names(all.take(i + 1)));
    }
    assert(all.take(all.len() as int) =~= all);
    out
}

fn group_devices(devices: &Vec<(String, (String, bool))>) -> (r: Groups<(String, bool)>)
    ensures
        r@ == grouped(views(devices@)),
{
    let mut groups: Groups<(String, bool)> = Groups::new();
    let ghost all = views(devices@);
    for i in 0..devices.len()
        invariant
            all == views(devices@),
            groups@ == grouped(all.take(i as int)),
    {
        assert(all.take(i + 1).drop_last() =~= all.take(i as int));
        assert(all.take(i + 1).last() == devices@[i as int]@);
        groups.add(devices[i].0.as_str(), (devices[i].1.0.clone(), devices[i].1.1));
    }
    assert(all.take(all.len() as int) =~= all);
    groups
}

fn list_booted(groups: &Groups<(String, bool)>) -> (r: Vec<String>)
    ensures
        views(r@) == booted_devices(groups@),
{
    let mut out: Vec<String> = Vec::new();
    let ghost g = groups@;
    for i in 0..groups.entries.len()
        invariant
            g == groups@,
            views(out@) == booted_devices(g.take(i as int)),
    {
        assert(g.take(i + 1).drop_last() =~= g.take(i as int));
        let entry = &groups.entries[i];
        assert(g[i as int] == (entry.0@, views(entry.1@)));
        let names = names_of_booted(&entry.1);
        let ghost before = views(out@);
        let ghost added = with_runtime(views(names@), entry.0@);
        for j in 0..names.len()
            invariant
                added == with_runtime(views(names@), entry.0@),
                views(out@) == before + added.take(j as int),
        {
            let mut line = names[j].clone();
            line.append(" (");
            line.append(entry.0.as_str());
            line.append(")");
            assert(added[j as int] == line@);
            let ghost so_far = views(out@);
            out.push(line);
            assert(views(out@) =~= so_far.push(line@));
            assert(views(out@) =~= before + added.take(j + 1));
        }
        assert(before + added.take(names@.len() as int) =~= before + added);
    }
    assert(g.take(g.len() as int) =~= g);
    out
}

fn runtime_text(runtime: &str, devs: &Vec<(String, bool)>) -> (r: String)
    ensures
        r@ == runtime_line(runtime@, views(devs@)),
{
    let booted = names_of_booted(devs);
    let mut out = "  ".to_owned();
    out.append(runtime);
    out.append(": ");
    out.append(decimal_text(devs.len()).as_str());
    if booted.len() > 0 {
        out.append(" (");
        out.append(decimal_text(booted.len()).as_str());
        out.append(" booted)\n");
    } else {
        out.append("\n");
    }
    out
}

fn by_runtime_text(groups: &Groups<(String, bool)>) -> (r: String)
    ensures
        r@ == by_runtime_part(groups@),
{
    if groups.entries.len() == 0 {
        return String::new();
    }
    let ghost g = groups@;
    let mut list = String::new();
    for i in 0..groups.entries.len()
        invariant
            g == groups@,
            list@ == runtime_lines(g.take(i as int)),
    {
        assert(g.take(i + 1).drop_last() =~= g.take(i as int));
        let entry = &groups.entries[i];
        assert(g[i as int] == (entry.0@, views(entry.1@)));
        list.append(runtime_text(entry.0.as_str(), &entry.1).as_str());
    }
    assert(g.take(g.len() as int) =~= g);
    let mut out = "\nDevices by runtime:\n".to_owned();
    out.append(list.as_str());
    out
}

/// Writes the report on a listing.
pub fn render_survey(s: &Survey) -> (r: String)
    ensures
        r@ == sim_report(s@),
{
    let groups = group_devices(&s.devices);
    let mut out = "simctl list\n".to_owned();
    out.append(counts_text(s).as_str());
    out.append(runtimes_text(&s.runtimes).as_str());
    out.append(all_listed_text("\nBooted (", &list_booted(&groups)).as_str());
    out.append(unavailable_text(s.unavailable).as_str());
    out.append(by_runtime_text(&groups).as_str());
    trim(out.as_str())
}

/// What the filter makes of raw output.
pub open spec fn simctl_list_filtered(output: Seq<char>) -> Seq<char> {
    sim_report(surveyed(sim_lines(without_ansi(output))))
}

/// Condenses the output of `xcrun simctl list`.
pub fn filter_simctl_list(output: &str) -> (r: String)
    ensures
        r@ == simctl_list_filtered(output@),
{
    let clean = strip_ansi(output);
    render_survey(&survey_devices(&read_sim_lines(clean.as_str())))
}

// ─── Running the tool ───────────────────────────────────────────────────────

/// How `xcrun simctl` is run with `args`: `list` stands in for no arguments.
pub open spec fn simctl_plan(args: Seq<Seq<char>>, verbose: u8) -> InvocationView {
    InvocationView {
        program: "xcrun"@,
        args: if args.len() == 0 {
            seq!["simctl"@, "list"@]
        } else {
            seq!["simctl"@] + args
        },
        notice: notice_of("xcrun simctl"@, args, verbose),
        tool: "simctl"@,
        display: joined(args, " "@),
        tee: Some("simctl"@),
        filter: if asks_for(args, "list"@) {
            Filter::SimctlList
        } else {
            Filter::Trim
        },
    }
}

/// Plans a run of `xcrun simctl` with `args`.
pub fn run(args: &[String], verbose: u8) -> (r: Invocation)
    ensures
        r@ == simctl_plan(views(args@), verbose),
{
    let mut words = behind("simctl", args);
    let ghost given = views(words@);
    let filter = if args.len() == 0 {
        words.push("list".to_owned());
        assert(views(words@) =~= given.push("list"@));
        assert(given.push("list"@) =~= seq!["simctl"@, "list"@]);
        Filter::SimctlList
    } else if same_text(args[0].as_str(), "list") {
        Filter::SimctlList
    } else {
        Filter::Trim
    };
    let r = Invocation {
        program: "xcrun".to_owned(),
        args: words,
        notice: notice("xcrun simctl", args, verbose),
        tool: "simctl".to_owned(),
        display: join(&copied(args), " "),
        tee: Some("simctl".to_owned()),
        filter,
    };
    assert(r@ =~= simctl_plan(views(args@), verbose));
    r
}

// ─── Laws ───────────────────────────────────────────────────────────────────

proof fn lemma_body_begins(s: SurveyView)
    ensures
        sim_body(s).len() > 0,
        !is_space(sim_body(s)[0]),
{
    reveal_strlit("simctl list\n");
    assert(sim_body(s)[0] == "simctl list\n"@[0]);
}

/// The line of counts is always in the report.
pub proof fn law_simctl_counts_kept(s: SurveyView)
    ensures
        occurs(
            "Device types: "@ + decimal(s.device_types) + " | Runtimes: "@ + decimal(
                s.runtimes.len(),
            ) + " | Devices: "@ + decimal(s.devices.len()) + " | Pairs: "@ + decimal(s.pairs),
            sim_report(s),
        ),
{
    let needle = "Device types: "@ + decimal(s.device_types) + " | Runtimes: "@ + decimal(
        s.runtimes.len(),
    ) + " | Devices: "@ + decimal(s.devices.len()) + " | Pairs: "@ + decimal(s.pairs);
    let g = grouped(s.devices);
    let a = runtimes_part(s.runtimes);
    let b = all_listed("\nBooted ("@, booted_devices(g));
    let c = unavailable_part(s.unavailable);
    let d = by_runtime_part(g);
    assert(counts_line(s) == needle + "\n"@);
    lemma_regrouped("simctl list\n"@, needle, "\n"@, a, b, c, d);
    lemma_decimal_ends_in_digit(s.pairs);
    assert(needle.last() == decimal(s.pairs).last());
    assert("simctl list\n"@.len() > 0 && !is_space("simctl list\n"@[0])) by {
        reveal_strlit("simctl list\n");
    }
    lemma_part_kept("simctl list\n"@, needle, "\n"@ + a + b + c + d);
}

proof fn lemma_regrouped(
    head: Seq<char>,
    line: Seq<char>,
    end: Seq<char>,
    a: Seq<char>,
    b: Seq<char>,
    c: Seq<char>,
    d: Seq<char>,
)
    ensures
        head + (line + end) + a + b + c + d == head + line + (end + a + b + c + d),
{
    assert(head + (line + end) + a + b + c + d =~= head + line + (end + a + b + c + d));
}

proof fn lemma_runtime_listed(g: Seq<(Seq<char>, Seq<(Seq<char>, bool)>)>, i: int)
    requires
        0 <= i < g.len(),
    ensures
        occurs(g[i].0 + ": "@ + decimal(g[i].1.len()), runtime_lines(g)),
    decreases g.len(),
{
    let needle = g[i].0 + ": "@ + decimal(g[i].1.len());
    let line = runtime_line(g.last().0, g.last().1);
    if i < g.len() - 1 {
        lemma_runtime_listed(g.drop_last(), i);
    } else {
        lemma_runtime_line(g[i].0, g[i].1);
    }
    lemma_occurs_in_parts(needle, runtime_lines(g.drop_last()), line);
}

proof fn lemma_runtime_line(runtime: Seq<char>, devs: Seq<(Seq<char>, bool)>)
    ensures
        occurs(runtime + ": "@ + decimal(devs.len()), runtime_line(runtime, devs)),
{
    let needle = runtime + ": "@ + decimal(devs.len());
    let booted = booted_names(devs).len();
    let post = if booted > 0 {
        " ("@ + decimal(booted) + " booted)\n"@
    } else {
        "\n"@
    };
    lemma_occurs_in_itself(needle);
    lemma_occurs_in_middle(needle, "  "@, needle, post);
    assert("  "@ + needle + post =~= runtime_line(runtime, devs));
}

/// Every device is in the count of its runtime: the devices by runtime add up to
/// the number of devices, the runtimes come in order, none twice, and each of them
/// is in the report with the number of its devices.
pub proof fn law_simctl_devices_accounted(s: SurveyView)
    ensures
        group_total(grouped(s.devices)) == s.devices.len(),
        keys_ascend(grouped(s.devices)),
        forall|i: int|
            0 <= i < grouped(s.devices).len() ==> occurs(
                (#[trigger] grouped(s.devices)[i]).0 + ": "@ + decimal(
                    grouped(s.devices)[i].1.len(),
                ),
                sim_report(s),
            ),
{
    let g = grouped(s.devices);
    law_group_total(s.devices);
    law_grouped(s.devices);
    assert forall|i: int| 0 <= i < g.len() implies occurs(
        (#[trigger] g[i]).0 + ": "@ + decimal(g[i].1.len()),
        sim_report(s),
    ) by {
        lemma_runtime_in_report(s, i);
    }
}

proof fn lemma_runtime_in_report(s: SurveyView, i: int)
    requires
        0 <= i < grouped(s.devices).len(),
    ensures
        occurs(
            grouped(s.devices)[i].0 + ": "@ + decimal(grouped(s.devices)[i].1.len()),
            sim_report(s),
        ),
{
    let g = grouped(s.devices);
    let needle = g[i].0 + ": "@ + decimal(g[i].1.len());
    let pre = "simctl list\n"@ + counts_line(s) + runtimes_part(s.runtimes) + all_listed(
        "\nBooted ("@,
        booted_devices(g),
    ) + unavailable_part(s.unavailable);
    lemma_runtime_listed(g, i);
    lemma_occurs_in_parts(needle, "\nDevices by runtime:\n"@, runtime_lines(g));
    lemma_occurs_in_parts(needle, pre, by_runtime_part(g));
    lemma_decimal_ends_in_digit(g[i].1.len());
    assert(needle.last() == decimal(g[i].1.len()).last());
    lemma_body_begins(s);
    lemma_occurs_in_begun(needle, sim_body(s));
}

proof fn lemma_booted_listed(
    g: Seq<(Seq<char>, Seq<(Seq<char>, bool)>)>,
    i: int,
    j: int,
) -> (k: int)
    requires
        0 <= i < g.len(),
        0 <= j < g[i].1.len(),
        g[i].1[j].1,
    ensures
        0 <= k < booted_devices(g).len(),
        booted_devices(g)[k] == g[i].1[j].0 + " ("@ + g[i].0 + ")"@,
    decreases g.len(),
{
    if i < g.len() - 1 {
        lemma_booted_listed(g.drop_last(), i, j)
    } else {
        let names = booted_names(g[i].1);
        let at = law_picked_in_order(
            g[i].1,
            |d: (Seq<char>, bool)|
                if d.1 {
                    Some(d.0)
                } else {
                    None
                },
        );
        assert(names.contains(g[i].1[j].0));
        let n = choose|n: int| 0 <= n < names.len() && names[n] == g[i].1[j].0;
        assert(with_runtime(names, g[i].0)[n] == g[i].1[j].0 + " ("@ + g[i].0 + ")"@);
        booted_devices(g.drop_last()).len() + n
    }
}

/// Every booted device is in the report, with its runtime.
pub proof fn law_simctl_booted_kept(s: SurveyView, k: int)
    requires
        0 <= k < s.devices.len(),
        s.devices[k].1.1,
    ensures
        occurs(s.devices[k].1.0 + " ("@ + s.devices[k].0 + ")"@, sim_report(s)),
{
    let g = grouped(s.devices);
    let booted = booted_devices(g);
    let (i, j) = lemma_value_has_group(s.devices, k);
    let n = lemma_booted_listed(g, i, j);
    let needle = s.devices[k].1.0 + " ("@ + s.devices[k].0 + ")"@;
    let part = all_listed("\nBooted ("@, booted);
    let pre = "simctl list\n"@ + counts_line(s) + runtimes_part(s.runtimes);
    let post = unavailable_part(s.unavailable) + by_runtime_part(g);
    lemma_listed_keeps(booted, "  "@, n);
    lemma_occurs_in_parts(
        needle,
        "\nBooted ("@ + decimal(booted.len()) + "):\n"@,
        listed(booted, "  "@),
    );
    lemma_occurs_in_middle(needle, pre, part, post);
    assert(pre + part + post =~= sim_body(s));
    lemma_body_begins(s);
    assert(needle.len() > 0 && needle.last() == ')') by {
        reveal_strlit(")");
    }
    lemma_occurs_in_begun(needle, sim_body(s));
}

/// The number of devices of runtimes that are gone is in the report.
pub proof fn law_simctl_unavailable_kept(s: SurveyView)
    requires
        s.unavailable > 0,
    ensures
        occurs(
            decimal(s.unavailable) + " unavailable devices (stale runtimes)"@,
            sim_report(s),
        ),
{
    let g = grouped(s.devices);
    let needle = decimal(s.unavailable) + " unavailable devices (stale runtimes)"@;
    let part = unavailable_part(s.unavailable);
    reveal_strlit(" unavailable devices (stale runtimes)\n");
    reveal_strlit(" unavailable devices (stale runtimes)");
    reveal_strlit("\n");
    assert(part =~= "\n"@ + needle + "\n"@);
    lemma_occurs_in_itself(needle);
    lemma_occurs_in_middle(needle, "\n"@, needle, "\n"@);
    let pre = "simctl list\n"@ + counts_line(s) + runtimes_part(s.runtimes) + all_listed(
        "\nBooted ("@,
        booted_devices(g),
    );
    lemma_occurs_in_middle(needle, pre, part, by_runtime_part(g));
    lemma_body_begins(s);
    assert(needle.last() == ')');
    lemma_occurs_in_begun(needle, sim_body(s));
}

} // verus!
