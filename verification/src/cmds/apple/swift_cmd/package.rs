//! Filters `swift package` output: condenses a package description to its name,
//! dependencies, products and targets.

use crate::ansi::{strip_ansi, without_ansi};
use crate::pattern::{
    group_text, regex_captures, Found, FoundText, Pattern, INDENTED_NAME, INDENTED_TYPE,
    INDENTED_VERSION, PACKAGE_NAME,
};
use crate::report::{
    all_trimmed, is_trimmed, law_trimmed_is_trimmed, lemma_joined_keeps, lemma_occurs_after_trim,
    lemma_occurs_in_itself, lemma_occurs_in_middle, lemma_occurs_in_parts,
};
use crate::text::{
    begins_with, chars_of, decimal, decimal_text, is_space, join, joined, lines, lines_of, occurs,
    same_text, stands_at, trim, trimmed, views,
};
use vstd::prelude::*;

verus! {

// ─── Lines ──────────────────────────────────────────────────────────────────

/// A line, also trimmed, with what each pattern finds in it as it stands. `T` is
/// the type of text, `F` that of a search result.
pub struct PackageLine<T, F> {
    pub raw: T,
    pub text: T,
    pub package_name: F,
    pub name: F,
    pub version: F,
    pub kind: F,
}

impl View for PackageLine<String, Found> {
    type V = PackageLine<Seq<char>, FoundText>;

    open spec fn view(&self) -> PackageLine<Seq<char>, FoundText> {
        PackageLine {
            raw: self.raw@,
            text: self.text@,
            package_name: self.package_name@,
            name: self.name@,
            version: self.version@,
            kind: self.kind@,
        }
    }
}

/// What the patterns find in a line of output.
pub open spec fn package_line(line: Seq<char>) -> PackageLine<Seq<char>, FoundText> {
    PackageLine {
        raw: line,
        text: trimmed(line),
        package_name: regex_captures(PACKAGE_NAME@, line),
        name: regex_captures(INDENTED_NAME@, line),
        version: regex_captures(INDENTED_VERSION@, line),
        kind: regex_captures(INDENTED_TYPE@, line),
    }
}

/// What the patterns find in each line of `clean`.
pub open spec fn package_lines(clean: Seq<char>) -> Seq<PackageLine<Seq<char>, FoundText>> {
    lines_of(clean).map_values(|line: Seq<char>| package_line(line))
}

/// Searches each line of `clean` for the patterns.
pub fn read_package_lines(clean: &str) -> (r: Vec<PackageLine<String, Found>>)
    ensures
        views(r@) == package_lines(clean@),
{
    let package_name = Pattern::compile(PACKAGE_NAME);
    let name = Pattern::compile(INDENTED_NAME);
    let version = Pattern::compile(INDENTED_VERSION);
    let kind = Pattern::compile(INDENTED_TYPE);
    let raw = lines(clean);
    let mut out: Vec<PackageLine<String, Found>> = Vec::new();
    for i in 0..raw.len()
        invariant
            package_name.source() == PACKAGE_NAME@,
            name.source() == INDENTED_NAME@,
            version.source() == INDENTED_VERSION@,
            kind.source() == INDENTED_TYPE@,
            views(raw@) == lines_of(clean@),
            views(out@) == package_lines(clean@).take(i as int),
    {
        let text = raw[i].as_str();
        let line = PackageLine {
            raw: raw[i].clone(),
            text: trim(text),
            package_name: package_name.captures(text),
            name: name.captures(text),
            version: version.captures(text),
            kind: kind.captures(text),
        };
        assert(line@ == package_line(views(raw@)[i as int]));
        assert(package_lines(clean@)[i as int] == line@);
        let ghost before = views(out@);
        out.push(line);
        assert(views(out@) =~= before.push(line@));
        assert(views(out@) =~= package_lines(clean@).take(i + 1));
    }
    assert(views(out@) =~= package_lines(clean@));
    out
}

/// Whether a line belongs to a package description: a section header or the name
/// of the package.
pub open spec fn is_describe_marker(line: PackageLine<Seq<char>, FoundText>) -> bool {
    line.text == "Dependencies:"@ || line.text == "Products:"@ || line.text == "Targets:"@
        || line.package_name is Some
}

/// Whether any line belongs to a package description.
pub open spec fn any_describe_marker(ls: Seq<PackageLine<Seq<char>, FoundText>>) -> bool {
    exists|i: int| 0 <= i < ls.len() && is_describe_marker(#[trigger] ls[i])
}

/// Whether any of the lines belongs to a package description.
pub fn has_describe_marker(ls: &Vec<PackageLine<String, Found>>) -> (r: bool)
    ensures
        r == any_describe_marker(views(ls@)),
{
    for i in 0..ls.len()
        invariant
            forall|j: int| 0 <= j < i ==> !is_describe_marker(#[trigger] views(ls@)[j]),
    {
        let l = &ls[i];
        assert(views(ls@)[i as int] == l@);
        let text = l.text.as_str();
        if same_text(text, "Dependencies:") || same_text(text, "Products:") || same_text(
            text,
            "Targets:",
        ) || l.package_name.is_match() {
            return true;
        }
    }
    false
}

// ─── State ──────────────────────────────────────────────────────────────────

/// The section of a package description that a line stands in. Sections with
/// other headers (platforms, language versions, resources) are skipped.
#[derive(Clone, Copy, PartialEq, Eq, Structural)]
pub enum Section {
    Top,
    Dependencies,
    Products,
    Targets,
    Skip,
}

/// What has been read of a package description, as text sequences.
#[verifier::ext_equal]
pub struct PackageView {
    pub section: Section,
    pub name: Seq<char>,
    pub deps: Seq<Seq<char>>,
    pub products: Seq<Seq<char>>,
    pub targets: Seq<(Seq<char>, Seq<char>)>,
    pub dep: Seq<char>,
    pub target: Seq<char>,
    pub target_kind: Seq<char>,
}

/// What has been read of a package description: the section, the name of the
/// package, the finished dependencies, products and targets (name, type), and the
/// dependency and target that are still open.
pub struct Package {
    pub section: Section,
    pub name: String,
    pub deps: Vec<String>,
    pub products: Vec<String>,
    pub targets: Vec<(String, String)>,
    pub dep: String,
    pub target: String,
    pub target_kind: String,
}

impl View for Package {
    type V = PackageView;

    open spec fn view(&self) -> PackageView {
        PackageView {
            section: self.section,
            name: self.name@,
            deps: views(self.deps@),
            products: views(self.products@),
            targets: views(self.targets@),
            dep: self.dep@,
            target: self.target@,
            target_kind: self.target_kind@,
        }
    }
}

/// Before the first line.
pub open spec fn package_start() -> PackageView {
    PackageView {
        section: Section::Top,
        name: seq![],
        deps: seq![],
        products: seq![],
        targets: seq![],
        dep: seq![],
        target: seq![],
        target_kind: seq![],
    }
}

/// Whether a line is a section header: no space or tab in front, a colon at the
/// end.
pub open spec fn is_header(line: Seq<char>) -> bool {
    line.len() > 0 && line[0] != ' ' && line[0] != '\t' && line.last() == ':'
}

/// The section that a header opens.
pub open spec fn section_of(header: Seq<char>) -> Section {
    if header == "Dependencies:"@ {
        Section::Dependencies
    } else if header == "Products:"@ {
        Section::Products
    } else if header == "Targets:"@ {
        Section::Targets
    } else {
        Section::Skip
    }
}

/// The open dependency, if any, is finished.
pub open spec fn dep_flushed(p: PackageView) -> PackageView {
    if p.dep.len() > 0 {
        PackageView { deps: p.deps.push(p.dep), dep: seq![], ..p }
    } else {
        p
    }
}

/// The open target, if any, is finished.
pub open spec fn target_flushed(p: PackageView) -> PackageView {
    if p.target.len() > 0 {
        PackageView {
            targets: p.targets.push((p.target, p.target_kind)),
            target: seq![],
            target_kind: seq![],
            ..p
        }
    } else {
        p
    }
}

/// A header finishes what its predecessor's section left open.
pub open spec fn header_read(p: PackageView, header: Seq<char>) -> PackageView {
    let flushed = match p.section {
        Section::Targets => target_flushed(p),
        Section::Dependencies => dep_flushed(p),
        _ => p,
    };
    PackageView { section: section_of(header), ..flushed }
}

/// A line of the dependencies: a name opens a dependency, a version is appended
/// to the open one.
pub open spec fn dependency_read(
    p: PackageView,
    l: PackageLine<Seq<char>, FoundText>,
) -> PackageView {
    let named = if l.name is Some {
        PackageView { dep: trimmed(group_text(l.name, 1)), ..dep_flushed(p) }
    } else {
        p
    };
    if l.version is Some && named.dep.len() > 0 {
        PackageView {
            dep: named.dep + (" ("@ + trimmed(group_text(l.version, 1)) + ")"@),
            ..named
        }
    } else {
        named
    }
}

/// A line of the targets: an empty line finishes the open target, a name opens
/// one, the first type is that of the open one.
pub open spec fn target_read(p: PackageView, l: PackageLine<Seq<char>, FoundText>) -> PackageView {
    if l.text.len() == 0 {
        target_flushed(p)
    } else if l.name is Some {
        PackageView {
            target: trimmed(group_text(l.name, 1)),
            target_kind: seq![],
            ..target_flushed(p)
        }
    } else if l.kind is Some && p.target_kind.len() == 0 {
        PackageView { target_kind: trimmed(group_text(l.kind, 1)), ..p }
    } else {
        p
    }
}

/// What reading one more line makes of what has been read.
pub open spec fn package_step(
    p: PackageView,
    l: PackageLine<Seq<char>, FoundText>,
) -> PackageView {
    if is_header(l.raw) {
        header_read(p, l.text)
    } else {
        match p.section {
            Section::Top => if l.package_name is Some && p.name.len() == 0 {
                PackageView { name: trimmed(group_text(l.package_name, 1)), ..p }
            } else {
                p
            },
            Section::Dependencies => dependency_read(p, l),
            Section::Products => if l.name is Some {
                PackageView { products: p.products.push(trimmed(group_text(l.name, 1))), ..p }
            } else {
                p
            },
            Section::Targets => target_read(p, l),
            Section::Skip => p,
        }
    }
}

/// What has been read after all the lines.
pub open spec fn package_read(ls: Seq<PackageLine<Seq<char>, FoundText>>) -> PackageView
    decreases ls.len(),
{
    if ls.len() == 0 {
        package_start()
    } else {
        package_step(package_read(ls.drop_last()), ls.last())
    }
}

/// The description: what has been read, with nothing left open.
pub open spec fn package_described(ls: Seq<PackageLine<Seq<char>, FoundText>>) -> PackageView {
    target_flushed(dep_flushed(package_read(ls)))
}

fn header_line(line: &str) -> (r: bool)
    ensures
        r == is_header(line@),
{
    let cs = chars_of(line);
    cs.len() > 0 && cs[0] != ' ' && cs[0] != '\t' && cs[cs.len() - 1] == ':'
}

fn header_section(header: &str) -> (r: Section)
    ensures
        r == section_of(header@),
{
    if same_text(header, "Dependencies:") {
        Section::Dependencies
    } else if same_text(header, "Products:") {
        Section::Products
    } else if same_text(header, "Targets:") {
        Section::Targets
    } else {
        Section::Skip
    }
}

impl Package {
    /// Before the first line.
    pub fn start() -> (r: Self)
        ensures
            r@ == package_start(),
    {
        let r = Package {
            section: Section::Top,
            name: String::new(),
            deps: Vec::new(),
            products: Vec::new(),
            targets: Vec::new(),
            dep: String::new(),
            target: String::new(),
            target_kind: String::new(),
        };
        assert(r@ =~= package_start());
        r
    }

    fn flush_dep(&mut self)
        ensures
            final(self)@ == dep_flushed(old(self)@),
    {
        if !self.dep.as_str().is_empty() {
            self.deps.push(self.dep.clone());
            self.dep = String::new();
        }
        assert(self@ =~= dep_flushed(old(self)@));
    }

    fn flush_target(&mut self)
        ensures
            final(self)@ == target_flushed(old(self)@),
    {
        if !self.target.as_str().is_empty() {
            self.targets.push((self.target.clone(), self.target_kind.clone()));
            self.target = String::new();
            self.target_kind = String::new();
        }
        assert(self@ =~= target_flushed(old(self)@));
    }

    fn read_header(&mut self, header: &str)
        ensures
            final(self)@ == header_read(old(self)@, header@),
    {
        match self.section {
            Section::Targets => {
                self.flush_target();
            },
            Section::Dependencies => {
                self.flush_dep();
            },
            _ => {},
        }
        self.section = header_section(header);
        assert(self@ =~= header_read(old(self)@, header@));
    }

    fn read_dependency(&mut self, l: &PackageLine<String, Found>)
        ensures
            final(self)@ == dependency_read(old(self)@, l@),
    {
        if l.name.is_match() {
            self.flush_dep();
            self.dep = trim(l.name.group(1).as_str());
        }
        if l.version.is_match() && !self.dep.as_str().is_empty() {
            let mut version = " (".to_owned();
            version.append(trim(l.version.group(1).as_str()).as_str());
            version.append(")");
            self.dep.append(version.as_str());
        }
        assert(self@ =~= dependency_read(old(self)@, l@));
    }

    fn read_target(&mut self, l: &PackageLine<String, Found>)
        ensures
            final(self)@ == target_read(old(self)@, l@),
    {
        if l.text.as_str().is_empty() {
            self.flush_target();
        } else if l.name.is_match() {
            self.flush_target();
            self.target = trim(l.name.group(1).as_str());
            self.target_kind = String::new();
        } else if l.kind.is_match() && self.target_kind.as_str().is_empty() {
            self.target_kind = trim(l.kind.group(1).as_str());
        }
        assert(self@ =~= target_read(old(self)@, l@));
    }

    /// Reads one more line.
    pub fn read(&mut self, l: &PackageLine<String, Found>)
        ensures
            final(self)@ == package_step(old(self)@, l@),
    {
        if header_line(l.raw.as_str()) {
            self.read_header(l.text.as_str());
        } else {
            match self.section {
                Section::Top => {
                    if l.package_name.is_match() && self.name.as_str().is_empty() {
                        self.name = trim(l.package_name.group(1).as_str());
                    }
                },
                Section::Dependencies => {
                    self.read_dependency(l);
                },
                Section::Products => {
                    if l.name.is_match() {
                        self.products.push(trim(l.name.group(1).as_str()));
                    }
                },
                Section::Targets => {
                    self.read_target(l);
                },
                Section::Skip => {},
            }
        }
        assert(self@ =~= package_step(old(self)@, l@));
    }
}

/// Reads a package description.
pub fn describe_package(ls: &Vec<PackageLine<String, Found>>) -> (r: Package)
    ensures
        r@ == package_described(views(ls@)),
{
    let mut p = Package::start();
    let ghost all = views(ls@);
    for i in 0..ls.len()
        invariant
            all == views(ls@),
            p@ == package_read(all.take(i as int)),
    {
        assert(all.take(i + 1).drop_last() =~= all.take(i as int));
        p.read(&ls[i]);
    }
    assert(all.take(all.len() as int) =~= all);
    p.flush_dep();
    p.flush_target();
    p
}

// ─── Report ─────────────────────────────────────────────────────────────────

/// A counted list on one line, if it has any items.
pub open spec fn list_part(heading: Seq<char>, items: Seq<Seq<char>>) -> Seq<char> {
    if items.len() == 0 {
        seq![]
    } else {
        heading + decimal(items.len()) + "): "@ + joined(items, ", "@) + "\n"@
    }
}

/// One line per target, with its type where that is known.
pub open spec fn target_lines(ts: Seq<(Seq<char>, Seq<char>)>) -> Seq<char>
    decreases ts.len(),
{
    if ts.len() == 0 {
        seq![]
    } else if ts.last().1.len() == 0 {
        target_lines(ts.drop_last()) + ("  "@ + ts.last().0 + "\n"@)
    } else {
        target_lines(ts.drop_last()) + ("  "@ + ts.last().0 + " ("@ + ts.last().1 + ")\n"@)
    }
}

/// The counted targets, if there are any.
pub open spec fn targets_part(ts: Seq<(Seq<char>, Seq<char>)>) -> Seq<char> {
    if ts.len() == 0 {
        seq![]
    } else {
        "Targets ("@ + decimal(ts.len()) + "):\n"@ + target_lines(ts)
    }
}

/// The report before it is trimmed.
pub open spec fn package_body(p: PackageView) -> Seq<char> {
    "Package: "@ + p.name + "\n"@ + list_part("Dependencies ("@, p.deps) + list_part(
        "Products ("@,
        p.products,
    ) + targets_part(p.targets)
}

/// The report on a package description.
pub open spec fn package_report(p: PackageView) -> Seq<char> {
    trimmed(package_body(p))
}

fn list_text(heading: &str, items: &Vec<String>) -> (r: String)
    ensures
        r@ == list_part(heading@, views(items@)),
{
    if items.len() == 0 {
        return String::new();
    }
    let mut out = heading.to_owned();
    out.append(decimal_text(items.len()).as_str());
    out.append("): ");
    out.append(join(items, ", ").as_str());
    out.append("\n");
    out
}

fn target_text(name: &str, kind: &str) -> (r: String)
    ensures
        r@ == (if kind@.len() == 0 {
            "  "@ + name@ + "\n"@
        } else {
            "  "@ + name@ + " ("@ + kind@ + ")\n"@
        }),
{
    let mut out = "  ".to_owned();
    out.append(name);
    if kind.is_empty() {
        out.append("\n");
    } else {
        out.append(" (");
        out.append(kind);
        out.append(")\n");
    }
    out
}

fn targets_text(ts: &Vec<(String, String)>) -> (r: String)
    ensures
        r@ == targets_part(views(ts@)),
{
    if ts.len() == 0 {
        return String::new();
    }
    let mut out = String::new();
    let ghost all = views(ts@);
    for i in 0..ts.len()
        invariant
            all == views(ts@),
            out@ == target_lines(all.take(i as int)),
    {
        assert(all.take(i + 1).drop_last() =~= all.take(i as int));
        out.append(target_text(ts[i].0.as_str(), ts[i].1.as_str()).as_str());
    }
    assert(all.take(all.len() as int) =~= all);
    let mut part = "Targets (".to_owned();
    part.append(decimal_text(ts.len()).as_str());
    part.append("):\n");
    part.append(out.as_str());
    part
}

/// Writes the report on a package description.
pub fn render_package(p: &Package) -> (r: String)
    ensures
        r@ == package_report(p@),
{
    let mut out = "Package: ".to_owned();
    out.append(p.name.as_str());
    out.append("\n");
    out.append(list_text("Dependencies (", &p.deps).as_str());
    out.append(list_text("Products (", &p.products).as_str());
    out.append(targets_text(&p.targets).as_str());
    trim(out.as_str())
}

/// What the filter makes of clean output, given what the patterns find in it:
/// output that is no package description passes through.
pub open spec fn package_condensed(
    clean: Seq<char>,
    ls: Seq<PackageLine<Seq<char>, FoundText>>,
) -> Seq<char> {
    if trimmed(clean).len() > 0 && !any_describe_marker(ls) {
        trimmed(clean)
    } else {
        package_report(package_described(ls))
    }
}

/// Condenses clean output, given what the patterns find in it.
pub fn condense_package(clean: &str, ls: &Vec<PackageLine<String, Found>>) -> (r: String)
    ensures
        r@ == package_condensed(clean@, views(ls@)),
{
    let text = trim(clean);
    if !text.as_str().is_empty() && !has_describe_marker(ls) {
        text
    } else {
        render_package(&describe_package(ls))
    }
}

/// What the filter makes of raw output.
pub open spec fn swift_package_filtered(output: Seq<char>) -> Seq<char> {
    let clean = without_ansi(output);
    package_condensed(clean, package_lines(clean))
}

/// Condenses the output of `swift package describe`. Other output passes through.
pub fn filter_swift_package(output: &str) -> (r: String)
    ensures
        r@ == swift_package_filtered(output@),
{
    let clean = strip_ansi(output);
    condense_package(clean.as_str(), &read_package_lines(clean.as_str()))
}

// ─── Laws ───────────────────────────────────────────────────────────────────

/// Output that is no package description passes through: nothing of it is lost
/// but escape sequences and the whitespace at its ends.
pub proof fn law_package_passthrough(output: Seq<char>)
    requires
        trimmed(without_ansi(output)).len() > 0,
        !any_describe_marker(package_lines(without_ansi(output))),
    ensures
        swift_package_filtered(output) == trimmed(without_ansi(output)),
{
}

/// Without a marker nothing is ever read.
proof fn lemma_no_marker_reads_nothing(ls: Seq<PackageLine<Seq<char>, FoundText>>)
    requires
        forall|i: int| 0 <= i < ls.len() ==> !is_describe_marker(#[trigger] ls[i]),
    ensures
        ({
            let p = package_read(ls);
            &&& p.section == Section::Top || p.section == Section::Skip
            &&& p.name.len() == 0
            &&& p.deps.len() == 0
            &&& p.products.len() == 0
            &&& p.targets.len() == 0
            &&& p.dep.len() == 0
            &&& p.target.len() == 0
        }),
    decreases ls.len(),
{
    if ls.len() > 0 {
        assert forall|i: int| 0 <= i < ls.drop_last().len() implies !is_describe_marker(
            #[trigger] ls.drop_last()[i],
        ) by {
            assert(ls.drop_last()[i] == ls[i]);
        }
        lemma_no_marker_reads_nothing(ls.drop_last());
        assert(!is_describe_marker(ls[ls.len() - 1]));
    }
}

/// The texts that have been read have no whitespace at their ends, and what is
/// finished has a name.
spec fn reads_cleanly(p: PackageView) -> bool {
    &&& is_trimmed(p.name)
    &&& is_trimmed(p.dep)
    &&& is_trimmed(p.target)
    &&& is_trimmed(p.target_kind)
    &&& all_trimmed(p.deps)
    &&& forall|k: int| 0 <= k < p.products.len() ==> is_trimmed(#[trigger] p.products[k])
    &&& forall|k: int|
        0 <= k < p.targets.len() ==> (#[trigger] p.targets[k]).0.len() > 0 && is_trimmed(
            p.targets[k].0,
        )
}

proof fn lemma_flushes_cleanly(p: PackageView)
    requires
        reads_cleanly(p),
    ensures
        reads_cleanly(dep_flushed(p)),
        reads_cleanly(target_flushed(p)),
{
}

proof fn lemma_reads_cleanly(ls: Seq<PackageLine<Seq<char>, FoundText>>)
    ensures
        reads_cleanly(package_read(ls)),
    decreases ls.len(),
{
    if ls.len() > 0 {
        let p = package_read(ls.drop_last());
        let l = ls.last();
        lemma_reads_cleanly(ls.drop_last());
        lemma_flushes_cleanly(p);
        law_trimmed_is_trimmed(group_text(l.package_name, 1));
        law_trimmed_is_trimmed(group_text(l.name, 1));
        law_trimmed_is_trimmed(group_text(l.version, 1));
        law_trimmed_is_trimmed(group_text(l.kind, 1));
        reveal_strlit(" (");
        reveal_strlit(")");
    }
}

proof fn lemma_target_lines_keep(ts: Seq<(Seq<char>, Seq<char>)>, k: int)
    requires
        0 <= k < ts.len(),
    ensures
        occurs(ts[k].0, target_lines(ts)),
        ts[k].1.len() > 0 ==> occurs(ts[k].0 + " ("@ + ts[k].1 + ")"@, target_lines(ts)),
    decreases ts.len(),
{
    let before = target_lines(ts.drop_last());
    let full = ts[k].0 + " ("@ + ts[k].1 + ")"@;
    let line = if ts.last().1.len() == 0 {
        "  "@ + ts.last().0 + "\n"@
    } else {
        "  "@ + ts.last().0 + " ("@ + ts.last().1 + ")\n"@
    };
    if k < ts.len() - 1 {
        lemma_target_lines_keep(ts.drop_last(), k);
    } else {
        lemma_occurs_in_itself(ts[k].0);
        lemma_occurs_in_itself(full);
        if ts[k].1.len() == 0 {
            lemma_occurs_in_middle(ts[k].0, "  "@, ts[k].0, "\n"@);
        } else {
            reveal_strlit(")\n");
            reveal_strlit(")");
            reveal_strlit("\n");
            assert(line =~= "  "@ + full + "\n"@);
            assert(line =~= "  "@ + ts[k].0 + (" ("@ + ts[k].1 + ")\n"@));
            lemma_occurs_in_middle(full, "  "@, full, "\n"@);
            lemma_occurs_in_middle(ts[k].0, "  "@, ts[k].0, " ("@ + ts[k].1 + ")\n"@);
        }
    }
    lemma_occurs_in_parts(ts[k].0, before, line);
    lemma_occurs_in_parts(full, before, line);
}

proof fn lemma_list_part_survives(
    pre: Seq<char>,
    heading: Seq<char>,
    items: Seq<Seq<char>>,
    post: Seq<char>,
)
    requires
        heading.len() > 0,
        !is_space(heading[0]),
        forall|k: int| 0 <= k < items.len() ==> is_trimmed(#[trigger] items[k]),
    ensures
        forall|k: int|
            0 <= k < items.len() ==> occurs(
                #[trigger] items[k],
                trimmed(pre + list_part(heading, items) + post),
            ),
        items.len() > 0 ==> occurs(
            heading + decimal(items.len()) + "):"@,
            trimmed(pre + list_part(heading, items) + post),
        ),
{
    let part = list_part(heading, items);
    let whole = pre + part + post;
    if items.len() > 0 {
        let needle = heading + decimal(items.len()) + "):"@;
        let head = heading + decimal(items.len()) + "): "@;
        let list = joined(items, ", "@);
        assert forall|k: int| 0 <= k < items.len() implies occurs(
            #[trigger] items[k],
            trimmed(whole),
        ) by {
            lemma_joined_keeps(items, ", "@, k);
            lemma_occurs_in_middle(items[k], head, list, "\n"@);
            lemma_occurs_in_middle(items[k], pre, part, post);
            lemma_occurs_after_trim(items[k], whole);
        }
        reveal_strlit("):");
        reveal_strlit("): ");
        reveal_strlit(" ");
        assert(part =~= Seq::<char>::empty() + needle + (" "@ + list + "\n"@));
        lemma_occurs_in_itself(needle);
        lemma_occurs_in_middle(needle, seq![], needle, " "@ + list + "\n"@);
        lemma_occurs_in_middle(needle, pre, part, post);
        assert(needle.last() == ':');
        lemma_occurs_after_trim(needle, whole);
    }
}

proof fn lemma_targets_part_survives(
    pre: Seq<char>,
    ts: Seq<(Seq<char>, Seq<char>)>,
)
    requires
        forall|k: int|
            0 <= k < ts.len() ==> (#[trigger] ts[k]).0.len() > 0 && is_trimmed(ts[k].0),
    ensures
        forall|k: int|
            0 <= k < ts.len() ==> occurs(
                (#[trigger] ts[k]).0,
                trimmed(pre + targets_part(ts)),
            ) && (ts[k].1.len() > 0 ==> occurs(
                ts[k].0 + " ("@ + ts[k].1 + ")"@,
                trimmed(pre + targets_part(ts)),
            )),
        ts.len() > 0 ==> occurs(
            "Targets ("@ + decimal(ts.len()) + "):"@,
            trimmed(pre + targets_part(ts)),
        ),
{
    let part = targets_part(ts);
    let whole = pre + part;
    if ts.len() > 0 {
        let head = "Targets ("@ + decimal(ts.len()) + "):\n"@;
        let list = target_lines(ts);
        assert forall|k: int| 0 <= k < ts.len() implies occurs(
            (#[trigger] ts[k]).0,
            trimmed(whole),
        ) && (ts[k].1.len() > 0 ==> occurs(ts[k].0 + " ("@ + ts[k].1 + ")"@, trimmed(whole))) by {
            let full = ts[k].0 + " ("@ + ts[k].1 + ")"@;
            lemma_target_lines_keep(ts, k);
            lemma_occurs_in_parts(ts[k].0, head, list);
            lemma_occurs_in_parts(ts[k].0, pre, part);
            lemma_occurs_after_trim(ts[k].0, whole);
            if ts[k].1.len() > 0 {
                lemma_occurs_in_parts(full, head, list);
                lemma_occurs_in_parts(full, pre, part);
                reveal_strlit(")");
                assert(full.last() == ')');
                lemma_occurs_after_trim(full, whole);
            }
        }
        let needle = "Targets ("@ + decimal(ts.len()) + "):"@;
        reveal_strlit("):");
        reveal_strlit("):\n");
        reveal_strlit("\n");
        reveal_strlit("Targets (");
        assert(part =~= Seq::<char>::empty() + needle + ("\n"@ + list));
        lemma_occurs_in_itself(needle);
        lemma_occurs_in_middle(needle, seq![], needle, "\n"@ + list);
        lemma_occurs_in_parts(needle, pre, part);
        assert(needle.last() == ':');
        lemma_occurs_after_trim(needle, whole);
    }
}

/// The structure of a package is kept: its name, and each dependency, product and
/// target that was read, with the number of each.
pub proof fn law_package_structure_kept(output: Seq<char>)
    ensures
        ({
            let p = package_described(package_lines(without_ansi(output)));
            let r = swift_package_filtered(output);
            &&& p.name.len() > 0 ==> occurs("Package: "@ + p.name, r)
            &&& forall|k: int| 0 <= k < p.deps.len() ==> occurs(#[trigger] p.deps[k], r)
            &&& forall|k: int| 0 <= k < p.products.len() ==> occurs(#[trigger] p.products[k], r)
            &&& forall|k: int|
                0 <= k < p.targets.len() ==> occurs((#[trigger] p.targets[k]).0, r) && (
                p.targets[k].1.len() > 0 ==> occurs(
                    p.targets[k].0 + " ("@ + p.targets[k].1 + ")"@,
                    r,
                ))
            &&& p.deps.len() > 0 ==> occurs("Dependencies ("@ + decimal(p.deps.len()) + "):"@, r)
            &&& p.products.len() > 0 ==> occurs(
                "Products ("@ + decimal(p.products.len()) + "):"@,
                r,
            )
            &&& p.targets.len() > 0 ==> occurs("Targets ("@ + decimal(p.targets.len()) + "):"@, r)
        }),
{
    let clean = without_ansi(output);
    let ls = package_lines(clean);
    let p = package_described(ls);
    if !any_describe_marker(ls) {
        lemma_no_marker_reads_nothing(ls);
    } else {
        lemma_reads_cleanly(ls);
        lemma_flushes_cleanly(package_read(ls));
        lemma_flushes_cleanly(dep_flushed(package_read(ls)));
        lemma_name_survives(p);
        lemma_lists_survive(p);
    }
}

proof fn lemma_name_survives(p: PackageView)
    requires
        is_trimmed(p.name),
    ensures
        p.name.len() > 0 ==> occurs("Package: "@ + p.name, package_report(p)),
{
    if p.name.len() > 0 {
        let needle = "Package: "@ + p.name;
        lemma_prefix_survives(
            needle,
            "\n"@,
            list_part("Dependencies ("@, p.deps),
            list_part("Products ("@, p.products),
            targets_part(p.targets),
        );
        assert(is_trimmed(needle)) by {
            reveal_strlit("Package: ");
            assert(needle.last() == p.name.last());
        }
        lemma_occurs_after_trim(needle, package_body(p));
    }
}

proof fn lemma_prefix_survives(
    needle: Seq<char>,
    a: Seq<char>,
    b: Seq<char>,
    c: Seq<char>,
    d: Seq<char>,
)
    ensures
        occurs(needle, needle + a + b + c + d),
{
    assert((needle + a + b + c + d).subrange(0, needle.len() as int) =~= needle);
    assert(stands_at(needle + a + b + c + d, 0, needle));
}

proof fn lemma_lists_survive(p: PackageView)
    requires
        reads_cleanly(p),
    ensures
        forall|k: int| 0 <= k < p.deps.len() ==> occurs(#[trigger] p.deps[k], package_report(p)),
        forall|k: int|
            0 <= k < p.products.len() ==> occurs(#[trigger] p.products[k], package_report(p)),
        forall|k: int|
            0 <= k < p.targets.len() ==> occurs((#[trigger] p.targets[k]).0, package_report(p)) && (
            p.targets[k].1.len() > 0 ==> occurs(
                p.targets[k].0 + " ("@ + p.targets[k].1 + ")"@,
                package_report(p),
            )),
        p.deps.len() > 0 ==> occurs(
            "Dependencies ("@ + decimal(p.deps.len()) + "):"@,
            package_report(p),
        ),
        p.products.len() > 0 ==> occurs(
            "Products ("@ + decimal(p.products.len()) + "):"@,
            package_report(p),
        ),
        p.targets.len() > 0 ==> occurs(
            "Targets ("@ + decimal(p.targets.len()) + "):"@,
            package_report(p),
        ),
{
    let body = package_body(p);
    let a = "Package: "@ + p.name + "\n"@;
    let b = list_part("Dependencies ("@, p.deps);
    let c = list_part("Products ("@, p.products);
    let d = targets_part(p.targets);
    assert("Dependencies ("@.len() > 0 && !is_space("Dependencies ("@[0])) by {
        reveal_strlit("Dependencies (");
    }
    assert("Products ("@.len() > 0 && !is_space("Products ("@[0])) by {
        reveal_strlit("Products (");
    }
    assert(a + b + (c + d) =~= body);
    lemma_list_part_survives(a, "Dependencies ("@, p.deps, c + d);
    lemma_list_part_survives(a + b, "Products ("@, p.products, d);
    lemma_targets_part_survives(a + b + c, p.targets);
}

spec fn holds_target(p: PackageView, name: Seq<char>) -> bool {
    ||| p.section == Section::Targets && p.target == name
    ||| exists|k: int| 0 <= k < p.targets.len() && (#[trigger] p.targets[k]).0 == name
}

proof fn lemma_target_stays(p: PackageView, l: PackageLine<Seq<char>, FoundText>, name: Seq<char>)
    requires
        name.len() > 0,
        holds_target(p, name),
    ensures
        holds_target(package_step(p, l), name),
{
    let q = package_step(p, l);
    if exists|k: int| 0 <= k < p.targets.len() && (#[trigger] p.targets[k]).0 == name {
        let k = choose|k: int| 0 <= k < p.targets.len() && (#[trigger] p.targets[k]).0 == name;
        assert(q.targets[k].0 == name);
    } else if q.targets.len() > p.targets.len() {
        assert(q.targets[p.targets.len() as int].0 == name);
    }
}

proof fn lemma_target_lasts(
    ls: Seq<PackageLine<Seq<char>, FoundText>>,
    n: int,
    name: Seq<char>,
)
    requires
        0 <= n <= ls.len(),
        name.len() > 0,
        holds_target(package_read(ls.take(n)), name),
    ensures
        holds_target(package_read(ls), name),
    decreases ls.len(),
{
    if n < ls.len() {
        assert(ls.drop_last().take(n) =~= ls.take(n));
        lemma_target_lasts(ls.drop_last(), n, name);
        lemma_target_stays(package_read(ls.drop_last()), ls.last(), name);
    } else {
        assert(ls.take(n) =~= ls);
    }
}

/// Every name line in the section of the targets becomes a target of the
/// description, whether or not an empty line follows it.
pub proof fn law_package_target_listed(ls: Seq<PackageLine<Seq<char>, FoundText>>, i: int)
    requires
        0 <= i < ls.len(),
        package_read(ls.take(i)).section == Section::Targets,
        !is_header(ls[i].raw),
        ls[i].text.len() > 0,
        ls[i].name is Some,
        trimmed(group_text(ls[i].name, 1)).len() > 0,
    ensures
        exists|k: int|
            0 <= k < package_described(ls).targets.len() && (#[trigger] package_described(
                ls,
            ).targets[k]).0 == trimmed(group_text(ls[i].name, 1)),
{
    let name = trimmed(group_text(ls[i].name, 1));
    assert(ls.take(i + 1).drop_last() =~= ls.take(i));
    assert(holds_target(package_read(ls.take(i + 1)), name));
    lemma_target_lasts(ls, i + 1, name);
    let p = dep_flushed(package_read(ls));
    assert(holds_target(p, name));
    let q = target_flushed(p);
    if exists|k: int| 0 <= k < p.targets.len() && (#[trigger] p.targets[k]).0 == name {
        let k = choose|k: int| 0 <= k < p.targets.len() && (#[trigger] p.targets[k]).0 == name;
        assert(q.targets[k].0 == name);
    } else {
        assert(q.targets[p.targets.len() as int].0 == name);
    }
}

spec fn holds_dep(p: PackageView, name: Seq<char>) -> bool {
    ||| p.section == Section::Dependencies && p.dep.len() > 0 && begins_with(p.dep, name)
    ||| exists|k: int| 0 <= k < p.deps.len() && begins_with(#[trigger] p.deps[k], name)
}

proof fn lemma_dep_stays(p: PackageView, l: PackageLine<Seq<char>, FoundText>, name: Seq<char>)
    requires
        holds_dep(p, name),
    ensures
        holds_dep(package_step(p, l), name),
{
    let q = package_step(p, l);
    if exists|k: int| 0 <= k < p.deps.len() && begins_with(#[trigger] p.deps[k], name) {
        let k = choose|k: int| 0 <= k < p.deps.len() && begins_with(#[trigger] p.deps[k], name);
        assert(q.deps[k] == p.deps[k]);
    } else if q.deps.len() > p.deps.len() {
        assert(q.deps[p.deps.len() as int] == p.dep);
    } else {
        assert(q.dep.subrange(0, name.len() as int) =~= p.dep.subrange(0, name.len() as int));
    }
}

proof fn lemma_dep_lasts(ls: Seq<PackageLine<Seq<char>, FoundText>>, n: int, name: Seq<char>)
    requires
        0 <= n <= ls.len(),
        holds_dep(package_read(ls.take(n)), name),
    ensures
        holds_dep(package_read(ls), name),
    decreases ls.len(),
{
    if n < ls.len() {
        assert(ls.drop_last().take(n) =~= ls.take(n));
        lemma_dep_lasts(ls.drop_last(), n, name);
        lemma_dep_stays(package_read(ls.drop_last()), ls.last(), name);
    } else {
        assert(ls.take(n) =~= ls);
    }
}

/// Every name line in the section of the dependencies becomes a dependency of the
/// description; a version may be appended to the name.
pub proof fn law_package_dependency_listed(ls: Seq<PackageLine<Seq<char>, FoundText>>, i: int)
    requires
        0 <= i < ls.len(),
        package_read(ls.take(i)).section == Section::Dependencies,
        !is_header(ls[i].raw),
        ls[i].name is Some,
        trimmed(group_text(ls[i].name, 1)).len() > 0,
    ensures
        exists|k: int|
            0 <= k < package_described(ls).deps.len() && begins_with(
                #[trigger] package_described(ls).deps[k],
                trimmed(group_text(ls[i].name, 1)),
            ),
{
    let name = trimmed(group_text(ls[i].name, 1));
    assert(ls.take(i + 1).drop_last() =~= ls.take(i));
    let first = package_read(ls.take(i + 1));
    assert(first.dep.subrange(0, name.len() as int) =~= name);
    assert(holds_dep(first, name));
    lemma_dep_lasts(ls, i + 1, name);
    let p = package_read(ls);
    let q = dep_flushed(p);
    assert(package_described(ls).deps == q.deps);
    if exists|k: int| 0 <= k < p.deps.len() && begins_with(#[trigger] p.deps[k], name) {
        let k = choose|k: int| 0 <= k < p.deps.len() && begins_with(#[trigger] p.deps[k], name);
        assert(package_described(ls).deps[k] == p.deps[k]);
    } else {
        assert(package_described(ls).deps[p.deps.len() as int] == p.dep);
    }
}

/// Every name line in the section of the products becomes a product of the
/// description.
pub proof fn law_package_product_listed(ls: Seq<PackageLine<Seq<char>, FoundText>>, i: int)
    requires
        0 <= i < ls.len(),
        package_read(ls.take(i)).section == Section::Products,
        !is_header(ls[i].raw),
        ls[i].name is Some,
    ensures
        package_described(ls).products.contains(trimmed(group_text(ls[i].name, 1))),
{
    let name = trimmed(group_text(ls[i].name, 1));
    assert(ls.take(i + 1).drop_last() =~= ls.take(i));
    let first = package_read(ls.take(i + 1));
    assert(first.products[first.products.len() - 1] == name);
    lemma_product_lasts(ls, i + 1, name);
}

proof fn lemma_product_lasts(
    ls: Seq<PackageLine<Seq<char>, FoundText>>,
    n: int,
    name: Seq<char>,
)
    requires
        0 <= n <= ls.len(),
        package_read(ls.take(n)).products.contains(name),
    ensures
        package_read(ls).products.contains(name),
    decreases ls.len(),
{
    if n < ls.len() {
        assert(ls.drop_last().take(n) =~= ls.take(n));
        lemma_product_lasts(ls.drop_last(), n, name);
        let p = package_read(ls.drop_last());
        let k = choose|k: int| 0 <= k < p.products.len() && p.products[k] == name;
        assert(package_read(ls).products[k] == name);
    } else {
        assert(ls.take(n) =~= ls);
    }
}

} // verus!
