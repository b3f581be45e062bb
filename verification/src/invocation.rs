//! How a tool is to be run: the command line, what to announce before it runs,
//! and the filter for what it prints.

use crate::cmds::apple::simctl_cmd::{filter_simctl_list, simctl_list_filtered};
use crate::cmds::apple::swift_cmd::building::{filter_swift_build, swift_build_filtered};
use crate::cmds::apple::swift_cmd::package::{filter_swift_package, swift_package_filtered};
use crate::cmds::apple::swift_cmd::running::{filter_swift_run, swift_run_filtered};
use crate::cmds::apple::swift_cmd::testing::{filter_swift_test, swift_test_filtered};
use crate::cmds::apple::swiftlint_cmd::{filter_swiftlint, swiftlint_filtered};
use crate::cmds::apple::xcodebuild_cmd::{filter_xcodebuild, xcodebuild_filtered};
use crate::cmds::apple::xctrace_cmd::devices::{filter_list_devices, list_devices_filtered};
use crate::cmds::apple::xctrace_cmd::record::{
    filter_record, printed_shares, record_lines, record_report, recording_of,
};
use crate::cmds::apple::xctrace_cmd::templates::{filter_list_templates, list_templates_filtered};
use crate::ansi::without_ansi;
use crate::text::{join, joined, trim, trimmed, views};
use vstd::prelude::*;

verus! {

/// The filters for the output of a tool. `Trim` keeps all of it but the
/// whitespace at its ends.
#[derive(Clone, Copy, Debug, PartialEq, Eq, Structural)]
pub enum Filter {
    SwiftBuild,
    SwiftTest,
    SwiftPackage,
    SwiftRun,
    Xcodebuild,
    Swiftlint,
    SimctlList,
    ListTemplates,
    ListDevices,
    Record,
    Trim,
}

/// How a tool is to be run, as text sequences.
#[verifier::ext_equal]
pub struct InvocationView {
    pub program: Seq<char>,
    pub args: Seq<Seq<char>>,
    pub notice: Option<Seq<char>>,
    pub tool: Seq<char>,
    pub display: Seq<char>,
    pub tee: Option<Seq<char>>,
    pub filter: Filter,
}

/// How a tool is to be run: the program and its arguments; the notice for the
/// error stream before it runs, if any; the names under which the tool and its
/// arguments are recorded; the name under which the raw output is kept, if it is;
/// and the filter.
pub struct Invocation {
    pub program: String,
    pub args: Vec<String>,
    pub notice: Option<String>,
    pub tool: String,
    pub display: String,
    pub tee: Option<String>,
    pub filter: Filter,
}

/// The text of an optional string.
pub open spec fn text_of(s: Option<String>) -> Option<Seq<char>> {
    match s {
        Some(text) => Some(text@),
        None => None,
    }
}

impl View for Invocation {
    type V = InvocationView;

    open spec fn view(&self) -> InvocationView {
        InvocationView {
            program: self.program@,
            args: views(self.args@),
            notice: text_of(self.notice),
            tool: self.tool@,
            display: self.display@,
            tee: text_of(self.tee),
            filter: self.filter,
        }
    }
}

/// The notice on what is run, for a verbose run.
pub open spec fn notice_of(label: Seq<char>, args: Seq<Seq<char>>, verbose: u8) -> Option<
    Seq<char>,
> {
    if verbose > 0 {
        Some("Running: "@ + label + " "@ + joined(args, " "@))
    } else {
        None
    }
}

/// The items of `args` behind `first`.
pub fn behind(first: &str, args: &[String]) -> (r: Vec<String>)
    ensures
        views(r@) == seq![first@] + views(args@),
{
    let mut out: Vec<String> = Vec::new();
    out.push(first.to_owned());
    let ghost all = seq![first@] + views(args@);
    assert(views(out@) =~= all.take(1));
    for i in 0..args.len()
        invariant
            all == seq![first@] + views(args@),
            views(out@) == all.take(i + 1),
    {
        let ghost before = views(out@);
        out.push(args[i].clone());
        assert(all[i + 1] == args@[i as int]@);
        assert(views(out@) =~= before.push(args@[i as int]@));
        assert(views(out@) =~= all.take(i + 2));
    }
    assert(views(out@) =~= all);
    out
}

/// A copy of `args`.
pub fn copied(args: &[String]) -> (r: Vec<String>)
    ensures
        views(r@) == views(args@),
{
    let mut out: Vec<String> = Vec::new();
    for i in 0..args.len()
        invariant
            views(out@) == views(args@).take(i as int),
    {
        let ghost before = views(out@);
        out.push(args[i].clone());
        assert(views(out@) =~= before.push(args@[i as int]@));
        assert(views(out@) =~= views(args@).take(i + 1));
    }
    assert(views(out@) =~= views(args@));
    out
}

/// Writes the notice on what is run.
pub fn notice(label: &str, args: &[String], verbose: u8) -> (r: Option<String>)
    ensures
        text_of(r) == notice_of(label@, views(args@), verbose),
{
    if verbose > 0 {
        let mut out = "Running: ".to_owned();
        out.append(label);
        out.append(" ");
        out.append(join(&copied(args), " ").as_str());
        Some(out)
    } else {
        None
    }
}

/// Whether there are no arguments, or the first of them is `word`.
pub open spec fn asks_for(args: Seq<Seq<char>>, word: Seq<char>) -> bool {
    args.len() == 0 || args[0] == word
}

/// Whether `out` is what the filter makes of the output `raw`, where `percent`
/// prints shares.
pub open spec fn filter_gives<F: Fn(&str) -> String>(
    filter: Filter,
    raw: Seq<char>,
    percent: F,
    out: Seq<char>,
) -> bool {
    match filter {
        Filter::SwiftBuild => out == swift_build_filtered(raw),
        Filter::SwiftTest => out == swift_test_filtered(raw),
        Filter::SwiftPackage => out == swift_package_filtered(raw),
        Filter::SwiftRun => out == swift_run_filtered(raw),
        Filter::Xcodebuild => out == xcodebuild_filtered(raw),
        Filter::Swiftlint => out == swiftlint_filtered(raw),
        Filter::SimctlList => out == simctl_list_filtered(raw),
        Filter::ListTemplates => out == list_templates_filtered(raw),
        Filter::ListDevices => out == list_devices_filtered(raw),
        Filter::Record => exists|shares: Seq<Seq<char>>|
            {
                &&& #[trigger] printed_shares(
                    percent,
                    recording_of(record_lines(without_ansi(raw))),
                    shares,
                )
                &&& out == record_report(recording_of(record_lines(without_ansi(raw))), shares)
            },
        Filter::Trim => out == trimmed(raw),
    }
}

/// Applies a filter to the output of a tool. `percent` prints the share of a stack:
/// it is given the digits of the output.
pub fn apply_filter<F: Fn(&str) -> String>(filter: Filter, raw: &str, percent: &F) -> (r: String)
    requires
        forall|arg: &str| percent.requires((arg,)),
    ensures
        filter_gives(filter, raw@, *percent, r@),
{
    match filter {
        Filter::SwiftBuild => filter_swift_build(raw),
        Filter::SwiftTest => filter_swift_test(raw),
        Filter::SwiftPackage => filter_swift_package(raw),
        Filter::SwiftRun => filter_swift_run(raw),
        Filter::Xcodebuild => filter_xcodebuild(raw),
        Filter::Swiftlint => filter_swiftlint(raw),
        Filter::SimctlList => filter_simctl_list(raw),
        Filter::ListTemplates => filter_list_templates(raw),
        Filter::ListDevices => filter_list_devices(raw),
        Filter::Record => filter_record(raw, percent),
        Filter::Trim => trim(raw),
    }
}

} // verus!
