//! Filters `xctrace` (Instruments) output: listings of templates and devices, and
//! the summaries of recordings.

use crate::invocation::{
    behind, copied, notice, notice_of, Filter, Invocation, InvocationView,
};
use crate::text::{begins_with, join, joined, same_text, starts_with, views};
use vstd::prelude::*;

pub mod devices;
pub mod record;
pub mod templates;

verus! {

/// The kinds of `xctrace` output that there are filters for.
#[derive(Clone, Copy, Debug, PartialEq, Eq, Structural)]
pub enum Subcommand {
    ListTemplates,
    ListDevices,
    Record,
    Other,
}

/// The arguments that are no flags.
pub open spec fn positional(args: Seq<Seq<char>>) -> Seq<Seq<char>> {
    args.filter_map(
        |arg: Seq<char>|
            if begins_with(arg, "-"@) {
                None
            } else {
                Some(arg)
            },
    )
}

/// The subcommand that the arguments ask for: the first two that are no flags
/// decide.
pub open spec fn subcommand_of(args: Seq<Seq<char>>) -> Subcommand {
    let words = positional(args);
    if words.len() >= 2 && words[0] == "list"@ && begins_with(words[1], "template"@) {
        Subcommand::ListTemplates
    } else if words.len() >= 2 && words[0] == "list"@ && begins_with(words[1], "device"@) {
        Subcommand::ListDevices
    } else if words.len() >= 1 && words[0] == "record"@ {
        Subcommand::Record
    } else {
        Subcommand::Other
    }
}

/// Tells which subcommand the arguments ask for.
pub fn detect_subcommand(args: &[String]) -> (r: Subcommand)
    ensures
        r == subcommand_of(views(args@)),
{
    let mut words: Vec<String> = Vec::new();
    let ghost all = views(args@);
    for i in 0..args.len()
        invariant
            all == views(args@),
            views(words@) == positional(all.take(i as int)),
    {
        assert(all.take(i + 1).drop_last() =~= all.take(i as int));
        assert(all.take(i + 1).last() == args@[i as int]@);
        let ghost before = views(words@);
        if !starts_with(args[i].as_str(), "-") {
            words.push(args[i].clone());
            assert(views(words@) =~= before.push(args@[i as int]@));
        }
        assert(views(words@) =~= positional(all.take(i + 1)));
    }
    assert(all.take(all.len() as int) =~= all);
    let ghost ws = positional(all);
    if words.len() == 0 {
        return Subcommand::Other;
    }
    assert(ws[0] == words@[0]@);
    if words.len() >= 2 && same_text(words[0].as_str(), "list") {
        assert(ws[1] == words@[1]@);
        if starts_with(words[1].as_str(), "template") {
            return Subcommand::ListTemplates;
        }
        if starts_with(words[1].as_str(), "device") {
            return Subcommand::ListDevices;
        }
    }
    if same_text(words[0].as_str(), "record") {
        Subcommand::Record
    } else {
        Subcommand::Other
    }
}

// ─── Running the tool ───────────────────────────────────────────────────────

/// The filter for the output of a subcommand.
pub open spec fn filter_for(subcommand: Subcommand) -> Filter {
    match subcommand {
        Subcommand::ListTemplates => Filter::ListTemplates,
        Subcommand::ListDevices => Filter::ListDevices,
        Subcommand::Record => Filter::Record,
        Subcommand::Other => Filter::Trim,
    }
}

/// How `xcrun xctrace` is run with `args`.
pub open spec fn xctrace_plan(args: Seq<Seq<char>>, verbose: u8) -> InvocationView {
    InvocationView {
        program: "xcrun"@,
        args: seq!["xctrace"@] + args,
        notice: notice_of("xcrun xctrace"@, args, verbose),
        tool: "xctrace"@,
        display: joined(args, " "@),
        tee: Some("xctrace"@),
        filter: filter_for(subcommand_of(args)),
    }
}

/// Plans a run of `xcrun xctrace` with `args`.
pub fn run(args: &[String], verbose: u8) -> (r: Invocation)
    ensures
        r@ == xctrace_plan(views(args@), verbose),
{
    let filter = match detect_subcommand(args) {
        Subcommand::ListTemplates => Filter::ListTemplates,
        Subcommand::ListDevices => Filter::ListDevices,
        Subcommand::Record => Filter::Record,
        Subcommand::Other => Filter::Trim,
    };
    let r = Invocation {
        program: "xcrun".to_owned(),
        args: behind("xctrace", args),
        notice: notice("xcrun xctrace", args, verbose),
        tool: "xctrace".to_owned(),
        display: join(&copied(args), " "),
        tee: Some("xctrace".to_owned()),
        filter,
    };
    assert(r@ =~= xctrace_plan(views(args@), verbose));
    r
}

// ─── Laws ───────────────────────────────────────────────────────────────────

/// Flags do not matter, wherever they stand.
pub proof fn law_flags_ignored(before: Seq<Seq<char>>, flag: Seq<char>, after: Seq<Seq<char>>)
    requires
        begins_with(flag, "-"@),
    ensures
        subcommand_of(before.push(flag) + after) == subcommand_of(before + after),
{
    lemma_flag_dropped(before, flag, after);
}

proof fn lemma_flag_dropped(before: Seq<Seq<char>>, flag: Seq<char>, after: Seq<Seq<char>>)
    requires
        begins_with(flag, "-"@),
    ensures
        positional(before.push(flag) + after) == positional(before + after),
    decreases after.len(),
{
    if after.len() == 0 {
        assert(before.push(flag) + after =~= before.push(flag));
        assert(before + after =~= before);
        assert(before.push(flag).drop_last() =~= before);
    } else {
        lemma_flag_dropped(before, flag, after.drop_last());
        assert((before.push(flag) + after).drop_last() =~= before.push(flag) + after.drop_last());
        assert((before + after).drop_last() =~= before + after.drop_last());
    }
}

} // verus!
