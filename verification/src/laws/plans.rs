//! How the tools are run: what is put on the command line, what is announced, and
//! which filter reads the output.

use crate::ansi::without_ansi;
use crate::cmds::apple::simctl_cmd::{simctl_list_filtered, simctl_plan};
use crate::cmds::apple::swift_cmd::building::swift_build_filtered;
use crate::cmds::apple::swift_cmd::package::swift_package_filtered;
use crate::cmds::apple::swift_cmd::running::swift_run_filtered;
use crate::cmds::apple::swift_cmd::testing::swift_test_filtered;
use crate::cmds::apple::swift_cmd::{
    build_plan, package_plan, run_plan, swift_plan, test_plan, SwiftCommand,
};
use crate::cmds::apple::swiftlint_cmd::{swiftlint_filtered, swiftlint_plan};
use crate::cmds::apple::xcodebuild_cmd::{xcodebuild_filtered, xcodebuild_plan};
use crate::cmds::apple::xctrace_cmd::devices::list_devices_filtered;
use crate::cmds::apple::xctrace_cmd::record::{
    printed_shares, record_lines, record_report, recording_of,
};
use crate::cmds::apple::xctrace_cmd::templates::list_templates_filtered;
use crate::cmds::apple::xctrace_cmd::{positional, xctrace_plan};
use crate::invocation::{filter_gives, Filter, Invocation, InvocationView};
use crate::text::{begins_with, joined, trimmed};
use vstd::prelude::*;

verus! {

/// What every plan does with the arguments: it puts them, all of them and in order,
/// behind the words that the tool needs; it records them under the name of the tool;
/// and it announces them, behind the label, only where that was asked for.
pub open spec fn passes_on(
    plan: InvocationView,
    words: Seq<Seq<char>>,
    label: Seq<char>,
    args: Seq<Seq<char>>,
    verbose: u8,
) -> bool {
    &&& plan.args == words + args
    &&& plan.display == joined(args, " "@)
    &&& verbose == 0 ==> plan.notice is None
    &&& verbose > 0 ==> plan.notice == Some("Running: "@ + label + " "@ + joined(args, " "@))
}

/// `swift` gets the subcommand and the arguments. The raw output is kept, but for
/// packages. A package is described where nothing else was asked for.
pub proof fn law_swift_plans(args: Seq<Seq<char>>, verbose: u8)
    ensures
        ({
            let plan = swift_plan(SwiftCommand::Build, args, verbose);
            &&& passes_on(plan, seq!["build"@], "swift build"@, args, verbose)
            &&& plan.program == "swift"@ && plan.tool == "swift build"@
            &&& plan.tee == Some("swift-build"@) && plan.filter is SwiftBuild
            &&& plan == build_plan(args, verbose)
        }),
        ({
            let plan = swift_plan(SwiftCommand::Test, args, verbose);
            &&& passes_on(plan, seq!["test"@], "swift test"@, args, verbose)
            &&& plan.program == "swift"@ && plan.tool == "swift test"@
            &&& plan.tee == Some("swift-test"@) && plan.filter is SwiftTest
            &&& plan == test_plan(args, verbose)
        }),
        ({
            let plan = swift_plan(SwiftCommand::Run, args, verbose);
            &&& passes_on(plan, seq!["run"@], "swift run"@, args, verbose)
            &&& plan.program == "swift"@ && plan.tool == "swift run"@
            &&& plan.tee == Some("swift-run"@) && plan.filter is SwiftRun
            &&& plan == run_plan(args, verbose)
        }),
        ({
            let plan = swift_plan(SwiftCommand::Package, args, verbose);
            &&& passes_on(plan, seq!["package"@], "swift package"@, args, verbose)
            &&& plan.program == "swift"@ && plan.tool == "swift package"@ && plan.tee is None
            &&& args.len() == 0 || args[0] == "describe"@ ==> plan.filter is SwiftPackage
            &&& args.len() > 0 && args[0] != "describe"@ ==> plan.filter is Trim
            &&& plan == package_plan(args, verbose)
        }),
{
}

/// `xcodebuild` and `swiftlint` get the arguments as they are.
pub proof fn law_xcodebuild_and_swiftlint_plans(args: Seq<Seq<char>>, verbose: u8)
    ensures
        ({
            let plan = xcodebuild_plan(args, verbose);
            &&& passes_on(plan, seq![], "xcodebuild"@, args, verbose)
            &&& plan.program == "xcodebuild"@ && plan.tool == "xcodebuild"@
            &&& plan.tee == Some("xcodebuild"@) && plan.filter is Xcodebuild
        }),
        ({
            let plan = swiftlint_plan(args, verbose);
            &&& passes_on(plan, seq![], "swiftlint"@, args, verbose)
            &&& plan.program == "swiftlint"@ && plan.tool == "swiftlint"@
            &&& plan.tee == Some("swiftlint"@) && plan.filter is Swiftlint
        }),
{
    assert(args =~= Seq::<Seq<char>>::empty() + args);
}

/// `xcrun simctl` lists where it got no arguments. A list is condensed, other output
/// is trimmed.
pub proof fn law_simctl_plan(args: Seq<Seq<char>>, verbose: u8)
    ensures
        ({
            let plan = simctl_plan(args, verbose);
            &&& args.len() > 0 ==> passes_on(
                plan,
                seq!["simctl"@],
                "xcrun simctl"@,
                args,
                verbose,
            )
            &&& args.len() == 0 ==> plan.args == seq!["simctl"@, "list"@]
            &&& args.len() == 0 ==> plan.display == joined(args, " "@) && plan.notice == (
            if verbose > 0 {
                Some("Running: "@ + "xcrun simctl"@ + " "@ + joined(args, " "@))
            } else {
                None
            })
            &&& plan.program == "xcrun"@ && plan.tool == "simctl"@ && plan.tee == Some("simctl"@)
            &&& args.len() == 0 || args[0] == "list"@ ==> plan.filter is SimctlList
            &&& args.len() > 0 && args[0] != "list"@ ==> plan.filter is Trim
        }),
{
}

/// `xcrun xctrace` gets the arguments as they are. What is no option decides on the
/// filter: `list` with templates or with devices, or `record`; other output is
/// trimmed.
pub proof fn law_xctrace_plan(args: Seq<Seq<char>>, verbose: u8)
    ensures
        ({
            let plan = xctrace_plan(args, verbose);
            let words = args.filter_map(
                |arg: Seq<char>|
                    if begins_with(arg, "-"@) {
                        None
                    } else {
                        Some(arg)
                    },
            );
            let lists = words.len() > 1 && words[0] == "list"@;
            let records = words.len() > 0 && words[0] == "record"@;
            &&& passes_on(plan, seq!["xctrace"@], "xcrun xctrace"@, args, verbose)
            &&& plan.program == "xcrun"@ && plan.tool == "xctrace"@ && plan.tee == Some("xctrace"@)
            &&& plan.filter is ListTemplates <==> lists && begins_with(words[1], "template"@)
            &&& plan.filter is ListDevices <==> lists && begins_with(words[1], "device"@)
            &&& plan.filter is Record <==> records
            &&& plan.filter is Trim || plan.filter is ListTemplates || plan.filter is ListDevices
                || plan.filter is Record
        }),
{
    let words = positional(args);
    assert("list"@ != "record"@) by {
        reveal_strlit("list");
        reveal_strlit("record");
        assert("list"@.len() != "record"@.len());
    }
    if words.len() > 1 && begins_with(words[1], "template"@) && begins_with(words[1], "device"@) {
        reveal_strlit("template");
        reveal_strlit("device");
        assert(words[1].subrange(0, 8)[0] == words[1].subrange(0, 6)[0]);
    }
}

/// A plan is seen as it is carried out.
pub proof fn law_plan_is_seen(plan: Invocation)
    ensures
        plan@.program == plan.program@,
        plan@.args == plan.args@.map_values(|arg: String| arg@),
        plan.notice is None ==> plan@.notice is None,
        plan.notice is Some ==> plan@.notice == Some(plan.notice->0@),
        plan@.tool == plan.tool@,
        plan@.display == plan.display@,
        plan.tee is None ==> plan@.tee is None,
        plan.tee is Some ==> plan@.tee == Some(plan.tee->0@),
        plan@.filter == plan.filter,
{
}

/// Each filter is the one that its name says.
pub proof fn law_filters<F: Fn(&str) -> String>(raw: Seq<char>, percent: F, out: Seq<char>)
    ensures
        filter_gives(Filter::SwiftBuild, raw, percent, out) <==> out == swift_build_filtered(raw),
        filter_gives(Filter::SwiftTest, raw, percent, out) <==> out == swift_test_filtered(raw),
        filter_gives(Filter::SwiftPackage, raw, percent, out) <==> out == swift_package_filtered(
            raw,
        ),
        filter_gives(Filter::SwiftRun, raw, percent, out) <==> out == swift_run_filtered(raw),
        filter_gives(Filter::Xcodebuild, raw, percent, out) <==> out == xcodebuild_filtered(raw),
        filter_gives(Filter::Swiftlint, raw, percent, out) <==> out == swiftlint_filtered(raw),
        filter_gives(Filter::SimctlList, raw, percent, out) <==> out == simctl_list_filtered(raw),
        filter_gives(Filter::ListTemplates, raw, percent, out) <==> out
            == list_templates_filtered(raw),
        filter_gives(Filter::ListDevices, raw, percent, out) <==> out == list_devices_filtered(
            raw,
        ),
        filter_gives(Filter::Trim, raw, percent, out) <==> out == trimmed(raw),
        filter_gives(Filter::Record, raw, percent, out) <==> exists|shares: Seq<Seq<char>>|
            #[trigger] printed_shares(
                percent,
                recording_of(record_lines(without_ansi(raw))),
                shares,
            ) && out == record_report(recording_of(record_lines(without_ansi(raw))), shares),
{
}

} // verus!
