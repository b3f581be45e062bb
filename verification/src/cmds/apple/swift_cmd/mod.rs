//! Filters `swift` command output: builds, tests, package descriptions, and the
//! output of programs that were built and run.

use crate::invocation::{
    asks_for, behind, copied, notice, notice_of, Filter, Invocation, InvocationView,
};
use crate::text::{join, joined, same_text, views};
use vstd::prelude::*;

pub mod building;
pub mod package;
pub mod running;
pub mod testing;

verus! {

/// The subcommands of `swift` that there are filters for.
#[derive(Debug, Clone, Copy)]
pub enum SwiftCommand {
    Build,
    Test,
    Package,
    Run,
}

/// How `swift build` is run with `args`.
pub open spec fn build_plan(args: Seq<Seq<char>>, verbose: u8) -> InvocationView {
    InvocationView {
        program: "swift"@,
        args: seq!["build"@] + args,
        notice: notice_of("swift build"@, args, verbose),
        tool: "swift build"@,
        display: joined(args, " "@),
        tee: Some("swift-build"@),
        filter: Filter::SwiftBuild,
    }
}

/// Plans a run of `swift build` with `args`.
pub fn run_build(args: &[String], verbose: u8) -> (r: Invocation)
    ensures
        r@ == build_plan(views(args@), verbose),
{
    let filter = Filter::SwiftBuild;
    let r = Invocation {
        program: "swift".to_owned(),
        args: behind("build", args),
        notice: notice("swift build", args, verbose),
        tool: "swift build".to_owned(),
        display: join(&copied(args), " "),
        tee: Some("swift-build".to_owned()),
        filter,
    };
    assert(r@ =~= build_plan(views(args@), verbose));
    r
}

/// How `swift test` is run with `args`.
pub open spec fn test_plan(args: Seq<Seq<char>>, verbose: u8) -> InvocationView {
    InvocationView {
        program: "swift"@,
        args: seq!["test"@] + args,
        notice: notice_of("swift test"@, args, verbose),
        tool: "swift test"@,
        display: joined(args, " "@),
        tee: Some("swift-test"@),
        filter: Filter::SwiftTest,
    }
}

/// Plans a run of `swift test` with `args`.
pub fn run_test(args: &[String], verbose: u8) -> (r: Invocation)
    ensures
        r@ == test_plan(views(args@), verbose),
{
    let filter = Filter::SwiftTest;
    let r = Invocation {
        program: "swift".to_owned(),
        args: behind("test", args),
        notice: notice("swift test", args, verbose),
        tool: "swift test".to_owned(),
        display: join(&copied(args), " "),
        tee: Some("swift-test".to_owned()),
        filter,
    };
    assert(r@ =~= test_plan(views(args@), verbose));
    r
}

/// How `swift run` is run with `args`.
pub open spec fn run_plan(args: Seq<Seq<char>>, verbose: u8) -> InvocationView {
    InvocationView {
        program: "swift"@,
        args: seq!["run"@] + args,
        notice: notice_of("swift run"@, args, verbose),
        tool: "swift run"@,
        display: joined(args, " "@),
        tee: Some("swift-run"@),
        filter: Filter::SwiftRun,
    }
}

/// Plans a run of `swift run` with `args`.
pub fn run_run(args: &[String], verbose: u8) -> (r: Invocation)
    ensures
        r@ == run_plan(views(args@), verbose),
{
    let filter = Filter::SwiftRun;
    let r = Invocation {
        program: "swift".to_owned(),
        args: behind("run", args),
        notice: notice("swift run", args, verbose),
        tool: "swift run".to_owned(),
        display: join(&copied(args), " "),
        tee: Some("swift-run".to_owned()),
        filter,
    };
    assert(r@ =~= run_plan(views(args@), verbose));
    r
}

/// How `swift package` is run with `args`. Only descriptions have a filter: the
/// output of the other subcommands has other forms.
pub open spec fn package_plan(args: Seq<Seq<char>>, verbose: u8) -> InvocationView {
    InvocationView {
        program: "swift"@,
        args: seq!["package"@] + args,
        notice: notice_of("swift package"@, args, verbose),
        tool: "swift package"@,
        display: joined(args, " "@),
        tee: None,
        filter: if asks_for(args, "describe"@) {
            Filter::SwiftPackage
        } else {
            Filter::Trim
        },
    }
}

/// Plans a run of `swift package` with `args`.
pub fn run_package(args: &[String], verbose: u8) -> (r: Invocation)
    ensures
        r@ == package_plan(views(args@), verbose),
{
    let filter = if args.len() == 0 || same_text(args[0].as_str(), "describe") {
        Filter::SwiftPackage
    } else {
        Filter::Trim
    };
    let r = Invocation {
        program: "swift".to_owned(),
        args: behind("package", args),
        notice: notice("swift package", args, verbose),
        tool: "swift package".to_owned(),
        display: join(&copied(args), " "),
        tee: None,
        filter,
    };
    assert(r@ =~= package_plan(views(args@), verbose));
    r
}

/// How a subcommand of `swift` is run with `args`.
pub open spec fn swift_plan(
    cmd: SwiftCommand,
    args: Seq<Seq<char>>,
    verbose: u8,
) -> InvocationView {
    match cmd {
        SwiftCommand::Build => build_plan(args, verbose),
        SwiftCommand::Test => test_plan(args, verbose),
        SwiftCommand::Package => package_plan(args, verbose),
        SwiftCommand::Run => run_plan(args, verbose),
    }
}

/// Plans a run of a subcommand of `swift` with `args`.
pub fn run(cmd: SwiftCommand, args: &[String], verbose: u8) -> (r: Invocation)
    ensures
        r@ == swift_plan(cmd, views(args@), verbose),
{
    match cmd {
        SwiftCommand::Build => run_build(args, verbose),
        SwiftCommand::Test => run_test(args, verbose),
        SwiftCommand::Package => run_package(args, verbose),
        SwiftCommand::Run => run_run(args, verbose),
    }
}

} // verus!
