//! Filters for the command line tools of Apple's platforms.

pub mod simctl_cmd;
pub mod swift_cmd;
pub mod swiftlint_cmd;
pub mod xcodebuild_cmd;
pub mod xctrace_cmd;
