# rtk

Filters for the output of the command line tools of Apple's platforms, verified with
Verus, and the decisions of a hook that rewrites shell commands.

A filter takes what a tool printed and gives a short report. Errors of `swift build`,
`swift test` and `xcodebuild` are shown or counted, and so are the warnings of builds;
failed tests are listed and status lines kept; lint violations are counted by rule;
listings and recordings are summed up. Output of `xcodebuild`, `swiftlint` and
`swift package` that is not of the expected kind passes through.

| Tool | Filter |
|---|---|
| `swift build`, `swift test`, `swift package`, `swift run` | `src/cmds/apple/swift_cmd/` |
| `xcodebuild` | `src/cmds/apple/xcodebuild_cmd.rs` |
| `swiftlint` | `src/cmds/apple/swiftlint_cmd.rs` |
| `xcrun simctl list` | `src/cmds/apple/simctl_cmd.rs` |
| `xcrun xctrace` | `src/cmds/apple/xctrace_cmd/` |

`src/hooks/` decides what becomes of a command that the hook is asked about, and how
rewriting is switched on and off. `src/invocation.rs` says how a tool is run and which
filter its output gets. `app/` runs the tools, touches files and prints.

## What is proved

Every function of `src/` has an exact contract over text sequences. The functions whose
names begin with `law_` state what holds of the library as a whole, for all inputs: that
no error of a build or a test run gets lost and each list keeps the order of the output,
that what a list shows and what its note counts make up all of its items, that the
figures of a rule are those of its violations, that a deny rule fires whatever is
switched off.

## What is trusted

What a pattern finds in a line is the business of the `regex` crate. `src/pattern.rs`
gives the result of a search a name, and the contracts speak of that name. Besides, the
contract of `String::push` in `src/text.rs` is taken from the documentation of std.
Shares of stacks are printed by the caller, since they are floating point.
