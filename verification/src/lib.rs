//! Condenses what the command line tools of Apple's platforms print, so that errors,
//! warnings, failures and status lines stay and the rest goes, and decides what
//! becomes of a shell command that a hook is asked about.
//!
//! A filter works in three steps. It removes escape sequences and searches each
//! line for its patterns, which is the business of the `regex` crate ([`pattern`]);
//! it sums up what the searches found; and it writes a report ([`report`]). The
//! steps are functions of their own, each with an exact contract, and the laws at
//! the end of each module say what no report may lose.
//!
//! - [`cmds`]: the filters, and how each tool is run;
//! - [`invocation`]: the plan for running a tool, and the choice of its filter;
//! - [`hooks`]: the rewriting of commands, and the switches for it;
//! - [`laws`]: what is promised of the filters, from the lines that go in to the text
//!   that comes out;
//! - [`text`], [`ansi`], [`groups`], [`permutation`]: text, escape sequences, values by
//!   key, and what does not depend on the order of a list.

pub mod ansi;
pub mod cmds;
pub mod groups;
pub mod hooks;
pub mod invocation;
pub mod laws;
pub mod pattern;
pub mod permutation;
pub mod report;
pub mod text;
