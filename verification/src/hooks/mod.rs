//! The hook that rewrites shell commands: what becomes of a command, and how
//! rewriting is switched on and off.

pub mod rewrite_cmd;
pub mod toggle;
