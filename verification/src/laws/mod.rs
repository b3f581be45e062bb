//! What the library promises, stated on what goes in and what comes out: on the
//! lines of the output that a tool printed, and on the text of the report.
//!
//! The laws that need no more than a module's own steps stand at the end of that
//! module. Those here go from one end of a filter to the other. They use sequences
//! ([`Seq::filter_map`](vstd::seq::Seq::filter_map),
//! [`Seq::flatten`](vstd::seq::Seq::flatten)) where the filters use loops.

pub mod building;
pub mod devices;
pub mod layouts;
pub mod lint;
pub mod package;
pub mod patterns;
pub mod picks;
pub mod plans;
pub mod record;
pub mod rewriting;
pub mod running;
pub mod sim;
pub mod templates;
pub mod testing;
pub mod texts;
pub mod xcode;
