//! Filters, by the family of the commands whose output they condense.

pub mod apple;
