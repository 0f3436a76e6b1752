//! Filters diagnostic-style text by the source-line number each line refers to.
//!
//! The library parses an inclusive line range such as `"10-20"`, classifies
//! each input line as location-bearing (a parseable `file:line:...` or
//! `--> file:line:col` locator) or plain, and keeps or drops lines against
//! the optional range.

pub mod classify;
pub mod filter;
pub mod laws;
pub mod range;
pub mod text;
