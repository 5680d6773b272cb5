//! A line-oriented domain-override configuration library: host-pattern
//! matchers, a first-match host table, and a directive parser with
//! per-line diagnostics and import resolution hooks.

pub mod addr;
pub mod diag;
pub mod host;
pub mod parse;
pub mod table;
pub mod text;
