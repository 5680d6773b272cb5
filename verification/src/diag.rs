//! Per-line diagnostics: the category of a recoverable parse failure and
//! the record that ties it to a line of the source file.

use vstd::prelude::*;

verus! {

/// The category of a recoverable per-line parse failure.
#[derive(Debug, Clone, Copy, PartialEq, Eq, Structural)]
pub enum InvalidType {
    Regex,
    SocketAddr,
    IpAddr,
    Timeout,
    Other,
}

/// A diagnostic for one malformed line: the 1-based line number within its
/// own file, the comment-stripped line text, and the failure category.
#[derive(Debug)]
pub struct Invalid {
    pub line: usize,
    pub source: String,
    pub kind: InvalidType,
}

/// Mathematical model of a diagnostic record.
pub struct InvalidModel {
    pub line: int,
    pub source: Seq<char>,
    pub kind: InvalidType,
}

impl View for Invalid {
    type V = InvalidModel;

    open spec fn view(&self) -> InvalidModel {
        InvalidModel { line: self.line as int, source: self.source@, kind: self.kind }
    }
}

/// The fixed description attached to each failure category.
pub open spec fn text_of(kind: InvalidType) -> Seq<char> {
    match kind {
        InvalidType::SocketAddr => "Cannot parse socket address"@,
        InvalidType::IpAddr => "Cannot parse ip address"@,
        InvalidType::Regex => "Cannot parse regular expression"@,
        InvalidType::Timeout => "Cannot parse timeout"@,
        InvalidType::Other => "Invalid line"@,
    }
}

impl InvalidType {
    /// Human-readable description of the category, for reporting.
    pub fn text(&self) -> (r: &str)
        ensures
            r@ == text_of(*self),
    {
        match self {
            InvalidType::SocketAddr => "Cannot parse socket address",
            InvalidType::IpAddr => "Cannot parse ip address",
            InvalidType::Regex => "Cannot parse regular expression",
            InvalidType::Timeout => "Cannot parse timeout",
            InvalidType::Other => "Invalid line",
        }
    }
}

} // verus!
