//! Non-fatal problems collected while reading a distribution.
use vstd::prelude::*;

verus! {

/// Severity of a [`Diagnostic`].
#[derive(Debug, Clone, Copy, PartialEq, Eq, Structural)]
pub enum Severity {
    /// Something looks off, but processing could continue losslessly.
    Warning,
    /// Part of the data had to be skipped or left incomplete.
    Error,
}

/// A non-fatal problem encountered while opening or parsing a
/// distribution.
///
/// Fatal problems are reported as [`crate::error::Error`]; diagnostics
/// cover everything the library could recover from, so that callers can
/// show them to the user instead of silently "fixing" things.
#[derive(Debug)]
pub struct Diagnostic {
    /// Severity of the problem.
    pub severity: Severity,
    /// Human-readable description.
    pub message: String,
    /// Optional origin, e.g. `eoe.idb:18422`.
    pub origin: Option<String>,
}

/// `d` begins with `d0`: the diagnostics already reported are kept.
pub open spec fn keeps(d0: Seq<Diagnostic>, d: Seq<Diagnostic>) -> bool {
    &&& d0.len() <= d.len()
    &&& forall|i: int| 0 <= i < d0.len() ==> #[trigger] d[i] == d0[i]
}

impl Diagnostic {
    /// Creates a warning diagnostic.
    pub fn warning(message: String, origin: Option<String>) -> (d: Diagnostic)
        ensures
            d.severity == Severity::Warning,
            d.message == message,
            d.origin == origin,
    {
        Diagnostic { severity: Severity::Warning, message, origin }
    }

    /// Creates an error diagnostic.
    pub fn error(message: String, origin: Option<String>) -> (d: Diagnostic)
        ensures
            d.severity == Severity::Error,
            d.message == message,
            d.origin == origin,
    {
        Diagnostic { severity: Severity::Error, message, origin }
    }
}

impl Clone for Diagnostic {
    fn clone(&self) -> (r: Self)
        ensures
            r.severity == self.severity,
            r.message@ == self.message@,
            r.origin == self.origin,
    {
        Diagnostic { severity: self.severity, message: self.message.clone(), origin: self.origin.clone() }
    }
}

} // verus!
