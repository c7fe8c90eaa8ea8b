use vstd::prelude::*;
use crate::span::Span;

verus! {

/// How serious a diagnostic is.
#[derive(Clone, Copy, Debug, PartialEq, Eq, Structural)]
pub enum Severity {
    Error,
    Warning,
}

/// A message about a source location.
#[derive(Clone, Debug, PartialEq, Eq)]
pub struct Diagnostic {
    pub severity: Severity,
    /// A short stable identifier of the kind of problem.
    pub code: String,
    pub message: String,
    /// The location the message is about.
    pub primary: Span,
}

impl Diagnostic {
    /// An error diagnostic.
    pub fn error(code: &str, message: String, primary: Span) -> (d: Diagnostic)
        ensures
            d.severity == Severity::Error,
            d.code@ == code@,
            d.message == message,
            d.primary == primary,
    {
        Diagnostic { severity: Severity::Error, code: code.to_owned(), message, primary }
    }
}

} // verus!
