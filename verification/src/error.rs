//! The two-severity error taxonomy shared by both invocation paths.
//!
//! `Warning` marks expected, non-alerting conditions (a malformed event, a
//! group that vanished before it could be described); `Error` marks backend
//! failures that must fail the invocation.

use vstd::prelude::*;

verus! {

/// How serious an [`Error`] is: `Warning` is reported as a non-failing
/// outcome, `Error` fails the invocation.
#[derive(Debug, Clone, Copy, PartialEq, Eq, Structural)]
pub enum Severity {
    Warning,
    Error,
}

/// A failure with a human-readable message and a severity.
#[derive(Debug, Clone)]
pub struct Error {
    pub message: String,
    pub severity: Severity,
}

impl Error {
    /// Wraps a transport failure reported by the log-service client.
    /// Client failures are always `Error` severity: they must fail the
    /// invocation rather than be reported as benign.
    pub fn from_client(message: String) -> (r: Error)
        ensures
            r.message == message,
            r.severity == Severity::Error,
    {
        Error { message, severity: Severity::Error }
    }
}

} // verus!
