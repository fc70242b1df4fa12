//! The error kinds of a run. All of them are terminal: nothing is retried
//! and there is no partial success.

use vstd::prelude::*;

verus! {

/// Why a run failed.
#[derive(Clone, Copy, Debug, PartialEq, Eq)]
pub enum ExportError {
    /// The input does not match the expected report shape. Raised before any
    /// submission is attempted.
    MalformedReport,
    /// The network transmission itself failed.
    TransportError,
    /// The remote endpoint rejected the credential or the payload.
    RejectedError,
}

impl ExportError {
    /// A short description of the error kind.
    pub fn describe(&self) -> (r: &'static str)
        ensures
            *self is MalformedReport ==> r@ == "invalid report format"@,
            *self is TransportError ==> r@ == "unable to reach the metrics endpoint"@,
            *self is RejectedError ==> r@ == "the metrics endpoint rejected the submission"@,
    {
        match self {
            ExportError::MalformedReport => "invalid report format",
            ExportError::TransportError => "unable to reach the metrics endpoint",
            ExportError::RejectedError => "the metrics endpoint rejected the submission",
        }
    }
}

} // verus!
