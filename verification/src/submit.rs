//! The submission contract: one logical submission per run, a trivial
//! two-state outcome, no retries and no partial-batch semantics. The network
//! call itself is an external collaborator; this module fixes what must
//! hold before the attempt and what each outcome means for the run.

use vstd::prelude::*;

use crate::error::ExportError;

verus! {

/// What the transport reported for the single submission attempt of a run.
#[derive(Clone, Copy, Debug, PartialEq, Eq)]
pub enum SubmissionOutcome {
    /// The endpoint acknowledged the whole batch.
    Delivered,
    /// The network transmission failed.
    TransportFailure,
    /// The endpoint rejected the credential or the payload.
    Rejected,
}

/// Checks the submission precondition: the credential must be non-empty.
/// The batch itself may be empty — a no-op submission is permitted.
pub fn check_credential(api_key: &String) -> (r: Result<(), ExportError>)
    ensures
        r is Ok <==> api_key@.len() > 0,
        r is Err ==> r == Err::<(), ExportError>(ExportError::RejectedError),
{
    if api_key.as_str().unicode_len() > 0 {
        Ok(())
    } else {
        Err(ExportError::RejectedError)
    }
}

/// Maps the outcome of the single submission attempt to the run's result:
/// either the whole batch was accepted, or the run failed with the matching
/// terminal error. There is no retry and no partial success.
pub fn finish_submission(outcome: &SubmissionOutcome) -> (r: Result<(), ExportError>)
    ensures
        *outcome is Delivered <==> r is Ok,
        *outcome is TransportFailure <==> r == Err::<(), ExportError>(
            ExportError::TransportError,
        ),
        *outcome is Rejected <==> r == Err::<(), ExportError>(ExportError::RejectedError),
{
    match outcome {
        SubmissionOutcome::Delivered => Ok(()),
        SubmissionOutcome::TransportFailure => Err(ExportError::TransportError),
        SubmissionOutcome::Rejected => Err(ExportError::RejectedError),
    }
}

} // verus!
