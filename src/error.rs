//! Why a job failed.
use vstd::prelude::*;

verus! {

/// What went wrong with the embedding provider.
#[derive(Debug, Clone, Copy, PartialEq, Eq, Structural)]
pub enum ProviderIssue {
    /// The call itself failed (authentication, rate limit, unknown model, ...).
    CallFailed,
    /// The call answered with a number of vectors other than the number of chunks.
    CountMismatch { expected: usize, received: usize },
}

/// Why one job was dropped. The worker reports it and goes on with the next job.
#[derive(Debug, Clone, Copy, PartialEq, Eq, Structural)]
pub enum JobError {
    /// The payload is not a job.
    Decode,
    /// The embedding step failed; nothing was written.
    Provider(ProviderIssue),
    /// The transaction failed and was rolled back.
    Storage,
}

} // verus!
