//! One job from payload to stored rows, and the worker loop's two states.
use vstd::prelude::*;

use crate::chunker::{chunk_document, is_blank, is_trimmed, pieces_cover, split_of, texts_of, CHUNK_CAPACITY};
use crate::error::{JobError, ProviderIssue};
use crate::index::{planned_rows, plan_write, upserted, MemoryIndex, WritePlan};

verus! {

/// A request to index (or re-index) one document.
pub struct Job {
    pub document_id: u128,
    pub content: String,
    pub model: String,
}

/// A job whose content has been split into chunks, ready to be embedded.
pub struct PreparedJob {
    pub document_id: u128,
    pub model: String,
    pub chunks: Vec<String>,
}

/// Splits the job's content; the chunks are what is sent for embedding, in order.
pub fn prepare(job: Job) -> (r: PreparedJob)
    ensures
        r.document_id == job.document_id,
        r.model@ == job.model@,
        texts_of(r.chunks@) == split_of(job.content@, CHUNK_CAPACITY as nat),
        pieces_cover(job.content@, texts_of(r.chunks@)),
        forall|i: int| 0 <= i < r.chunks@.len() ==> is_trimmed(#[trigger] r.chunks@[i]@),
        forall|i: int| 0 <= i < r.chunks@.len() ==> (#[trigger] r.chunks@[i]@).len() <= CHUNK_CAPACITY,
        is_blank(job.content@) ==> r.chunks@.len() == 0,
{
    let chunks = chunk_document(job.content.as_str());
    PreparedJob { document_id: job.document_id, model: job.model, chunks }
}

/// Turns the provider's answer for a prepared job into the write that replaces
/// the document's rows. A failed call, or one vector too many or too few, aborts
/// the job before anything is written.
pub fn finish_embedding<E>(prepared: PreparedJob, embedded: Result<Vec<E>, ProviderIssue>) -> (r:
    Result<WritePlan<E>, JobError>)
    ensures
        match embedded {
            Err(issue) => r == Err::<WritePlan<E>, JobError>(JobError::Provider(issue)),
            Ok(vectors) => match r {
                Ok(p) => {
                    &&& prepared.chunks@.len() == vectors@.len()
                    &&& p.document_id == prepared.document_id
                    &&& p.rows@ == planned_rows(prepared.document_id, prepared.chunks@, vectors@)
                    &&& p.wf()
                },
                Err(e) => {
                    &&& prepared.chunks@.len() != vectors@.len()
                    &&& e == JobError::Provider(
                        ProviderIssue::CountMismatch {
                            expected: prepared.chunks@.len() as usize,
                            received: vectors@.len() as usize,
                        },
                    )
                },
            },
        },
{
    match embedded {
        Err(issue) => Err(JobError::Provider(issue)),
        Ok(vectors) => plan_write(prepared.document_id, prepared.chunks, vectors),
    }
}

/// Runs the write step of a job against an in-memory index. On success the
/// document's rows are replaced and the number of rows written is returned; on
/// any failure the index is left exactly as it was.
pub fn index_job<E>(
    index: &mut MemoryIndex<E>,
    prepared: PreparedJob,
    embedded: Result<Vec<E>, ProviderIssue>,
) -> (r: Result<usize, JobError>)
    ensures
        match embedded {
            Err(issue) => {
                &&& r == Err::<usize, JobError>(JobError::Provider(issue))
                &&& final(index).contents() == old(index).contents()
            },
            Ok(vectors) => if prepared.chunks@.len() == vectors@.len() {
                &&& r == Ok::<usize, JobError>(prepared.chunks@.len() as usize)
                &&& final(index).contents() == upserted(
                    old(index).contents(),
                    prepared.document_id,
                    planned_rows(prepared.document_id, prepared.chunks@, vectors@),
                )
            } else {
                &&& r == Err::<usize, JobError>(
                    JobError::Provider(
                        ProviderIssue::CountMismatch {
                            expected: prepared.chunks@.len() as usize,
                            received: vectors@.len() as usize,
                        },
                    ),
                )
                &&& final(index).contents() == old(index).contents()
            },
        },
{
    match finish_embedding(prepared, embedded) {
        Err(e) => Err(e),
        Ok(plan) => {
            let n = plan.rows.len();
            index.apply(plan);
            Ok(n)
        },
    }
}

/// Where the worker loop stands.
#[derive(Debug, Clone, Copy, PartialEq, Eq, Structural)]
pub enum WorkerState {
    /// Blocked on the queue.
    Waiting,
    /// Running the pipeline for one job.
    Processing,
}

/// What happened since the last step of the worker loop.
pub enum WorkerEvent {
    /// The queue handed out a payload.
    Dequeued,
    /// The queue's wait ran out with nothing to hand out.
    QueueTimedOut,
    /// The pipeline returned for the current job, with its outcome.
    Finished(Result<usize, JobError>),
}

/// The loop's next state: a dequeue starts processing, a timeout keeps waiting,
/// and a finished job returns to waiting whatever its outcome. Events that do
/// not fit the state leave it unchanged.
pub fn next_state(state: WorkerState, event: &WorkerEvent) -> (r: WorkerState)
    ensures
        r == match (state, event) {
            (WorkerState::Waiting, WorkerEvent::Dequeued) => WorkerState::Processing,
            (WorkerState::Processing, WorkerEvent::Finished(_)) => WorkerState::Waiting,
            _ => state,
        },
{
    match (state, event) {
        (WorkerState::Waiting, WorkerEvent::Dequeued) => WorkerState::Processing,
        (WorkerState::Processing, WorkerEvent::Finished(_)) => WorkerState::Waiting,
        _ => state,
    }
}

} // verus!
