use vexi_worker::chunker::{chunk_document, chunk_text, CHUNK_CAPACITY};
use vexi_worker::error::{JobError, ProviderIssue};
use vexi_worker::index::{plan_write, MemoryIndex};
use vexi_worker::pipeline::{finish_embedding, index_job, next_state, prepare, Job, PreparedJob, WorkerEvent, WorkerState};

type Snapshot = Vec<(u128, usize, String, Vec<i64>)>;

fn snapshot(index: &MemoryIndex<Vec<i64>>) -> Snapshot {
    index
        .rows()
        .iter()
        .map(|r| (r.document_id, r.chunk_index, r.chunk_text.clone(), r.embedding.clone()))
        .collect()
}

fn rows_for(index: &MemoryIndex<Vec<i64>>, id: u128) -> Snapshot {
    snapshot(index).into_iter().filter(|r| r.0 == id).collect()
}

fn job(id: u128, content: &str) -> Job {
    Job { document_id: id, content: content.to_string(), model: "m".to_string() }
}

fn fake_vectors(n: usize) -> Vec<Vec<i64>> {
    (0..n).map(|i| vec![i as i64, 1, 2]).collect()
}

fn no_ws(s: &str) -> String {
    s.chars().filter(|c| !c.is_whitespace()).collect()
}

fn run(index: &mut MemoryIndex<Vec<i64>>, j: Job) -> Result<usize, JobError> {
    let p = prepare(j);
    let n = p.chunks.len();
    index_job(index, p, Ok(fake_vectors(n)))
}

#[test]
fn empty_content_has_no_chunks() {
    assert!(chunk_document("").is_empty());
    assert!(chunk_document("  \n\t \r\n ").is_empty());
}

#[test]
fn long_run_is_cut_at_capacity() {
    let text = "a".repeat(1200);
    let chunks = chunk_document(&text);
    let lens: Vec<usize> = chunks.iter().map(|c| c.chars().count()).collect();
    assert_eq!(lens, vec![500, 500, 200]);
    assert_eq!(chunks.concat(), text);
}

#[test]
fn chunks_are_trimmed_and_prefer_breaks() {
    let chunks = chunk_text("Some text\n\nfrom a\ndocument", 10);
    assert_eq!(chunks, vec!["Some text", "from a", "document"]);
}

#[test]
fn chunks_reassemble_the_text() {
    let text = "First paragraph.  It has two sentences.\n\n   Second one here, somewhat longer than the first, ending with spaces.   \n\nThird.";
    for cap in [1usize, 5, 17, 40, 500] {
        let chunks = chunk_text(text, cap);
        let joined: String = chunks.iter().map(|c| no_ws(c)).collect();
        assert_eq!(joined, no_ws(text));
        for c in &chunks {
            assert!(!c.is_empty());
            assert!(c.chars().count() <= cap);
            assert_eq!(c.trim(), c.as_str());
        }
    }
}

#[test]
fn chunking_is_deterministic() {
    let text = "One. Two three four.\nFive six seven eight nine ten.\n\nEleven.".repeat(40);
    assert_eq!(chunk_text(&text, 64), chunk_text(&text, 64));
    assert_eq!(chunk_document(&text), chunk_document(&text));
    assert!(chunk_document(&text).iter().all(|c| c.chars().count() <= CHUNK_CAPACITY));
}

#[test]
fn plan_pairs_chunks_with_vectors() {
    let chunks = vec!["x".to_string(), "y".to_string()];
    let plan = plan_write(9, chunks, vec![vec![1i64], vec![2i64]]).ok().unwrap();
    assert_eq!(plan.document_id, 9);
    assert_eq!(plan.rows.len(), 2);
    assert_eq!(plan.rows[1].chunk_index, 1);
    assert_eq!(plan.rows[1].chunk_text, "y");
    assert_eq!(plan.rows[1].embedding, vec![2i64]);
    assert_eq!(plan.rows[0].document_id, 9);
}

#[test]
fn plan_rejects_short_batch() {
    let chunks = vec!["x".to_string(), "y".to_string(), "z".to_string()];
    let r = plan_write(9, chunks, fake_vectors(2));
    assert_eq!(
        r.err(),
        Some(JobError::Provider(ProviderIssue::CountMismatch { expected: 3, received: 2 }))
    );
}

#[test]
fn failed_call_is_provider_error() {
    let p = PreparedJob { document_id: 1, model: "m".to_string(), chunks: vec!["a".to_string()] };
    let r = finish_embedding::<Vec<i64>>(p, Err(ProviderIssue::CallFailed));
    assert_eq!(r.err(), Some(JobError::Provider(ProviderIssue::CallFailed)));
}

#[test]
fn empty_job_clears_document() {
    let mut index = MemoryIndex::new();
    run(&mut index, job(7, "old text. more old text.")).unwrap();
    assert_eq!(rows_for(&index, 7).len(), 1);
    let r = run(&mut index, job(7, ""));
    assert_eq!(r, Ok(0));
    assert!(rows_for(&index, 7).is_empty());
}

#[test]
fn long_job_writes_rows_in_order() {
    let mut index = MemoryIndex::new();
    let text = "b".repeat(1200);
    let p = prepare(job(8, &text));
    let chunks = p.chunks.clone();
    assert_eq!(chunks.len(), 3);
    assert_eq!(index_job(&mut index, p, Ok(fake_vectors(3))), Ok(3));
    let rows = rows_for(&index, 8);
    assert_eq!(rows.len(), 3);
    for (i, row) in rows.iter().enumerate() {
        assert_eq!(row.1, i);
        assert_eq!(row.2, chunks[i]);
        assert_eq!(row.3, vec![i as i64, 1, 2]);
    }
}

#[test]
fn short_batch_leaves_index_and_loop_goes_on() {
    let mut index = MemoryIndex::new();
    run(&mut index, job(5, "keep me")).unwrap();
    let before = snapshot(&index);
    let mut state = next_state(WorkerState::Waiting, &WorkerEvent::Dequeued);
    assert_eq!(state, WorkerState::Processing);
    let p = prepare(job(5, &"c".repeat(1200)));
    let r = index_job(&mut index, p, Ok(fake_vectors(2)));
    assert_eq!(r, Err(JobError::Provider(ProviderIssue::CountMismatch { expected: 3, received: 2 })));
    assert_eq!(snapshot(&index), before);
    state = next_state(state, &WorkerEvent::Finished(r));
    assert_eq!(state, WorkerState::Waiting);
    state = next_state(state, &WorkerEvent::Dequeued);
    assert_eq!(state, WorkerState::Processing);
    assert_eq!(run(&mut index, job(6, "next job")), Ok(1));
    assert_eq!(next_state(state, &WorkerEvent::Finished(Ok(1))), WorkerState::Waiting);
}

#[test]
fn failed_call_leaves_index() {
    let mut index = MemoryIndex::new();
    run(&mut index, job(5, "keep me")).unwrap();
    let before = snapshot(&index);
    let p = prepare(job(5, "replacement"));
    let r = index_job(&mut index, p, Err(ProviderIssue::CallFailed));
    assert_eq!(r, Err(JobError::Provider(ProviderIssue::CallFailed)));
    assert_eq!(snapshot(&index), before);
}

#[test]
fn same_job_twice_is_same_as_once() {
    let text = "Alpha beta gamma.\n\nDelta epsilon. ".repeat(60);
    let mut once = MemoryIndex::new();
    run(&mut once, job(2, "other document")).unwrap();
    run(&mut once, job(1, &text)).unwrap();
    let mut twice = MemoryIndex::new();
    run(&mut twice, job(2, "other document")).unwrap();
    run(&mut twice, job(1, &text)).unwrap();
    run(&mut twice, job(1, &text)).unwrap();
    assert_eq!(snapshot(&once), snapshot(&twice));
}

#[test]
fn other_documents_are_untouched() {
    let mut index = MemoryIndex::new();
    run(&mut index, job(1, "first")).unwrap();
    run(&mut index, job(2, "second")).unwrap();
    let before = rows_for(&index, 1);
    run(&mut index, job(2, "second, rewritten")).unwrap();
    assert_eq!(rows_for(&index, 1), before);
    assert_eq!(rows_for(&index, 2)[0].2, "second, rewritten");
}

#[test]
fn timeout_and_stray_events_keep_state() {
    assert_eq!(next_state(WorkerState::Waiting, &WorkerEvent::QueueTimedOut), WorkerState::Waiting);
    assert_eq!(next_state(WorkerState::Processing, &WorkerEvent::Dequeued), WorkerState::Processing);
    assert_eq!(
        next_state(WorkerState::Processing, &WorkerEvent::Finished(Err(JobError::Storage))),
        WorkerState::Waiting
    );
}
