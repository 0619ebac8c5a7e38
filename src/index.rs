//! Indexed rows, the write plan that replaces one document's rows, and an
//! in-memory index that applies such plans.
use vstd::prelude::*;

use crate::error::{JobError, ProviderIssue};

verus! {

/// One stored chunk of a document with its embedding.
pub struct IndexedRow<E> {
    pub document_id: u128,
    pub chunk_index: usize,
    pub chunk_text: String,
    pub embedding: E,
}

/// The rows that make up a document's new chunk set, one per chunk in order.
pub open spec fn planned_rows<E>(document_id: u128, chunks: Seq<String>, embeddings: Seq<E>) -> Seq<
    IndexedRow<E>,
> {
    Seq::new(
        chunks.len(),
        |i: int|
            IndexedRow {
                document_id,
                chunk_index: i as usize,
                chunk_text: chunks[i],
                embedding: embeddings[i],
            },
    )
}

/// The rows of `rows` that do not belong to `document_id`, in order.
pub open spec fn rows_without<E>(rows: Seq<IndexedRow<E>>, document_id: u128) -> Seq<
    IndexedRow<E>,
>
    decreases rows.len(),
{
    if rows.len() == 0 {
        rows
    } else {
        let rest = rows_without(rows.drop_last(), document_id);
        if rows.last().document_id == document_id {
            rest
        } else {
            rest.push(rows.last())
        }
    }
}

/// The rows of `rows` that belong to `document_id`, in order.
pub open spec fn rows_of<E>(rows: Seq<IndexedRow<E>>, document_id: u128) -> Seq<IndexedRow<E>>
    decreases rows.len(),
{
    if rows.len() == 0 {
        rows
    } else {
        let rest = rows_of(rows.drop_last(), document_id);
        if rows.last().document_id == document_id {
            rest.push(rows.last())
        } else {
            rest
        }
    }
}

/// The stored rows after a document's rows are deleted and `new_rows` inserted.
pub open spec fn upserted<E>(rows: Seq<IndexedRow<E>>, document_id: u128, new_rows: Seq<
    IndexedRow<E>,
>) -> Seq<IndexedRow<E>> {
    rows_without(rows, document_id) + new_rows
}

/// Every row of `rows` belongs to `document_id`.
pub open spec fn all_of_document<E>(rows: Seq<IndexedRow<E>>, document_id: u128) -> bool {
    forall|i: int| 0 <= i < rows.len() ==> (#[trigger] rows[i]).document_id == document_id
}

proof fn lemma_without_add<E>(a: Seq<IndexedRow<E>>, b: Seq<IndexedRow<E>>, d: u128)
    ensures
        rows_without(a + b, d) == rows_without(a, d) + rows_without(b, d),
    decreases b.len(),
{
    if b.len() == 0 {
        assert(a + b =~= a);
        assert(rows_without(a, d) + rows_without(b, d) =~= rows_without(a, d));
    } else {
        lemma_without_add(a, b.drop_last(), d);
        assert((a + b).drop_last() =~= a + b.drop_last());
        assert((a + b).last() == b.last());
        if b.last().document_id != d {
            assert(rows_without(a, d) + rows_without(b.drop_last(), d).push(b.last())
                =~= (rows_without(a, d) + rows_without(b.drop_last(), d)).push(b.last()));
        }
    }
}

proof fn lemma_of_add<E>(a: Seq<IndexedRow<E>>, b: Seq<IndexedRow<E>>, d: u128)
    ensures
        rows_of(a + b, d) == rows_of(a, d) + rows_of(b, d),
    decreases b.len(),
{
    if b.len() == 0 {
        assert(a + b =~= a);
        assert(rows_of(a, d) + rows_of(b, d) =~= rows_of(a, d));
    } else {
        lemma_of_add(a, b.drop_last(), d);
        assert((a + b).drop_last() =~= a + b.drop_last());
        assert((a + b).last() == b.last());
        if b.last().document_id == d {
            assert(rows_of(a, d) + rows_of(b.drop_last(), d).push(b.last()) =~= (rows_of(a, d)
                + rows_of(b.drop_last(), d)).push(b.last()));
        }
    }
}

proof fn lemma_single_document<E>(rows: Seq<IndexedRow<E>>, d: u128)
    requires
        all_of_document(rows, d),
    ensures
        rows_of(rows, d) == rows,
        rows_without(rows, d) == Seq::<IndexedRow<E>>::empty(),
    decreases rows.len(),
{
    if rows.len() == 0 {
        assert(rows =~= Seq::<IndexedRow<E>>::empty());
    } else {
        let front = rows.drop_last();
        assert(all_of_document(front, d)) by {
            assert forall|i: int| 0 <= i < front.len() implies (#[trigger] front[i]).document_id
                == d by {
                assert(front[i] == rows[i]);
            }
        }
        lemma_single_document(front, d);
        assert(rows.last() == rows[rows.len() - 1]);
        assert(front.push(rows.last()) =~= rows);
    }
}

proof fn lemma_without_excludes<E>(rows: Seq<IndexedRow<E>>, d: u128)
    ensures
        rows_of(rows_without(rows, d), d) == Seq::<IndexedRow<E>>::empty(),
        rows_without(rows_without(rows, d), d) == rows_without(rows, d),
    decreases rows.len(),
{
    if rows.len() > 0 {
        let front = rows.drop_last();
        lemma_without_excludes(front, d);
        let rest = rows_without(front, d);
        if rows.last().document_id != d {
            assert(rest.push(rows.last()).drop_last() =~= rest);
            assert(rest.push(rows.last()).last() == rows.last());
        }
    }
}

proof fn lemma_without_other<E>(rows: Seq<IndexedRow<E>>, d: u128, other: u128)
    requires
        d != other,
    ensures
        rows_of(rows_without(rows, d), other) == rows_of(rows, other),
    decreases rows.len(),
{
    if rows.len() > 0 {
        let front = rows.drop_last();
        lemma_without_other(front, d, other);
        let rest = rows_without(front, d);
        if rows.last().document_id != d {
            assert(rest.push(rows.last()).drop_last() =~= rest);
            assert(rest.push(rows.last()).last() == rows.last());
        }
    }
}

/// After a document's chunk set is written, its stored rows are exactly the new
/// rows: one per chunk, at indexes 0 to N-1, each holding its chunk's text and
/// embedding.
pub proof fn lemma_upsert_replaces_document<E>(
    rows: Seq<IndexedRow<E>>,
    document_id: u128,
    chunks: Seq<String>,
    embeddings: Seq<E>,
)
    requires
        chunks.len() == embeddings.len(),
        chunks.len() <= usize::MAX,
    ensures
        ({
            let stored = rows_of(
                upserted(rows, document_id, planned_rows(document_id, chunks, embeddings)),
                document_id,
            );
            &&& stored.len() == chunks.len()
            &&& forall|i: int|
                0 <= i < chunks.len() ==> (#[trigger] stored[i]).chunk_index == i
                    && stored[i].chunk_text == chunks[i] && stored[i].embedding == embeddings[i]
                    && stored[i].document_id == document_id
        }),
{
    let new_rows = planned_rows(document_id, chunks, embeddings);
    lemma_of_add(rows_without(rows, document_id), new_rows, document_id);
    lemma_without_excludes(rows, document_id);
    lemma_single_document(new_rows, document_id);
    assert(Seq::<IndexedRow<E>>::empty() + new_rows =~= new_rows);
}

/// Writing a document's chunk set leaves the rows of every other document as
/// they were.
pub proof fn lemma_upsert_keeps_other_documents<E>(
    rows: Seq<IndexedRow<E>>,
    document_id: u128,
    new_rows: Seq<IndexedRow<E>>,
    other: u128,
)
    requires
        all_of_document(new_rows, document_id),
        other != document_id,
    ensures
        rows_of(upserted(rows, document_id, new_rows), other) == rows_of(rows, other),
{
    lemma_of_add(rows_without(rows, document_id), new_rows, other);
    lemma_without_other(rows, document_id, other);
    lemma_no_rows_of_other(new_rows, document_id, other);
    assert(rows_of(rows, other) + Seq::<IndexedRow<E>>::empty() =~= rows_of(rows, other));
}

proof fn lemma_no_rows_of_other<E>(rows: Seq<IndexedRow<E>>, d: u128, other: u128)
    requires
        all_of_document(rows, d),
        other != d,
    ensures
        rows_of(rows, other) == Seq::<IndexedRow<E>>::empty(),
    decreases rows.len(),
{
    if rows.len() > 0 {
        let front = rows.drop_last();
        assert(all_of_document(front, d)) by {
            assert forall|i: int| 0 <= i < front.len() implies (#[trigger] front[i]).document_id
                == d by {
                assert(front[i] == rows[i]);
            }
        }
        lemma_no_rows_of_other(front, d, other);
        assert(rows.last() == rows[rows.len() - 1]);
    }
}

/// Writing the same chunk set twice leaves the same rows as writing it once.
pub proof fn lemma_upsert_idempotent<E>(
    rows: Seq<IndexedRow<E>>,
    document_id: u128,
    new_rows: Seq<IndexedRow<E>>,
)
    requires
        all_of_document(new_rows, document_id),
    ensures
        upserted(upserted(rows, document_id, new_rows), document_id, new_rows) == upserted(
            rows,
            document_id,
            new_rows,
        ),
{
    lemma_without_add(rows_without(rows, document_id), new_rows, document_id);
    lemma_without_excludes(rows, document_id);
    lemma_single_document(new_rows, document_id);
    assert(rows_without(rows, document_id) + Seq::<IndexedRow<E>>::empty() =~= rows_without(
        rows,
        document_id,
    ));
}

/// The complete new chunk set of one document: the delete of its old rows and
/// the insert of `rows` happen together or not at all.
pub struct WritePlan<E> {
    pub document_id: u128,
    pub rows: Vec<IndexedRow<E>>,
}

impl<E> WritePlan<E> {
    /// Every row belongs to the plan's document and sits at its own index.
    pub open spec fn wf(&self) -> bool {
        forall|i: int|
            0 <= i < self.rows@.len() ==> (#[trigger] self.rows@[i]).document_id
                == self.document_id && self.rows@[i].chunk_index == i
    }
}

/// Pairs each chunk with the embedding at the same position. The provider owes
/// one embedding per chunk; any other count is a provider error.
pub fn plan_write<E>(document_id: u128, chunks: Vec<String>, embeddings: Vec<E>) -> (r: Result<
    WritePlan<E>,
    JobError,
>)
    ensures
        match r {
            Ok(p) => {
                &&& chunks@.len() == embeddings@.len()
                &&& p.document_id == document_id
                &&& p.rows@ == planned_rows(document_id, chunks@, embeddings@)
                &&& p.wf()
            },
            Err(e) => {
                &&& chunks@.len() != embeddings@.len()
                &&& e == JobError::Provider(
                    ProviderIssue::CountMismatch {
                        expected: chunks@.len() as usize,
                        received: embeddings@.len() as usize,
                    },
                )
            },
        },
{
    if chunks.len() != embeddings.len() {
        return Err(
            JobError::Provider(
                ProviderIssue::CountMismatch { expected: chunks.len(), received: embeddings.len() },
            ),
        );
    }
    let ghost all_chunks = chunks@;
    let ghost all_embeddings = embeddings@;
    let n = chunks.len();
    let mut chunks = chunks;
    let mut embeddings = embeddings;
    let mut rows: Vec<IndexedRow<E>> = Vec::new();
    let mut i: usize = 0;
    while i < n
        invariant
            n == all_chunks.len(),
            n == all_embeddings.len(),
            i <= n,
            chunks@ == all_chunks.skip(i as int),
            embeddings@ == all_embeddings.skip(i as int),
            rows@ == planned_rows(document_id, all_chunks.take(i as int), all_embeddings),
        decreases n - i,
    {
        let chunk_text = chunks.remove(0);
        let embedding = embeddings.remove(0);
        rows.push(IndexedRow { document_id, chunk_index: i, chunk_text, embedding });
        i = i + 1;
        assert(chunks@ =~= all_chunks.skip(i as int));
        assert(embeddings@ =~= all_embeddings.skip(i as int));
        assert(rows@ =~= planned_rows(document_id, all_chunks.take(i as int), all_embeddings));
    }
    assert(all_chunks.take(n as int) =~= all_chunks);
    Ok(WritePlan { document_id, rows })
}

/// Stored rows kept in memory, replaced per document as the store does.
pub struct MemoryIndex<E> {
    rows: Vec<IndexedRow<E>>,
}

impl<E> MemoryIndex<E> {
    /// The stored rows, in insertion order.
    pub closed spec fn contents(&self) -> Seq<IndexedRow<E>> {
        self.rows@
    }

    /// An index with no rows.
    pub fn new() -> (r: Self)
        ensures
            r.contents() == Seq::<IndexedRow<E>>::empty(),
    {
        MemoryIndex { rows: Vec::new() }
    }

    /// The stored rows, in insertion order.
    pub fn rows(&self) -> (r: &Vec<IndexedRow<E>>)
        ensures
            r@ == self.contents(),
    {
        &self.rows
    }

    /// Deletes the plan's document's rows and inserts the plan's rows.
    pub fn apply(&mut self, plan: WritePlan<E>)
        ensures
            final(self).contents() == upserted(old(self).contents(), plan.document_id, plan.rows@),
    {
        let document_id = plan.document_id;
        let mut new_rows = plan.rows;
        let mut old_rows: Vec<IndexedRow<E>> = Vec::new();
        std::mem::swap(&mut old_rows, &mut self.rows);
        let ghost all = old_rows@;
        let n = old_rows.len();
        let mut kept: Vec<IndexedRow<E>> = Vec::new();
        let mut i: usize = 0;
        while i < n
            invariant
                n == all.len(),
                i <= n,
                old_rows@ == all.skip(i as int),
                kept@ == rows_without(all.take(i as int), document_id),
            decreases n - i,
        {
            let row = old_rows.remove(0);
            assert(all.take(i + 1).drop_last() =~= all.take(i as int));
            assert(all.take(i + 1).last() == row);
            if row.document_id != document_id {
                kept.push(row);
            }
            i = i + 1;
            assert(old_rows@ =~= all.skip(i as int));
        }
        assert(all.take(n as int) =~= all);
        kept.append(&mut new_rows);
        self.rows = kept;
    }
}

} // verus!
