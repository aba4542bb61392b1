//! One ingestion run: chunks and the lengths of their embeddings in, the
//! table action and the rows to write out, or the reason nothing is written.
use vstd::prelude::*;
use crate::index::{
    open_or_create, open_spec, plan_write, write_spec, IndexError, TableAction, TableInfo,
    TableMode, mismatch_from,
};

verus! {

#[derive(Debug, Clone, Copy, PartialEq, Eq, Structural)]
pub enum IngestError {
    /// The embedding model returned `vectors` vectors for `chunks` chunks.
    CountMismatch { chunks: usize, vectors: usize },
    /// The vector at `index` has length `actual`, not the configured `expected`.
    DimensionMismatch { index: usize, expected: usize, actual: usize },
    /// The index refused the table or the batch.
    Index(IndexError),
}

/// What [`check_embeddings`] returns for `n` chunks whose vectors have
/// lengths `lens`, against the configured `dimension`.
pub open spec fn embeddings_spec(n: usize, lens: Seq<usize>, dimension: usize) -> Result<(), IngestError> {
    if lens.len() != n {
        Err(IngestError::CountMismatch { chunks: n, vectors: lens.len() as usize })
    } else if mismatch_from(lens, dimension, 0) < lens.len() {
        let i = mismatch_from(lens, dimension, 0);
        Err(IngestError::DimensionMismatch { index: i as usize, expected: dimension, actual: lens[i as int] })
    } else {
        Ok(())
    }
}

/// The integrity check that precedes every write: one vector per chunk, each
/// of the configured dimension.
pub fn check_embeddings(n: usize, lens: &Vec<usize>, dimension: usize) -> (r: Result<(), IngestError>)
    ensures
        r == embeddings_spec(n, lens@, dimension),
        r is Ok ==> lens@.len() == n && forall|i: int|
            0 <= i < lens@.len() ==> #[trigger] lens@[i] == dimension,
{
    if lens.len() != n {
        return Err(IngestError::CountMismatch { chunks: n, vectors: lens.len() });
    }
    let mut i: usize = 0;
    while i < lens.len()
        invariant
            i <= lens.len(),
            lens@.len() == n,
            forall|j: int| 0 <= j < i ==> #[trigger] lens@[j] == dimension,
            mismatch_from(lens@, dimension, 0) == mismatch_from(lens@, dimension, i as nat),
        decreases lens.len() - i,
    {
        if lens[i] != dimension {
            return Err(IngestError::DimensionMismatch { index: i, expected: dimension, actual: lens[i] });
        }
        i = i + 1;
    }
    Ok(())
}

/// A row to write: its id and its chunk's text. Its vector is the embedding at
/// the same position of the batch.
pub struct Row {
    pub id: i32,
    pub text: String,
}

/// A whole ingestion run as planned.
pub struct IngestPlan {
    /// How the table is to be opened.
    pub action: TableAction,
    /// The rows to write, in chunk order, in one batch.
    pub rows: Vec<Row>,
    /// The table once the batch is in.
    pub table: TableInfo,
}

/// `r` is the outcome of ingesting `chunks`, whose vectors have lengths
/// `lens`, into `existing` opened in `mode` for vectors of `dimension`.
pub open spec fn ingest_spec(
    chunks: Seq<String>,
    lens: Seq<usize>,
    existing: Option<TableInfo>,
    mode: TableMode,
    dimension: usize,
    r: Result<IngestPlan, IngestError>,
) -> bool {
    match embeddings_spec(chunks.len() as usize, lens, dimension) {
        Err(e) => r == Err::<IngestPlan, IngestError>(e),
        Ok(()) => match open_spec(existing, mode, dimension) {
            Err(e) => r == Err::<IngestPlan, IngestError>(IngestError::Index(e)),
            Ok(p) => match write_spec(p.table, lens) {
                Err(e) => r == Err::<IngestPlan, IngestError>(IngestError::Index(e)),
                Ok((ids, t)) => r matches Ok(plan) && {
                    &&& plan.action == p.action
                    &&& plan.table == t
                    &&& plan.rows@.len() == chunks.len()
                    &&& forall|i: int|
                        0 <= i < chunks.len() ==> (#[trigger] plan.rows@[i]).id == ids[i]
                            && plan.rows@[i].text@ == chunks[i]@
                },
            },
        },
    }
}

/// Plans the ingestion of a document's `chunks`, given the lengths of the
/// vectors the embedding model returned for them: the integrity check, then
/// the table opening, then one batch whose rows carry the next ids in chunk
/// order. Any failure plans no write at all.
pub fn plan_ingestion(
    chunks: &Vec<String>,
    lens: &Vec<usize>,
    existing: Option<TableInfo>,
    mode: TableMode,
    dimension: usize,
) -> (r: Result<IngestPlan, IngestError>)
    ensures
        ingest_spec(chunks@, lens@, existing, mode, dimension, r),
{
    match check_embeddings(chunks.len(), lens, dimension) {
        Err(e) => {
            return Err(e);
        },
        Ok(()) => {},
    }
    let opened = match open_or_create(existing, mode, dimension) {
        Err(e) => {
            return Err(IngestError::Index(e));
        },
        Ok(p) => p,
    };
    let write = match plan_write(&opened.table, lens) {
        Err(e) => {
            return Err(IngestError::Index(e));
        },
        Ok(w) => w,
    };
    let ghost ids = write.ids@;
    let mut rows: Vec<Row> = Vec::new();
    let mut i: usize = 0;
    while i < chunks.len()
        invariant
            i <= chunks.len(),
            write.ids@ == ids,
            ids.len() == chunks.len(),
            rows@.len() == i,
            forall|j: int|
                0 <= j < i ==> (#[trigger] rows@[j]).id == ids[j] && rows@[j].text@ == chunks@[j]@,
        decreases chunks.len() - i,
    {
        rows.push(Row { id: write.ids[i], text: chunks[i].clone() });
        i = i + 1;
    }
    Ok(IngestPlan { action: opened.action, rows, table: write.table })
}

} // verus!
