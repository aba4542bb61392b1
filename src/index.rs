//! The vector-index contract: what opening a table in a given mode does, what
//! a batch write assigns and checks, and how search hits are ranked.
//!
//! The storage engine itself lives outside this library; these functions make
//! every decision about a table, from plain values that describe it, and the
//! caller carries them out.
use vstd::prelude::*;
use vstd::set_lib::{lemma_int_range, lemma_len_subset, set_int_range};

verus! {

/// The largest row id: ids are stored in a signed 32-bit column.
pub const MAX_ROW_ID: i32 = 2147483647;

/// How `open_or_create` treats a table that already exists.
#[derive(Debug, Clone, Copy, PartialEq, Eq, Structural)]
pub enum TableMode {
    /// Reuse an existing table of the same dimension, else create it.
    CreateIfMissing,
    /// Replace any existing table with an empty one.
    Overwrite,
    /// Refuse to open a table that already exists.
    FailIfExists,
}

/// What is known of a table: the dimension of its vectors and how many rows
/// it holds. Its rows carry the ids `1..=rows`.
#[derive(Debug, Clone, Copy, PartialEq, Eq, Structural)]
pub struct TableInfo {
    pub dimension: usize,
    pub rows: usize,
}

/// What the storage engine is to do to open a table.
#[derive(Debug, Clone, Copy, PartialEq, Eq, Structural)]
pub enum TableAction {
    /// Create a new, empty table.
    Create,
    /// Replace the existing table, all at once, with a new, empty one.
    Replace,
    /// Keep the existing table as it is.
    Reuse,
}

#[derive(Debug, Clone, Copy, PartialEq, Eq, Structural)]
pub struct OpenPlan {
    pub action: TableAction,
    /// The table as it stands once the action is done.
    pub table: TableInfo,
}

#[derive(Debug, Clone, Copy, PartialEq, Eq, Structural)]
pub enum IndexError {
    /// The table exists and the mode forbids opening it.
    TableExists,
    /// The existing table's dimension differs from the requested one.
    SchemaConflict { existing: usize, requested: usize },
    /// The vector at `index` has length `actual`, not the table's `expected`.
    DimensionMismatch { index: usize, expected: usize, actual: usize },
    /// The batch would carry ids beyond [`MAX_ROW_ID`].
    IdsExhausted,
}

pub open spec fn open_spec(existing: Option<TableInfo>, mode: TableMode, dimension: usize) -> Result<
    OpenPlan,
    IndexError,
> {
    let empty = TableInfo { dimension, rows: 0 };
    match existing {
        None => Ok(OpenPlan { action: TableAction::Create, table: empty }),
        Some(t) => match mode {
            TableMode::Overwrite => Ok(OpenPlan { action: TableAction::Replace, table: empty }),
            TableMode::FailIfExists => Err(IndexError::TableExists),
            TableMode::CreateIfMissing => if t.dimension == dimension {
                Ok(OpenPlan { action: TableAction::Reuse, table: t })
            } else {
                Err(IndexError::SchemaConflict { existing: t.dimension, requested: dimension })
            },
        },
    }
}

/// Decides how to open the table `existing` (`None` where there is none)
/// in `mode`, for vectors of length `dimension`.
pub fn open_or_create(existing: Option<TableInfo>, mode: TableMode, dimension: usize) -> (r: Result<
    OpenPlan,
    IndexError,
>)
    ensures
        r == open_spec(existing, mode, dimension),
{
    let empty = TableInfo { dimension, rows: 0 };
    match existing {
        None => Ok(OpenPlan { action: TableAction::Create, table: empty }),
        Some(t) => match mode {
            TableMode::Overwrite => Ok(OpenPlan { action: TableAction::Replace, table: empty }),
            TableMode::FailIfExists => Err(IndexError::TableExists),
            TableMode::CreateIfMissing => {
                if t.dimension == dimension {
                    Ok(OpenPlan { action: TableAction::Reuse, table: t })
                } else {
                    Err(IndexError::SchemaConflict { existing: t.dimension, requested: dimension })
                }
            },
        },
    }
}

/// The first position from `i` on whose length is not `dimension`, or the
/// length of `lens` where there is none.
pub open spec fn mismatch_from(lens: Seq<usize>, dimension: usize, i: nat) -> nat
    decreases lens.len() - i,
{
    if i >= lens.len() {
        lens.len()
    } else if lens[i as int] != dimension {
        i
    } else {
        mismatch_from(lens, dimension, i + 1)
    }
}

pub open spec fn all_of_dimension(lens: Seq<usize>, dimension: usize) -> bool {
    forall|j: int| 0 <= j < lens.len() ==> #[trigger] lens[j] == dimension
}

/// The ids a batch of `n` rows receives in a table of `rows` rows.
pub open spec fn ids_after(rows: usize, n: nat) -> Seq<i32> {
    Seq::new(n, |i: int| (rows + 1 + i) as i32)
}

/// A batch write as planned: the ids of the new rows, in batch order, and the
/// table once they are in.
pub struct WritePlan {
    pub ids: Vec<i32>,
    pub table: TableInfo,
}

/// What writing vectors of lengths `lens` into `t` yields: the ids and the
/// table grown by the batch, or the first error.
pub open spec fn write_spec(t: TableInfo, lens: Seq<usize>) -> Result<(Seq<i32>, TableInfo), IndexError> {
    let i = mismatch_from(lens, t.dimension, 0);
    if i < lens.len() {
        Err(
            IndexError::DimensionMismatch {
                index: i as usize,
                expected: t.dimension,
                actual: lens[i as int],
            },
        )
    } else if t.rows + lens.len() > MAX_ROW_ID {
        Err(IndexError::IdsExhausted)
    } else {
        Ok((ids_after(t.rows, lens.len()), TableInfo { dimension: t.dimension, rows: (t.rows + lens.len()) as usize }))
    }
}

pub open spec fn write_matches(r: Result<WritePlan, IndexError>, s: Result<(Seq<i32>, TableInfo), IndexError>) -> bool {
    match (r, s) {
        (Ok(p), Ok((ids, t))) => p.ids@ == ids && p.table == t,
        (Err(e), Err(f)) => e == f,
        _ => false,
    }
}

/// Plans the atomic write of a batch whose vectors have lengths `lens` into
/// table `t`: every length must equal the table's dimension, else nothing is
/// written. The new rows get the ids that follow the table's last one.
pub fn plan_write(t: &TableInfo, lens: &Vec<usize>) -> (r: Result<WritePlan, IndexError>)
    ensures
        write_matches(r, write_spec(*t, lens@)),
{
    let mut i: usize = 0;
    while i < lens.len()
        invariant
            i <= lens.len(),
            mismatch_from(lens@, t.dimension, 0) == mismatch_from(lens@, t.dimension, i as nat),
        decreases lens.len() - i,
    {
        if lens[i] != t.dimension {
            return Err(IndexError::DimensionMismatch { index: i, expected: t.dimension, actual: lens[i] });
        }
        i = i + 1;
    }
    if t.rows > MAX_ROW_ID as usize || lens.len() > MAX_ROW_ID as usize - t.rows {
        return Err(IndexError::IdsExhausted);
    }
    let mut ids: Vec<i32> = Vec::new();
    let base: i32 = t.rows as i32;
    let mut j: usize = 0;
    while j < lens.len()
        invariant
            j <= lens.len(),
            t.rows + lens.len() <= MAX_ROW_ID,
            base == t.rows,
            ids@ == ids_after(t.rows, j as nat),
        decreases lens.len() - j,
    {
        ids.push(base + 1 + j as i32);
        j = j + 1;
        assert(ids@ =~= ids_after(t.rows, j as nat));
    }
    Ok(WritePlan { ids, table: TableInfo { dimension: t.dimension, rows: t.rows + lens.len() } })
}

/// The number of rows in a table.
pub fn count_rows(t: &TableInfo) -> (n: usize)
    ensures
        n == t.rows,
{
    t.rows
}

/// Where every length is `dimension`, no position mismatches.
pub proof fn lemma_no_mismatch(lens: Seq<usize>, dimension: usize, i: nat)
    requires
        all_of_dimension(lens, dimension),
    ensures
        mismatch_from(lens, dimension, i) == lens.len(),
    decreases lens.len() - i,
{
    if i < lens.len() {
        lemma_no_mismatch(lens, dimension, i + 1);
    }
}

/// Counting after a write: writing a batch of `n` vectors of the table's
/// dimension into a table of `m` rows succeeds and leaves `m + n` rows; into
/// a table just opened in overwrite mode, exactly `n`.
pub proof fn lemma_write_then_count(existing: Option<TableInfo>, dimension: usize, lens: Seq<usize>)
    requires
        all_of_dimension(lens, dimension),
        lens.len() <= MAX_ROW_ID,
    ensures
        open_spec(existing, TableMode::Overwrite, dimension) matches Ok(p) && write_spec(p.table, lens) matches Ok(
            (ids, t),
        ) && t.rows == lens.len() && t.dimension == dimension,
        forall|t: TableInfo|
            t.dimension == dimension && t.rows + lens.len() <= MAX_ROW_ID ==> (#[trigger] write_spec(
                t,
                lens,
            ) matches Ok((ids, u)) && u.rows == t.rows + lens.len()),
{
    lemma_no_mismatch(lens, dimension, 0);
}

/// Overwriting does not accumulate: opening in overwrite mode and writing the
/// same batch, twice over, leaves the same number of rows both times.
pub proof fn lemma_overwrite_idempotent(existing: Option<TableInfo>, dimension: usize, lens: Seq<usize>)
    requires
        all_of_dimension(lens, dimension),
        lens.len() <= MAX_ROW_ID,
    ensures
        open_spec(existing, TableMode::Overwrite, dimension) matches Ok(p1) && write_spec(
            p1.table,
            lens,
        ) matches Ok((ids1, t1)) && open_spec(Some(t1), TableMode::Overwrite, dimension) matches Ok(
            p2,
        ) && write_spec(p2.table, lens) matches Ok((ids2, t2)) && t1.rows == t2.rows && ids1 == ids2,
{
    lemma_no_mismatch(lens, dimension, 0);
}

/// Checks a query vector of length `len` against table `t` before a search:
/// a vector of another length is refused, never truncated or padded.
pub fn check_query(t: &TableInfo, len: usize) -> (r: Result<(), IndexError>)
    ensures
        r == if len == t.dimension {
            Ok::<(), IndexError>(())
        } else {
            Err(IndexError::DimensionMismatch { index: 0, expected: t.dimension, actual: len })
        },
{
    if len == t.dimension {
        Ok(())
    } else {
        Err(IndexError::DimensionMismatch { index: 0, expected: t.dimension, actual: len })
    }
}

/// A search hit as the storage engine reports it: the row's id, an order key
/// for its distance to the query (see [`distance_key`]) and its text.
pub struct Hit {
    pub id: i32,
    pub key: u32,
    pub text: String,
}

/// Hit `a` ranks before hit `b`: smaller distance, then smaller id, then
/// earlier position.
pub open spec fn prec(hits: Seq<Hit>, a: int, b: int) -> bool {
    ||| hits[a].key < hits[b].key
    ||| hits[a].key == hits[b].key && hits[a].id < hits[b].id
    ||| hits[a].key == hits[b].key && hits[a].id == hits[b].id && a < b
}

/// No two hits carry the same id, as no two rows of a table do.
pub open spec fn distinct_ids(hits: Seq<Hit>) -> bool {
    forall|a: int, b: int| 0 <= a < b < hits.len() ==> hits[a].id != hits[b].id
}

/// Among hits with distinct ids, `order` puts equal distances in ascending
/// id order.
pub open spec fn ties_by_id(hits: Seq<Hit>, order: Seq<usize>) -> bool {
    forall|j: int|
        0 <= j < order.len() - 1 && #[trigger] hits[order[j] as int].key == hits[order[j
            + 1] as int].key ==> hits[order[j] as int].id < hits[order[j + 1] as int].id
}

/// `order` holds the first `min(k, |hits|)` hits, by rank, best first.
pub open spec fn is_top_k(hits: Seq<Hit>, k: usize, order: Seq<usize>) -> bool {
    &&& order.len() == if k < hits.len() { k as int } else { hits.len() as int }
    &&& forall|j: int| 0 <= j < order.len() ==> #[trigger] order[j] < hits.len()
    &&& forall|j1: int, j2: int|
        0 <= j1 < j2 < order.len() ==> prec(hits, #[trigger] order[j1] as int, #[trigger] order[j2] as int)
    &&& forall|x: int, j: int|
        0 <= x < hits.len() && !order.contains(x as usize) && 0 <= j < order.len() ==> #[trigger] prec(
            hits,
            order[j] as int,
            x,
        )
}

fn precedes(hits: &Vec<Hit>, a: usize, b: usize) -> (r: bool)
    requires
        a < hits.len(),
        b < hits.len(),
    ensures
        r == prec(hits@, a as int, b as int),
{
    let x = &hits[a];
    let y = &hits[b];
    x.key < y.key || (x.key == y.key && x.id < y.id) || (x.key == y.key && x.id == y.id && a < b)
}

/// Hit `y` ranks after the last of those in `order`: where `order` holds the
/// best hits so far, these are exactly the hits not yet taken.
spec fn after_last(hits: Seq<Hit>, order: Seq<usize>, y: int) -> bool {
    order.len() == 0 || prec(hits, order.last() as int, y)
}

/// A sequence of distinct indices below `n`, shorter than `n`, misses one.
proof fn lemma_some_index_missing(order: Seq<usize>, n: usize)
    requires
        order.len() < n,
        forall|j: int| 0 <= j < order.len() ==> #[trigger] order[j] < n,
        order.no_duplicates(),
    ensures
        exists|x: int| 0 <= x < n && !#[trigger] order.contains(x as usize),
{
    let ints = order.map_values(|u: usize| u as int);
    assert(ints.no_duplicates()) by {
        assert forall|a: int, b: int| 0 <= a < b < ints.len() implies ints[a] != ints[b] by {
            assert(order[a] != order[b]);
        }
    }
    ints.unique_seq_to_set();
    lemma_int_range(0, n as int);
    if forall|x: int| 0 <= x < n ==> #[trigger] order.contains(x as usize) {
        assert(set_int_range(0, n as int).subset_of(ints.to_set())) by {
            assert forall|x: int| set_int_range(0, n as int).contains(x) implies ints.to_set().contains(x) by {
                assert(order.contains(x as usize));
                let j = choose|j: int| 0 <= j < order.len() && order[j] == x as usize;
                assert(ints[j] == x);
            }
        }
        assert(ints.to_set().finite());
        lemma_len_subset(set_int_range(0, n as int), ints.to_set());
        assert(false);
    }
}

/// The indices of the best `min(k, |hits|)` hits, best first: by distance
/// key, then by id, then by position.
pub fn rank(hits: &Vec<Hit>, k: usize) -> (order: Vec<usize>)
    ensures
        is_top_k(hits@, k, order@),
        distinct_ids(hits@) ==> ties_by_id(hits@, order@),
{
    let n: usize = hits.len();
    let m: usize = if k < n { k } else { n };
    let mut order: Vec<usize> = Vec::new();
    while order.len() < m
        invariant
            n == hits.len(),
            m == if k < n { k } else { n },
            order.len() <= m,
            forall|j: int| 0 <= j < order.len() ==> #[trigger] order@[j] < n,
            forall|j1: int, j2: int|
                0 <= j1 < j2 < order.len() ==> prec(hits@, #[trigger] order@[j1] as int, #[trigger] order@[j2] as int),
            forall|x: int, j: int|
                0 <= x < n && !order@.contains(x as usize) && 0 <= j < order.len() ==> #[trigger] prec(
                    hits@,
                    order@[j] as int,
                    x,
                ),
        decreases m - order.len(),
    {
        let ghost o = order@;
        proof {
            assert(o.no_duplicates()) by {
                assert forall|a: int, b: int| 0 <= a < b < o.len() implies o[a] != o[b] by {
                    assert(prec(hits@, o[a] as int, o[b] as int));
                }
            }
            lemma_some_index_missing(o, n);
            assert forall|y: int| 0 <= y < n && #[trigger] o.contains(y as usize) implies !after_last(hits@, o, y) by {
                let j = choose|j: int| 0 <= j < o.len() && o[j] == y as usize;
                if j < o.len() - 1 {
                    assert(prec(hits@, o[j] as int, o[o.len() - 1] as int));
                }
            }
        }
        let mut best: usize = n;
        let mut x: usize = 0;
        while x < n
            invariant
                n == hits.len(),
                o == order@,
                forall|j: int| 0 <= j < o.len() ==> #[trigger] o[j] < n,
                x <= n,
                best == n || (best < x && after_last(hits@, o, best as int)),
                forall|y: int| 0 <= y < x && after_last(hits@, o, y) ==> best < n && (y == best || prec(hits@, best as int, y)),
            decreases n - x,
        {
            let is_cand = order.len() == 0 || precedes(hits, order[order.len() - 1], x);
            if is_cand && (best == n || precedes(hits, x, best)) {
                best = x;
            }
            x = x + 1;
        }
        proof {
            let y = choose|y: int| 0 <= y < n && !#[trigger] o.contains(y as usize);
            if o.len() > 0 {
                assert(prec(hits@, o[o.len() - 1] as int, y));
            }
            assert(after_last(hits@, o, y));
            assert(!o.contains(best as usize));
        }
        order.push(best);
        proof {
            assert forall|y: int| 0 <= y < n && !order@.contains(y as usize) implies #[trigger] after_last(hits@, o, y) && y != best by {
                assert(!o.contains(y as usize)) by {
                    if o.contains(y as usize) {
                        let j = choose|j: int| 0 <= j < o.len() && o[j] == y as usize;
                        assert(order@[j] == y as usize);
                    }
                }
                if o.len() > 0 {
                    assert(prec(hits@, o[o.len() - 1] as int, y));
                }
                assert(order@[o.len() as int] == best);
            }
        }
    }
    order
}

/// `texts` are the texts of the hits that `order` ranks first, in that order.
pub open spec fn ranked_texts(hits: Seq<Hit>, k: usize, order: Seq<usize>, texts: Seq<String>) -> bool {
    &&& is_top_k(hits, k, order)
    &&& distinct_ids(hits) ==> ties_by_id(hits, order)
    &&& texts.len() == order.len()
    &&& forall|j: int| 0 <= j < order.len() ==> #[trigger] texts[j]@ == hits[order[j] as int].text@
}

/// The texts of the best `min(k, |hits|)` hits, best first.
pub fn top_texts(hits: &Vec<Hit>, k: usize) -> (texts: Vec<String>)
    ensures
        exists|order: Seq<usize>| #[trigger] ranked_texts(hits@, k, order, texts@),
{
    let order = rank(hits, k);
    let mut texts: Vec<String> = Vec::new();
    let mut j: usize = 0;
    while j < order.len()
        invariant
            is_top_k(hits@, k, order@),
            distinct_ids(hits@) ==> ties_by_id(hits@, order@),
            j <= order.len(),
            texts@.len() == j,
            forall|i: int| 0 <= i < j ==> #[trigger] texts@[i]@ == hits@[order@[i] as int].text@,
        decreases order.len() - j,
    {
        let t = hits[order[j]].text.clone();
        texts.push(t);
        j = j + 1;
    }
    assert(ranked_texts(hits@, k, order@, texts@));
    texts
}

/// The order key of a 32-bit float given by its bits: keys compare as the
/// floats do, negative values below positive ones and larger magnitudes
/// further from the middle. The two zeros are equal distances and share one
/// key, that of `+0.0`.
pub open spec fn order_key(bits: u32) -> u32 {
    if bits == 0x8000_0000 {
        0x8000_0000
    } else if bits < 0x8000_0000 {
        (bits + 0x8000_0000) as u32
    } else {
        (0xFFFF_FFFF - bits) as u32
    }
}

pub fn distance_key(bits: u32) -> (key: u32)
    ensures
        key == order_key(bits),
{
    if bits == 0x8000_0000 {
        0x8000_0000
    } else if bits & 0x8000_0000 == 0 {
        assert(bits & 0x8000_0000 == 0 ==> bits < 0x8000_0000) by (bit_vector);
        assert(bits < 0x8000_0000 ==> bits | 0x8000_0000 == bits + 0x8000_0000) by (bit_vector);
        bits | 0x8000_0000
    } else {
        assert(bits & 0x8000_0000 != 0 ==> bits >= 0x8000_0000) by (bit_vector);
        assert(!bits == 0xFFFF_FFFF - bits) by (bit_vector);
        !bits
    }
}

} // verus!
