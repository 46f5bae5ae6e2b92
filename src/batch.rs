use vstd::prelude::*;

verus! {

/// Memory that one materialised batch may take, in bytes.
pub const BATCH_BYTE_BUDGET: u64 = 64 * 1024 * 1024;

/// Estimated bytes of one cell of a materialised batch.
pub const BYTES_PER_CELL: u64 = 16;

/// Fewest rows the adaptive sizing shrinks a batch to.
pub const MIN_BATCH_ROWS: usize = 10_000;

/// Estimated bytes of one row of `n_cols` columns.
pub open spec fn row_cost(n_cols: int) -> int {
    (if n_cols < 1 { 1 } else { n_cols }) * BYTES_PER_CELL as int
}

/// Most rows of `n_cols` columns that fit the byte budget.
pub open spec fn budget_rows(n_cols: int) -> int {
    BATCH_BYTE_BUDGET as int / row_cost(n_cols)
}

pub open spec fn min_of(a: int, b: int) -> int {
    if a <= b { a } else { b }
}

pub open spec fn max_of(a: int, b: int) -> int {
    if a >= b { a } else { b }
}

/// The batch size used for a transfer of `n_rows` rows of `n_cols` columns when
/// `requested_rows` rows per batch were asked for.
pub open spec fn effective_batch_size_spec(requested_rows: int, n_cols: int, n_rows: int) -> int {
    min_of(
        max_of(min_of(requested_rows, budget_rows(n_cols)), min_of(MIN_BATCH_ROWS as int, n_rows)),
        n_rows,
    )
}

/// Rows per batch for a transfer of `n_rows` rows of `n_cols` columns: the
/// requested size, shrunk to the byte budget, then held between the floor (or
/// the whole transfer, if that is smaller) and the whole transfer.  Where the
/// floor itself fits the budget, the batch fits it too.
pub fn effective_batch_size(requested_rows: usize, n_cols: usize, n_rows: usize) -> (r: usize)
    ensures
        r == effective_batch_size_spec(requested_rows as int, n_cols as int, n_rows as int),
        min_of(MIN_BATCH_ROWS as int, n_rows as int) <= r <= n_rows,
        min_of(MIN_BATCH_ROWS as int, n_rows as int) <= budget_rows(n_cols as int) ==> r
            * row_cost(n_cols as int) <= BATCH_BYTE_BUDGET,
{
    let cols: u64 = if n_cols < 1 {
        1
    } else if n_cols as u128 > BATCH_BYTE_BUDGET as u128 {
        BATCH_BYTE_BUDGET + 1
    } else {
        n_cols as u64
    };
    let cost: u64 = cols * BYTES_PER_CELL;
    let fit: u64 = BATCH_BYTE_BUDGET / cost;
    proof {
        let c = row_cost(n_cols as int);
        assert(c >= BYTES_PER_CELL);
        if n_cols as u128 > BATCH_BYTE_BUDGET as u128 {
            assert(c > BATCH_BYTE_BUDGET) by (nonlinear_arith)
                requires c == n_cols * 16, n_cols > 64 * 1024 * 1024;
            assert(cost > BATCH_BYTE_BUDGET);
            assert(fit == 0) by (nonlinear_arith)
                requires fit == BATCH_BYTE_BUDGET / cost, cost > BATCH_BYTE_BUDGET;
            assert((BATCH_BYTE_BUDGET as int) / c == 0) by (nonlinear_arith)
                requires c > BATCH_BYTE_BUDGET;
        } else {
            assert(cost == c);
        }
        assert(fit == budget_rows(n_cols as int));
    }
    let capped: usize = if (requested_rows as u64) < fit || requested_rows as u128 > u64::MAX as u128 {
        if requested_rows as u128 > u64::MAX as u128 { fit as usize } else { requested_rows }
    } else {
        fit as usize
    };
    let floor: usize = if MIN_BATCH_ROWS <= n_rows { MIN_BATCH_ROWS } else { n_rows };
    let lifted: usize = if capped >= floor { capped } else { floor };
    let r: usize = if lifted <= n_rows { lifted } else { n_rows };
    proof {
        let c = row_cost(n_cols as int);
        let b = budget_rows(n_cols as int);
        if floor <= b {
            assert(r <= b);
            assert(b * c <= BATCH_BYTE_BUDGET) by (nonlinear_arith)
                requires b == (BATCH_BYTE_BUDGET as int) / c, c > 0;
            assert(r * c <= b * c) by (nonlinear_arith)
                requires r <= b, c > 0;
        }
    }
    r
}

/// One batch of a transfer: its position in the sequence, the first source row
/// it holds and how many rows it holds.
#[derive(Copy, Clone, Debug, PartialEq, Eq, Structural)]
pub struct BatchSpan {
    pub index: usize,
    pub first_row: usize,
    pub len: usize,
}

/// Rows held by all the batches of `b`.
pub open spec fn total_rows(b: Seq<BatchSpan>) -> int
    decreases b.len(),
{
    if b.len() == 0 {
        0
    } else {
        total_rows(b.drop_last()) + b.last().len
    }
}

/// The batches are numbered in order, none is empty, and each starts where the
/// ones before it end, the first at `offset`.
pub open spec fn contiguous(b: Seq<BatchSpan>, offset: int) -> bool {
    forall|i: int|
        #![trigger b[i]]
        0 <= i < b.len() ==> b[i].index == i && b[i].len > 0 && b[i].first_row == offset
            + total_rows(b.take(i))
}

/// Number of batches of at most `size` rows that `n_rows` rows need; a size of
/// zero leaves the split to the engine, which sends one batch.
pub open spec fn batch_count(n_rows: int, size: int) -> int {
    if n_rows == 0 {
        0
    } else if size == 0 {
        1
    } else {
        (n_rows + size - 1) / size
    }
}

proof fn lemma_total_take_push(b: Seq<BatchSpan>, i: int)
    requires
        0 <= i < b.len(),
    ensures
        total_rows(b.take(i + 1)) == total_rows(b.take(i)) + b[i].len,
{
    assert(b.take(i + 1).drop_last() == b.take(i));
}

proof fn lemma_total_monotone(b: Seq<BatchSpan>, i: int, j: int)
    requires
        0 <= i <= j <= b.len(),
    ensures
        total_rows(b.take(i)) <= total_rows(b.take(j)),
    decreases j - i,
{
    if i < j {
        lemma_total_monotone(b, i, j - 1);
        lemma_total_take_push(b, j - 1);
    }
}

/// Splits the `n_rows` rows that start at source row `offset` into batches of
/// `batch_size` rows, the last one shorter where the rows do not divide evenly.
pub fn plan_batches(offset: usize, n_rows: usize, batch_size: usize) -> (r: Vec<BatchSpan>)
    requires
        offset + n_rows <= usize::MAX,
    ensures
        contiguous(r@, offset as int),
        total_rows(r@) == n_rows,
        r@.len() == batch_count(n_rows as int, batch_size as int),
        forall|i: int|
            0 <= i < r@.len() - 1 ==> #[trigger] r@[i].len == (if batch_size == 0 {
                n_rows
            } else {
                batch_size
            }),
{
    let size: usize = if batch_size == 0 { n_rows } else { batch_size };
    let mut r: Vec<BatchSpan> = Vec::new();
    let mut done: usize = 0;
    while done < n_rows
        invariant
            done <= n_rows,
            offset + n_rows <= usize::MAX,
            size == (if batch_size == 0 { n_rows } else { batch_size }),
            n_rows > 0 ==> size > 0,
            contiguous(r@, offset as int),
            total_rows(r@) == done,
            r@.len() > 0 ==> done > 0,
            done < n_rows ==> done == r@.len() * size,
            forall|i: int|
                0 <= i < r@.len() ==> #[trigger] r@[i].len == size || (i == r@.len() - 1 && done
                    == n_rows),
            forall|i: int| 0 <= i < r@.len() ==> #[trigger] r@[i].len <= size,
        decreases n_rows - done,
    {
        let len: usize = if n_rows - done < size { n_rows - done } else { size };
        let span = BatchSpan { index: r.len(), first_row: offset + done, len };
        let ghost before = r@;
        r.push(span);
        proof {
            assert(r@.drop_last() == before);
            assert(r@.take(before.len() as int) == before);
            assert forall|i: int| #![trigger r@[i]] 0 <= i < r@.len() implies r@[i].index == i
                && r@[i].len > 0 && r@[i].first_row == offset + total_rows(r@.take(i)) by {
                if i < before.len() {
                    assert(r@.take(i) == before.take(i));
                    assert(before[i] == r@[i]);
                }
            }
            let k = before.len() as int;
            let z = size as int;
            if done + len < n_rows {
                assert(len == size);
                assert(done + len == (k + 1) * z) by (nonlinear_arith)
                    requires done == k * z, len == z;
            }
            assert forall|i: int| 0 <= i < r@.len() implies #[trigger] r@[i].len == size || (i
                == r@.len() - 1 && done + len == n_rows) by {
                if i < before.len() {
                    assert(before[i] == r@[i]);
                }
            }
            assert forall|i: int| 0 <= i < r@.len() implies #[trigger] r@[i].len <= size by {
                if i < before.len() {
                    assert(before[i] == r@[i]);
                }
            }
        }
        done = done + len;
    }
    proof {
        if n_rows == 0 {
            assert(r@.len() == 0);
        } else if batch_size == 0 {
            assert(r@.len() >= 1);
            assert(r@.len() == 1) by {
                if r@.len() > 1 {
                    assert(r@[0].len == n_rows);
                    lemma_total_monotone(r@, 1, r@.len() - 1);
                    lemma_total_take_push(r@, 0);
                    lemma_total_take_push(r@, r@.len() - 1);
                    assert(r@.take(r@.len() as int) == r@);
                    assert(r@.take(0) == Seq::<BatchSpan>::empty());
                    assert(r@[r@.len() - 1].len > 0);
                }
            }
        } else {
            let k = r@.len() as int;
            assert(k >= 1);
            assert(r@.take(k) == r@);
            lemma_total_take_push(r@, k - 1);
            assert(r@[k - 1].len > 0);
            assert(total_rows(r@.take(k - 1)) == (k - 1) * size) by {
                lemma_total_rows_uniform(r@, k - 1, size as int);
            }
            let last = r@[k - 1].len;
            assert(0 < last <= size);
            assert(n_rows == (k - 1) * size + last);
            let n = n_rows as int;
            let z = size as int;
            assert((n + z - 1) / z == k) by (nonlinear_arith)
                requires n == (k - 1) * z + last, 0 < last <= z, z > 0;
        }
    }
    r
}

proof fn lemma_total_rows_uniform(b: Seq<BatchSpan>, k: int, size: int)
    requires
        0 <= k <= b.len(),
        forall|i: int| 0 <= i < k ==> #[trigger] b[i].len == size,
    ensures
        total_rows(b.take(k)) == k * size,
    decreases k,
{
    if k == 0 {
        assert(b.take(0).len() == 0);
    } else {
        lemma_total_rows_uniform(b, k - 1, size);
        lemma_total_take_push(b, k - 1);
        assert(k * size == (k - 1) * size + size) by (nonlinear_arith);
    }
}

/// Batches that start at `offset` and follow one another hold `total_rows`
/// rows in all, come in strictly increasing row order, and no two of them hold
/// the same row.
pub proof fn lemma_batches_complete(b: Seq<BatchSpan>, offset: int, i: int, j: int, row: int)
    requires
        contiguous(b, offset),
        0 <= i < j < b.len(),
    ensures
        b[i].first_row + b[i].len <= b[j].first_row,
        b[i].first_row < b[j].first_row,
        !(b[i].first_row <= row < b[i].first_row + b[i].len && b[j].first_row <= row
            < b[j].first_row + b[j].len),
{
    lemma_total_take_push(b, i);
    lemma_total_monotone(b, i + 1, j);
    assert(b[i].index == i);
    assert(b[j].index == j);
}

/// Rows of an import below which its batches stay on one thread.
pub const MIN_PARALLEL_IMPORT_ROWS: usize = 1_000;

/// Number of batches of at most `batch_size` rows that `height` rows make.
pub fn n_batches(height: usize, batch_size: usize) -> (r: usize)
    ensures
        r == batch_count(height as int, batch_size as int),
{
    if height == 0 {
        0
    } else if batch_size == 0 {
        1
    } else {
        let r = (height - 1) / batch_size + 1;
        proof {
            let h = height as int;
            let z = batch_size as int;
            assert((h - 1) / z + 1 == (h + z - 1) / z) by (nonlinear_arith)
                requires h >= 1, z >= 1;
        }
        r
    }
}

/// Workers for an import of `height` rows: one for a small import.
pub fn import_thread_count(height: usize, thread_count: usize) -> (r: usize)
    ensures
        r == (if height < MIN_PARALLEL_IMPORT_ROWS { 1 } else { thread_count }),
{
    if height < MIN_PARALLEL_IMPORT_ROWS {
        1
    } else {
        thread_count
    }
}

/// The source rows of an import: `offset` is the first row, counted from one
/// (zero for the first row), and `n_rows` the number of rows (zero for all
/// that follow); `available` rows are in the source.
#[derive(Copy, Clone, Debug, PartialEq, Eq, Structural)]
pub struct ImportWindow {
    /// The first source row, counted from zero.
    pub first: usize,
    pub len: usize,
}

/// The rows of an import, within the `available` rows of the source.
pub fn import_window(offset: usize, n_rows: usize, available: usize) -> (r: ImportWindow)
    ensures
        r.first == (if offset > 0 { offset - 1 } else { 0 }),
        r.len == min_of(
            if n_rows > 0 { n_rows as int } else { available as int },
            max_of(available - r.first, 0),
        ),
        r.first + r.len <= available || r.len == 0,
{
    let first: usize = if offset > 0 { offset - 1 } else { 0 };
    let left: usize = if available > first { available - first } else { 0 };
    let wanted: usize = if n_rows > 0 { n_rows } else { available };
    ImportWindow { first, len: if wanted <= left { wanted } else { left } }
}

/// The row and batch counters of one transfer: rows handed to the host so
/// far, and batches emitted.
pub struct TransferCounters {
    rows: usize,
    batches: usize,
}

impl TransferCounters {
    pub closed spec fn rows(&self) -> int {
        self.rows as int
    }

    pub closed spec fn batches(&self) -> int {
        self.batches as int
    }

    /// Counters at the start of a transfer.
    pub fn new() -> (r: Self)
        ensures
            r.rows() == 0,
            r.batches() == 0,
    {
        TransferCounters { rows: 0, batches: 0 }
    }

    /// Counts a batch of `height` rows; gives the transfer row at which it
    /// starts, counted from zero, and its index.
    pub fn begin_batch(&mut self, height: usize) -> (r: (usize, usize))
        requires
            old(self).rows() + height <= usize::MAX,
            old(self).batches() < usize::MAX,
        ensures
            r.0 == old(self).rows(),
            r.1 == old(self).batches(),
            final(self).rows() == old(self).rows() + height,
            final(self).batches() == old(self).batches() + 1,
    {
        let r = (self.rows, self.batches);
        self.rows = self.rows + height;
        self.batches = self.batches + 1;
        r
    }

    /// Rows handed to the host so far.
    pub fn rows_transferred(&self) -> (r: usize)
        ensures
            r == self.rows(),
    {
        self.rows
    }

    /// Batches emitted so far.
    pub fn batches_emitted(&self) -> (r: usize)
        ensures
            r == self.batches(),
    {
        self.batches
    }
}

/// Counting the batches of a plan in order, each starts at the transfer row
/// that the counters give it, and the counters end at the plan's row and
/// batch totals.
pub proof fn lemma_counters_follow_plan(b: Seq<BatchSpan>, offset: int, k: int)
    requires
        contiguous(b, offset),
        0 <= k < b.len(),
    ensures
        b[k].first_row - offset == total_rows(b.take(k)),
        total_rows(b.take(k + 1)) == total_rows(b.take(k)) + b[k].len,
        b[k].index == k,
{
    lemma_total_take_push(b, k);
}

} // verus!
