use vstd::prelude::*;

use crate::convert::{copy_values, host_value_of, to_host_value, EngineValue, HostValue};
use crate::error::TransferError;
use crate::mapping::{EngineType, TimeUnit};
use crate::text::same_text;
use crate::utilities::{
    chunk_size_spec, row_chunk_size, use_single_thread, ParallelizationStrategy,
    MIN_MULTITHREADED_ROWS,
};

verus! {

/// One regular column of a batch, bound for the host variable `host_index`
/// (counted from zero).
pub struct WriteColumn {
    pub host_index: usize,
    pub dtype: EngineType,
    pub values: Vec<EngineValue>,
}

/// One host store call: the value for host variable `column` at host row
/// `row`, both counted from one.
#[derive(Clone, Debug, PartialEq, Eq)]
pub struct CellWrite {
    pub column: usize,
    pub row: usize,
    pub value: HostValue,
}

/// The columns hold `height` values each, go to distinct host variables, and
/// every host row of the batch, which follow host row `base`, can be numbered.
pub open spec fn valid_batch(cols: Seq<WriteColumn>, base: int, height: int) -> bool {
    &&& 0 <= base
    &&& 0 <= height
    &&& base + height < usize::MAX
    &&& forall|c: int|
        0 <= c < cols.len() ==> #[trigger] cols[c].host_index < usize::MAX && cols[c].values@.len()
            == height
    &&& forall|c: int, d: int|
        0 <= c < cols.len() && 0 <= d < cols.len() && c != d ==> #[trigger] cols[c].host_index
            != #[trigger] cols[d].host_index
}

/// The store call for batch row `r` of column `c`.
pub open spec fn cell_write(cols: Seq<WriteColumn>, base: int, c: int, r: int) -> CellWrite {
    CellWrite {
        column: (cols[c].host_index + 1) as usize,
        row: (base + r + 1) as usize,
        value: host_value_of(cols[c].dtype, cols[c].values@[r]),
    }
}

/// The store calls of column `c` for batch rows `s` up to `e`, in row order.
pub open spec fn column_writes(cols: Seq<WriteColumn>, base: int, c: int, s: int, e: int) -> Seq<
    CellWrite,
> {
    Seq::new((e - s) as nat, |j: int| cell_write(cols, base, c, s + j))
}

/// The store calls of the first `n` columns for batch rows `s` up to `e`,
/// column by column.
pub open spec fn row_range_writes(cols: Seq<WriteColumn>, base: int, s: int, e: int, n: int) -> Seq<
    CellWrite,
>
    decreases n,
{
    if n <= 0 {
        Seq::empty()
    } else {
        row_range_writes(cols, base, s, e, n - 1) + column_writes(cols, base, n - 1, s, e)
    }
}

/// Number of chunks of `chunk` rows that `height` rows need.
pub open spec fn chunk_count(height: int, chunk: int) -> int {
    (height + chunk - 1) / chunk
}

/// The row-major decomposition: one worker per chunk of `chunk` rows, each
/// covering every column of its rows.
pub open spec fn row_major_writes(cols: Seq<WriteColumn>, base: int, height: int, chunk: int) -> Seq<
    Seq<CellWrite>,
> {
    Seq::new(
        chunk_count(height, chunk) as nat,
        |k: int|
            row_range_writes(
                cols,
                base,
                k * chunk,
                if (k + 1) * chunk <= height {
                    (k + 1) * chunk
                } else {
                    height
                },
                cols.len() as int,
            ),
    )
}

/// The column-major decomposition: one worker per column, covering all rows.
pub open spec fn column_major_writes(cols: Seq<WriteColumn>, base: int, height: int) -> Seq<
    Seq<CellWrite>,
> {
    Seq::new(cols.len(), |c: int| column_writes(cols, base, c, 0, height))
}

/// The host's cells after the store calls `w`, made in order, on cells `m`.
pub open spec fn apply_writes(m: Map<(usize, usize), HostValue>, w: Seq<CellWrite>) -> Map<
    (usize, usize),
    HostValue,
>
    decreases w.len(),
{
    if w.len() == 0 {
        m
    } else {
        apply_writes(m, w.drop_last()).insert((w.last().column, w.last().row), w.last().value)
    }
}

/// The views of a list of worker lists.
pub open spec fn plan_view(p: Seq<Vec<CellWrite>>) -> Seq<Seq<CellWrite>> {
    p.map_values(|v: Vec<CellWrite>| v@)
}

/// How the host stores one column of a transfer: its host variable (counted
/// from zero), its name, the engine type's name and the host type's name.
#[derive(Clone, Debug)]
pub struct ColumnInfo {
    pub index: usize,
    pub name: String,
    pub dtype: String,
    pub stata_type: String,
}

/// One column of a materialised batch.
pub struct BatchColumn {
    pub name: String,
    pub dtype: EngineType,
    pub values: Vec<EngineValue>,
}

/// A long-string column of a batch, bound for host variable `host_index`
/// (counted from zero); its values bypass the cell store.
pub struct LongColumn {
    pub host_index: usize,
    pub name: String,
    pub values: Vec<EngineValue>,
}

/// How a column is written, by the name of its host type.
#[derive(Copy, Clone, Debug, PartialEq, Eq, Structural)]
pub enum TargetKind {
    LongString,
    Binary,
    Text,
    Datetime,
    Numeric,
}

pub open spec fn target_kind_spec(t: Seq<char>) -> TargetKind {
    if t == "strl"@ {
        TargetKind::LongString
    } else if t == "binary"@ {
        TargetKind::Binary
    } else if t == "string"@ {
        TargetKind::Text
    } else if t == "datetime"@ {
        TargetKind::Datetime
    } else {
        TargetKind::Numeric
    }
}

/// How a column whose host type is named `stata_type` is written.
pub fn target_kind(stata_type: &str) -> (r: TargetKind)
    ensures
        r == target_kind_spec(stata_type@),
{
    if same_text(stata_type, "strl") {
        TargetKind::LongString
    } else if same_text(stata_type, "binary") {
        TargetKind::Binary
    } else if same_text(stata_type, "string") {
        TargetKind::Text
    } else if same_text(stata_type, "datetime") {
        TargetKind::Datetime
    } else {
        TargetKind::Numeric
    }
}

/// The engine type names whose values are stored as numbers.
pub open spec fn numeric_name(t: Seq<char>) -> bool {
    t == "Boolean"@ || t == "Int8"@ || t == "Int16"@ || t == "Int32"@ || t == "Int64"@ || t
        == "UInt8"@ || t == "UInt16"@ || t == "UInt32"@ || t == "UInt64"@ || t == "Float32"@ || t
        == "Float64"@ || t == "Date"@ || t == "Time"@
}

fn is_numeric_name(t: &str) -> (r: bool)
    ensures
        r == numeric_name(t@),
{
    same_text(t, "Boolean") || same_text(t, "Int8") || same_text(t, "Int16") || same_text(t, "Int32")
        || same_text(t, "Int64") || same_text(t, "UInt8") || same_text(t, "UInt16") || same_text(
        t,
        "UInt32",
    ) || same_text(t, "UInt64") || same_text(t, "Float32") || same_text(t, "Float64") || same_text(
        t,
        "Date",
    ) || same_text(t, "Time")
}

/// Position of the first column of `batch` named `name`.
pub open spec fn find_column(batch: Seq<BatchColumn>, name: Seq<char>) -> Option<int>
    decreases batch.len(),
{
    if batch.len() == 0 {
        None
    } else {
        match find_column(batch.drop_last(), name) {
            Some(k) => Some(k),
            None => if batch.last().name@ == name {
                Some(batch.len() - 1)
            } else {
                None
            },
        }
    }
}

fn position_of(batch: &Vec<BatchColumn>, name: &String) -> (r: Option<usize>)
    ensures
        match (r, find_column(batch@, name@)) {
            (Some(a), Some(b)) => a == b,
            (None, None) => true,
            _ => false,
        },
        r matches Some(a) ==> a < batch@.len(),
{
    let mut i: usize = 0;
    while i < batch.len()
        invariant
            i <= batch.len(),
            find_column(batch@.take(i as int), name@) is None,
        decreases batch.len() - i,
    {
        assert(batch@.take(i + 1).drop_last() == batch@.take(i as int));
        if batch[i].name == *name {
            proof {
                lemma_find_column_prefix(batch@, name@, i + 1);
            }
            return Some(i);
        }
        i += 1;
    }
    assert(batch@.take(batch.len() as int) == batch@);
    None
}

proof fn lemma_find_column_prefix(batch: Seq<BatchColumn>, name: Seq<char>, n: int)
    requires
        0 <= n <= batch.len(),
        find_column(batch.take(n), name) is Some,
    ensures
        find_column(batch, name) == find_column(batch.take(n), name),
    decreases batch.len() - n,
{
    if n < batch.len() {
        assert(batch.drop_last().take(n) == batch.take(n));
        lemma_find_column_prefix(batch.drop_last(), name, n);
    } else {
        assert(batch.take(n) == batch);
    }
}

/// What becomes of one column of a batch.
pub enum PreparedColumn {
    /// Written cell by cell.
    Regular(WriteColumn),
    /// Sent through the long-string side channel.
    Long(LongColumn),
}

/// `r` is what becomes of the column that `info` describes, in `batch`.
pub open spec fn prepared_as(
    info: ColumnInfo,
    batch: Seq<BatchColumn>,
    r: Result<PreparedColumn, TransferError>,
) -> bool {
    match find_column(batch, info.name@) {
        None => r is Err && r->Err_0 is MissingColumn,
        Some(k) => {
            let col = batch[k];
            match target_kind_spec(info.stata_type@) {
                TargetKind::LongString => r matches Ok(PreparedColumn::Long(l)) && l.host_index
                    == info.index && l.name@ == info.name@ && l.values@ == col.values@,
                TargetKind::Binary => r is Err && r->Err_0 is BinaryColumn,
                TargetKind::Datetime => if col.dtype is Datetime {
                    r matches Ok(PreparedColumn::Regular(w)) && w.host_index == info.index
                        && w.dtype == col.dtype && w.values@ == col.values@
                } else {
                    r is Err && r->Err_0 is NoTimeUnit
                },
                TargetKind::Text => if col.dtype == EngineType::String || col.dtype
                    == EngineType::Categorical {
                    r matches Ok(PreparedColumn::Regular(w)) && w.host_index == info.index
                        && w.dtype == col.dtype && w.values@ == col.values@
                } else {
                    r is Err && r->Err_0 is Unsupported
                },
                TargetKind::Numeric => if numeric_name(info.dtype@) {
                    r matches Ok(PreparedColumn::Regular(w)) && w.host_index == info.index
                        && w.dtype == col.dtype && w.values@ == col.values@
                } else {
                    r is Err && r->Err_0 is Unsupported
                },
            }
        },
    }
}

/// Decides how the column that `info` describes is transferred, and takes
/// its values from `batch`; a column that cannot be converted stops the
/// transfer.
pub fn prepare_column(info: &ColumnInfo, batch: &Vec<BatchColumn>) -> (r: Result<
    PreparedColumn,
    TransferError,
>)
    ensures
        prepared_as(*info, batch@, r),
{
    let k = match position_of(batch, &info.name) {
        Some(k) => k,
        None => {
            return Err(TransferError::MissingColumn { name: info.name.clone() });
        },
    };
    let col = &batch[k];
    let regular = PreparedColumn::Regular(
        WriteColumn { host_index: info.index, dtype: col.dtype, values: copy_values(&col.values) },
    );
    match target_kind(info.stata_type.as_str()) {
        TargetKind::LongString => Ok(
            PreparedColumn::Long(
                LongColumn {
                    host_index: info.index,
                    name: info.name.clone(),
                    values: copy_values(&col.values),
                },
            ),
        ),
        TargetKind::Binary => Err(TransferError::BinaryColumn { name: info.name.clone() }),
        TargetKind::Datetime => match col.dtype {
            EngineType::Datetime(_) => Ok(regular),
            _ => Err(TransferError::NoTimeUnit { name: info.name.clone() }),
        },
        TargetKind::Text => match col.dtype {
            EngineType::String | EngineType::Categorical => Ok(regular),
            _ => Err(TransferError::Unsupported { name: info.name.clone(), dtype: col.dtype }),
        },
        TargetKind::Numeric => {
            if is_numeric_name(info.dtype.as_str()) {
                Ok(regular)
            } else {
                Err(TransferError::Unsupported { name: info.name.clone(), dtype: col.dtype })
            }
        },
    }
}

/// Whether the columns make a valid batch of `height` rows after host row
/// `base`.
pub fn valid_batch_input(cols: &Vec<WriteColumn>, base: usize, height: usize) -> (r: bool)
    ensures
        r == valid_batch(cols@, base as int, height as int),
{
    if base as u128 + height as u128 >= usize::MAX as u128 {
        return false;
    }
    let mut c: usize = 0;
    while c < cols.len()
        invariant
            c <= cols.len(),
            base + height < usize::MAX,
            forall|k: int|
                0 <= k < c ==> #[trigger] cols@[k].host_index < usize::MAX && cols@[k].values@.len()
                    == height,
            forall|k: int, d: int|
                0 <= k < c && 0 <= d < cols@.len() && k != d ==> #[trigger] cols@[k].host_index
                    != #[trigger] cols@[d].host_index,
        decreases cols.len() - c,
    {
        if cols[c].host_index == usize::MAX || cols[c].values.len() != height {
            return false;
        }
        let mut d: usize = 0;
        while d < cols.len()
            invariant
                c < cols.len(),
                d <= cols.len(),
                forall|e: int| 0 <= e < d && e != c ==> cols@[c as int].host_index != #[trigger] cols@[e].host_index,
            decreases cols.len() - d,
        {
            if d != c && cols[d].host_index == cols[c].host_index {
                return false;
            }
            d += 1;
        }
        c += 1;
    }
    true
}

/// The store calls for batch rows `start` up to `end` of every column, column
/// by column, for a batch of `height` rows that follows host row `base`.
pub fn write_row_range(
    cols: &Vec<WriteColumn>,
    base: usize,
    height: usize,
    start: usize,
    end: usize,
) -> (r: Vec<CellWrite>)
    requires
        start <= end <= height,
        valid_batch(cols@, base as int, height as int),
    ensures
        r@ == row_range_writes(cols@, base as int, start as int, end as int, cols@.len() as int),
{
    let mut r: Vec<CellWrite> = Vec::new();
    let mut c: usize = 0;
    while c < cols.len()
        invariant
            c <= cols.len(),
            start <= end <= height,
            valid_batch(cols@, base as int, height as int),
            r@ == row_range_writes(cols@, base as int, start as int, end as int, c as int),
        decreases cols.len() - c,
    {
        let col = &cols[c];
        let ghost before = r@;
        let mut row: usize = start;
        while row < end
            invariant
                c < cols.len(),
                start <= row <= end <= height,
                valid_batch(cols@, base as int, height as int),
                *col == cols@[c as int],
                r@ == before + column_writes(cols@, base as int, c as int, start as int, row as int),
            decreases end - row,
        {
            let value = to_host_value(col.dtype, &col.values[row]);
            r.push(CellWrite { column: col.host_index + 1, row: base + row + 1, value });
            proof {
                assert(column_writes(cols@, base as int, c as int, start as int, row + 1)
                    == column_writes(cols@, base as int, c as int, start as int, row as int).push(
                    cell_write(cols@, base as int, c as int, row as int),
                ));
            }
            row += 1;
        }
        c += 1;
    }
    r
}

/// The row-major decomposition of a batch of `height` rows that follows host
/// row `base`: one list of store calls per chunk of `chunk` rows.
pub fn plan_by_row(cols: &Vec<WriteColumn>, base: usize, height: usize, chunk: usize) -> (r: Vec<
    Vec<CellWrite>,
>)
    requires
        chunk > 0,
        valid_batch(cols@, base as int, height as int),
    ensures
        plan_view(r@) == row_major_writes(cols@, base as int, height as int, chunk as int),
{
    let mut r: Vec<Vec<CellWrite>> = Vec::new();
    let mut start: usize = 0;
    assert(r@.len() * chunk == 0);
    while start < height
        invariant
            chunk > 0,
            valid_batch(cols@, base as int, height as int),
            start == (if r@.len() * chunk <= height { r@.len() * chunk } else { height as int }),
            r@.len() == 0 || (r@.len() - 1) * chunk < height,
            forall|k: int|
                0 <= k < r@.len() ==> #[trigger] r@[k]@ == row_major_writes(
                    cols@,
                    base as int,
                    height as int,
                    chunk as int,
                )[k],
            r@.len() <= chunk_count(height as int, chunk as int),
        decreases height - start,
    {
        let end: usize = if height - start > chunk { start + chunk } else { height };
        let w = write_row_range(cols, base, height, start, end);
        let ghost k = r@.len() as int;
        proof {
            let z = chunk as int;
            assert(start == k * z);
            assert((k + 1) * z == start + z) by (nonlinear_arith)
                requires start == k * z;
            assert(k < chunk_count(height as int, z)) by (nonlinear_arith)
                requires start == k * z, start < height, z > 0;
            assert(w@ == row_major_writes(cols@, base as int, height as int, z)[k]);
        }
        r.push(w);
        start = end;
        proof {
            let z = chunk as int;
            assert(r@.len() * z == (k + 1) * z);
            assert(k * z < height);
        }
    }
    proof {
        let z = chunk as int;
        let k = r@.len() as int;
        if k > 0 {
            assert(height <= k * z);
            assert(k == chunk_count(height as int, z)) by (nonlinear_arith)
                requires (k - 1) * z < height, height <= k * z, z > 0;
        } else {
            assert(height == 0);
            assert((z - 1) / z == 0) by (nonlinear_arith)
                requires z > 0;
        }
    }
    assert(plan_view(r@).len() == row_major_writes(cols@, base as int, height as int, chunk as int).len());
    assert(plan_view(r@) == row_major_writes(cols@, base as int, height as int, chunk as int));
    r
}

/// The column-major decomposition of a batch of `height` rows that follows
/// host row `base`: one list of store calls per column.
pub fn plan_by_column(cols: &Vec<WriteColumn>, base: usize, height: usize) -> (r: Vec<
    Vec<CellWrite>,
>)
    requires
        valid_batch(cols@, base as int, height as int),
    ensures
        plan_view(r@) == column_major_writes(cols@, base as int, height as int),
{
    let mut r: Vec<Vec<CellWrite>> = Vec::new();
    let mut c: usize = 0;
    while c < cols.len()
        invariant
            c <= cols.len(),
            valid_batch(cols@, base as int, height as int),
            r@.len() == c,
            forall|k: int|
                0 <= k < c ==> #[trigger] r@[k]@ == column_writes(cols@, base as int, k, 0, height as int),
        decreases cols.len() - c,
    {
        let col = &cols[c];
        let mut w: Vec<CellWrite> = Vec::new();
        let mut row: usize = 0;
        while row < height
            invariant
                c < cols.len(),
                row <= height,
                valid_batch(cols@, base as int, height as int),
                *col == cols@[c as int],
                w@ == column_writes(cols@, base as int, c as int, 0, row as int),
            decreases height - row,
        {
            let value = to_host_value(col.dtype, &col.values[row]);
            w.push(CellWrite { column: col.host_index + 1, row: base + row + 1, value });
            proof {
                assert(column_writes(cols@, base as int, c as int, 0, row + 1) == column_writes(
                    cols@, base as int, c as int, 0, row as int).push(
                    cell_write(cols@, base as int, c as int, row as int),
                ));
            }
            row += 1;
        }
        r.push(w);
        c += 1;
    }
    assert(plan_view(r@) == column_major_writes(cols@, base as int, height as int));
    r
}

/// The lists of store calls of a batch, one per worker: one list over all
/// rows where the batch goes on one thread, else the chosen decomposition.
pub open spec fn batch_writes_spec(
    cols: Seq<WriteColumn>,
    base: int,
    height: int,
    strategy: ParallelizationStrategy,
    n_threads: int,
) -> Seq<Seq<CellWrite>> {
    if n_threads <= 1 || height < MIN_MULTITHREADED_ROWS {
        seq![row_range_writes(cols, base, 0, height, cols.len() as int)]
    } else {
        match strategy {
            ParallelizationStrategy::ByRow => row_major_writes(
                cols,
                base,
                height,
                chunk_size_spec(height, n_threads),
            ),
            ParallelizationStrategy::ByColumn => column_major_writes(cols, base, height),
        }
    }
}

/// The store calls of a batch of `height` rows that follows host row `base`,
/// split among workers as `strategy` and `n_threads` decide.
pub fn plan_batch_writes(
    cols: &Vec<WriteColumn>,
    base: usize,
    height: usize,
    strategy: ParallelizationStrategy,
    n_threads: usize,
) -> (r: Vec<Vec<CellWrite>>)
    requires
        valid_batch(cols@, base as int, height as int),
    ensures
        plan_view(r@) == batch_writes_spec(
            cols@,
            base as int,
            height as int,
            strategy,
            n_threads as int,
        ),
{
    if use_single_thread(n_threads, height) {
        let w = write_row_range(cols, base, height, 0, height);
        let mut r: Vec<Vec<CellWrite>> = Vec::new();
        r.push(w);
        assert(plan_view(r@) =~= seq![w@]);
        r
    } else {
        match strategy {
            ParallelizationStrategy::ByRow => {
                let chunk = row_chunk_size(height, n_threads);
                plan_by_row(cols, base, height, chunk)
            },
            ParallelizationStrategy::ByColumn => plan_by_column(cols, base, height),
        }
    }
}

/// `x` is the store call of some cell of the batch.
pub open spec fn block_write(cols: Seq<WriteColumn>, base: int, height: int, x: CellWrite) -> bool {
    exists|c: int, r: int|
        0 <= c < cols.len() && 0 <= r < height && x == #[trigger] cell_write(cols, base, c, r)
}

proof fn lemma_same_address(
    cols: Seq<WriteColumn>,
    base: int,
    height: int,
    c1: int,
    r1: int,
    c2: int,
    r2: int,
)
    requires
        valid_batch(cols, base, height),
        0 <= c1 < cols.len(),
        0 <= c2 < cols.len(),
        0 <= r1 < height,
        0 <= r2 < height,
        cell_write(cols, base, c1, r1).column == cell_write(cols, base, c2, r2).column,
        cell_write(cols, base, c1, r1).row == cell_write(cols, base, c2, r2).row,
    ensures
        c1 == c2,
        r1 == r2,
{
    assert(cols[c1].host_index < usize::MAX);
    assert(cols[c2].host_index < usize::MAX);
}

proof fn lemma_row_range_shape(
    cols: Seq<WriteColumn>,
    base: int,
    height: int,
    s: int,
    e: int,
    n: int,
)
    requires
        valid_batch(cols, base, height),
        0 <= s <= e <= height,
        0 <= n <= cols.len(),
    ensures
        forall|c: int, r: int|
            0 <= c < n && s <= r < e ==> row_range_writes(cols, base, s, e, n).contains(
                #[trigger] cell_write(cols, base, c, r),
            ),
        forall|i: int|
            0 <= i < row_range_writes(cols, base, s, e, n).len() ==> block_write(
                cols,
                base,
                height,
                #[trigger] row_range_writes(cols, base, s, e, n)[i],
            ),
    decreases n,
{
    if n > 0 {
        lemma_row_range_shape(cols, base, height, s, e, n - 1);
        let p = row_range_writes(cols, base, s, e, n - 1);
        let t = column_writes(cols, base, n - 1, s, e);
        let w = row_range_writes(cols, base, s, e, n);
        assert(w == p + t);
        assert forall|c: int, r: int|
            0 <= c < n && s <= r < e implies w.contains(#[trigger] cell_write(cols, base, c, r)) by {
            if c == n - 1 {
                assert(w[p.len() + (r - s)] == t[r - s]);
            } else {
                assert(p.contains(cell_write(cols, base, c, r)));
                let i = choose|i: int| 0 <= i < p.len() && p[i] == cell_write(cols, base, c, r);
                assert(w[i] == p[i]);
            }
        }
        assert forall|i: int| 0 <= i < w.len() implies block_write(
            cols,
            base,
            height,
            #[trigger] w[i],
        ) by {
            if i < p.len() {
                assert(w[i] == p[i]);
            } else {
                let j = i - p.len();
                assert(w[i] == t[j]);
                assert(t[j] == cell_write(cols, base, n - 1, s + j));
            }
        }
    }
}

proof fn lemma_flatten_contains(p: Seq<Seq<CellWrite>>, k: int, x: CellWrite)
    requires
        0 <= k < p.len(),
        p[k].contains(x),
    ensures
        p.flatten_alt().contains(x),
    decreases p.len(),
{
    let q = p.drop_last();
    assert(p.flatten_alt() == q.flatten_alt() + p.last());
    if k == p.len() - 1 {
        let i = choose|i: int| 0 <= i < p[k].len() && p[k][i] == x;
        assert(p.flatten_alt()[q.flatten_alt().len() + i] == x);
    } else {
        assert(q[k] == p[k]);
        lemma_flatten_contains(q, k, x);
        let i = choose|i: int| 0 <= i < q.flatten_alt().len() && q.flatten_alt()[i] == x;
        assert(p.flatten_alt()[i] == x);
    }
}

proof fn lemma_flatten_member(p: Seq<Seq<CellWrite>>, j: int)
    requires
        0 <= j < p.flatten_alt().len(),
    ensures
        exists|k: int| 0 <= k < p.len() && #[trigger] p[k].contains(p.flatten_alt()[j]),
    decreases p.len(),
{
    let q = p.drop_last();
    assert(p.flatten_alt() == q.flatten_alt() + p.last());
    if j < q.flatten_alt().len() {
        lemma_flatten_member(q, j);
        let k = choose|k: int| 0 <= k < q.len() && #[trigger] q[k].contains(q.flatten_alt()[j]);
        assert(q[k] == p[k]);
        assert(p[k].contains(p.flatten_alt()[j]));
    } else {
        let i = j - q.flatten_alt().len();
        assert(p.last()[i] == p.flatten_alt()[j]);
        assert(p[p.len() - 1].contains(p.flatten_alt()[j]));
    }
}

proof fn lemma_apply_block(
    cols: Seq<WriteColumn>,
    base: int,
    height: int,
    m: Map<(usize, usize), HostValue>,
    w: Seq<CellWrite>,
)
    requires
        valid_batch(cols, base, height),
        forall|i: int| 0 <= i < w.len() ==> block_write(cols, base, height, #[trigger] w[i]),
    ensures
        forall|i: int|
            0 <= i < w.len() ==> apply_writes(m, w).contains_key((#[trigger] w[i].column, w[i].row))
                && apply_writes(m, w)[(w[i].column, w[i].row)] == w[i].value,
        forall|a: (usize, usize)|
            #![trigger apply_writes(m, w).contains_key(a)]
            !(exists|i: int| 0 <= i < w.len() && (#[trigger] w[i].column, w[i].row) == a) ==> (
            apply_writes(m, w).contains_key(a) == m.contains_key(a) && (m.contains_key(a)
                ==> apply_writes(m, w)[a] == m[a])),
    decreases w.len(),
{
    if w.len() > 0 {
        let q = w.drop_last();
        assert forall|i: int| 0 <= i < q.len() implies block_write(cols, base, height, #[trigger] q[i]) by {
            assert(q[i] == w[i]);
        }
        lemma_apply_block(cols, base, height, m, q);
        let x = w.last();
        let mq = apply_writes(m, q);
        assert(apply_writes(m, w) == mq.insert((x.column, x.row), x.value));
        assert(block_write(cols, base, height, w[w.len() - 1]));
        assert forall|i: int|
            0 <= i < w.len() implies apply_writes(m, w).contains_key((#[trigger] w[i].column, w[i].row))
                && apply_writes(m, w)[(w[i].column, w[i].row)] == w[i].value by {
            if i < w.len() - 1 && (w[i].column, w[i].row) != (x.column, x.row) {
                assert(q[i] == w[i]);
            } else if i < w.len() - 1 {
                assert(block_write(cols, base, height, w[i]));
                let (c1, r1) = choose|c: int, r: int|
                    0 <= c < cols.len() && 0 <= r < height && w[i] == #[trigger] cell_write(
                        cols,
                        base,
                        c,
                        r,
                    );
                let (c2, r2) = choose|c: int, r: int|
                    0 <= c < cols.len() && 0 <= r < height && x == #[trigger] cell_write(
                        cols,
                        base,
                        c,
                        r,
                    );
                lemma_same_address(cols, base, height, c1, r1, c2, r2);
            }
        }
        assert forall|a: (usize, usize)|
            #![trigger apply_writes(m, w).contains_key(a)]
            !(exists|i: int| 0 <= i < w.len() && (#[trigger] w[i].column, w[i].row) == a) implies (
            apply_writes(m, w).contains_key(a) == m.contains_key(a) && (m.contains_key(a)
                ==> apply_writes(m, w)[a] == m[a])) by {
            assert((w[w.len() - 1].column, w[w.len() - 1].row) != a);
            assert(!(exists|i: int| 0 <= i < q.len() && (#[trigger] q[i].column, q[i].row) == a)) by {
                if exists|i: int| 0 <= i < q.len() && (#[trigger] q[i].column, q[i].row) == a {
                    let i = choose|i: int| 0 <= i < q.len() && (#[trigger] q[i].column, q[i].row) == a;
                    assert(w[i] == q[i]);
                }
            }
            assert(mq.contains_key(a) == m.contains_key(a));
            assert(apply_writes(m, w).contains_key(a) == mq.contains_key(a));
            if mq.contains_key(a) {
                assert(apply_writes(m, w)[a] == mq[a]);
            }
        }
    }
}

proof fn lemma_apply_same_writes(
    cols: Seq<WriteColumn>,
    base: int,
    height: int,
    m: Map<(usize, usize), HostValue>,
    w1: Seq<CellWrite>,
    w2: Seq<CellWrite>,
)
    requires
        valid_batch(cols, base, height),
        forall|i: int| 0 <= i < w1.len() ==> block_write(cols, base, height, #[trigger] w1[i]),
        forall|i: int| 0 <= i < w2.len() ==> block_write(cols, base, height, #[trigger] w2[i]),
        forall|x: CellWrite| w1.contains(x) ==> w2.contains(x),
        forall|x: CellWrite| w2.contains(x) ==> w1.contains(x),
    ensures
        apply_writes(m, w1) == apply_writes(m, w2),
{
    lemma_apply_block(cols, base, height, m, w1);
    lemma_apply_block(cols, base, height, m, w2);
    let a1 = apply_writes(m, w1);
    let a2 = apply_writes(m, w2);
    assert forall|a: (usize, usize)| #[trigger] a1.contains_key(a) == a2.contains_key(a) && (
    a1.contains_key(a) ==> a1[a] == a2[a]) by {
        if exists|i: int| 0 <= i < w1.len() && (#[trigger] w1[i].column, w1[i].row) == a {
            let i = choose|i: int| 0 <= i < w1.len() && (#[trigger] w1[i].column, w1[i].row) == a;
            assert(w1.contains(w1[i]));
            let j = choose|j: int| 0 <= j < w2.len() && w2[j] == w1[i];
            assert((w2[j].column, w2[j].row) == a);
        } else if exists|j: int| 0 <= j < w2.len() && (#[trigger] w2[j].column, w2[j].row) == a {
            let j = choose|j: int| 0 <= j < w2.len() && (#[trigger] w2[j].column, w2[j].row) == a;
            assert(w2.contains(w2[j]));
            let i = choose|i: int| 0 <= i < w1.len() && w1[i] == w2[j];
            assert((w1[i].column, w1[i].row) == a);
        } else {
            assert(a1.contains_key(a) == m.contains_key(a));
            assert(a2.contains_key(a) == m.contains_key(a));
        }
    }
    assert(a1 =~= a2);
}

/// For one batch, the row-major decomposition (whatever its chunk size), the
/// column-major decomposition and the single-threaded pass over all rows store
/// the same values at the same host cells: made in order, the store calls of
/// any of them leave the host's cells `m` in the same final state.
pub proof fn lemma_strategy_equivalence(
    cols: Seq<WriteColumn>,
    base: int,
    height: int,
    chunk: int,
    m: Map<(usize, usize), HostValue>,
)
    requires
        valid_batch(cols, base, height),
        chunk > 0,
    ensures
        apply_writes(m, row_major_writes(cols, base, height, chunk).flatten_alt()) == apply_writes(
            m,
            column_major_writes(cols, base, height).flatten_alt(),
        ),
        apply_writes(m, row_range_writes(cols, base, 0, height, cols.len() as int)) == apply_writes(
            m,
            column_major_writes(cols, base, height).flatten_alt(),
        ),
{
    let rm = row_major_writes(cols, base, height, chunk);
    let cm = column_major_writes(cols, base, height);
    let a = rm.flatten_alt();
    let b = cm.flatten_alt();
    let single = row_range_writes(cols, base, 0, height, cols.len() as int);
    lemma_row_range_shape(cols, base, height, 0, height, cols.len() as int);
    assert forall|k: int, i: int| 0 <= k < rm.len() && 0 <= i < rm[k].len() implies block_write(
        cols,
        base,
        height,
        #[trigger] rm[k][i],
    ) by {
        let e = if (k + 1) * chunk <= height { (k + 1) * chunk } else { height };
        assert(k * chunk <= e) by (nonlinear_arith)
            requires k >= 0, chunk > 0, e == (if (k + 1) * chunk <= height { (k + 1) * chunk } else { height }), k < (height + chunk - 1) / chunk;
        lemma_row_range_shape(cols, base, height, k * chunk, e, cols.len() as int);
    }
    assert forall|i: int| 0 <= i < a.len() implies block_write(cols, base, height, #[trigger] a[i]) by {
        lemma_flatten_member(rm, i);
        let k = choose|k: int| 0 <= k < rm.len() && #[trigger] rm[k].contains(a[i]);
        let j = choose|j: int| 0 <= j < rm[k].len() && rm[k][j] == a[i];
        assert(block_write(cols, base, height, rm[k][j]));
    }
    assert forall|i: int| 0 <= i < b.len() implies block_write(cols, base, height, #[trigger] b[i]) by {
        lemma_flatten_member(cm, i);
        let k = choose|k: int| 0 <= k < cm.len() && #[trigger] cm[k].contains(b[i]);
        let j = choose|j: int| 0 <= j < cm[k].len() && cm[k][j] == b[i];
        assert(cm[k][j] == cell_write(cols, base, k, j));
    }
    assert forall|x: CellWrite|
        #![trigger a.contains(x)]
        #![trigger b.contains(x)]
        #![trigger single.contains(x)]
        block_write(cols, base, height, x) implies a.contains(x) && b.contains(x) && single.contains(
            x,
        ) by {
        let (c, r) = choose|c: int, r: int|
            0 <= c < cols.len() && 0 <= r < height && x == #[trigger] cell_write(cols, base, c, r);
        let k = r / chunk;
        let e = if (k + 1) * chunk <= height { (k + 1) * chunk } else { height };
        assert(k * chunk <= r < e && 0 <= k < (height + chunk - 1) / chunk) by (nonlinear_arith)
            requires k == r / chunk, chunk > 0, 0 <= r < height, e == (if (k + 1) * chunk <= height { (k + 1) * chunk } else { height });
        lemma_row_range_shape(cols, base, height, k * chunk, e, cols.len() as int);
        assert(rm[k].contains(x));
        lemma_flatten_contains(rm, k, x);
        assert(cm[c][r] == x);
        assert(cm[c].contains(x));
        lemma_flatten_contains(cm, c, x);
    }
    assert forall|x: CellWrite| a.contains(x) implies block_write(cols, base, height, x) by {
        let i = choose|i: int| 0 <= i < a.len() && a[i] == x;
    }
    assert forall|x: CellWrite| b.contains(x) implies block_write(cols, base, height, x) by {
        let i = choose|i: int| 0 <= i < b.len() && b[i] == x;
    }
    assert forall|x: CellWrite| single.contains(x) implies block_write(cols, base, height, x) by {
        let i = choose|i: int| 0 <= i < single.len() && single[i] == x;
    }
    lemma_apply_same_writes(cols, base, height, m, a, b);
    lemma_apply_same_writes(cols, base, height, m, single, b);
}

} // verus!
