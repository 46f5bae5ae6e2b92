use vstd::prelude::*;

use crate::batch::{effective_batch_size, effective_batch_size_spec};
use crate::error::TransferError;
use crate::mapping::{
    engine_type_of, format_kind, map_stata_to_polars, match_var_format_stata, EngineType,
    StataType, TimeUnit,
};
use crate::text::{lowercase_of, same_text, to_lower};
use crate::utilities::{
    determine_parallelization_strategy, prefers_columns, ParallelizationStrategy,
};

verus! {

/// How a host column is described for export: its name, the host type's
/// name, its display format and, for strings, its width.
#[derive(Clone, Debug)]
pub struct StataColumnInfo {
    pub name: String,
    pub dtype: String,
    pub format: String,
    pub str_length: usize,
}

/// One named, typed column of the engine's schema.
pub struct SchemaField {
    pub name: String,
    pub dtype: EngineType,
}

/// Host type of a column whose host type name is `dtype` (in lower case) and
/// whose display format is `format`; `None` for a name the layer does not know.
pub open spec fn declared_type(dtype: Seq<char>, format: Seq<char>) -> Option<StataType> {
    let temporal = format_kind(lowercase_of(format));
    if dtype == "string"@ {
        Some(StataType::String)
    } else if dtype == "strl"@ {
        Some(StataType::Strl)
    } else if dtype == "byte"@ || dtype == "int"@ || dtype == "long"@ || dtype == "float"@ || dtype
        == "double"@ {
        match temporal {
            Some(t) => Some(t),
            None => Some(
                if dtype == "byte"@ {
                    StataType::Byte
                } else if dtype == "int"@ {
                    StataType::Int
                } else if dtype == "long"@ {
                    StataType::Long
                } else if dtype == "float"@ {
                    StataType::Float
                } else {
                    StataType::Double
                },
            ),
        }
    } else {
        None
    }
}

/// Host type of the column that `col` describes, its type name compared
/// without regard to case.
pub fn declared_stata_type(col: &StataColumnInfo) -> (r: Option<StataType>)
    ensures
        r == declared_type(lowercase_of(col.dtype@), col.format@),
{
    let lower = to_lower(col.dtype.as_str());
    declared_type_of(lower.as_str(), col.format.as_str())
}

/// Host type of a column whose host type name, already in lower case, is
/// `dtype` and whose display format is `format`.
pub fn declared_type_of(dtype: &str, format: &str) -> (r: Option<StataType>)
    ensures
        r == declared_type(dtype@, format@),
{
    let d = dtype;
    if same_text(d, "string") {
        Some(StataType::String)
    } else if same_text(d, "strl") {
        Some(StataType::Strl)
    } else if same_text(d, "byte") || same_text(d, "int") || same_text(d, "long") || same_text(
        d,
        "float",
    ) || same_text(d, "double") {
        match match_var_format_stata(format) {
            Some(t) => Some(t),
            None => Some(
                if same_text(d, "byte") {
                    StataType::Byte
                } else if same_text(d, "int") {
                    StataType::Int
                } else if same_text(d, "long") {
                    StataType::Long
                } else if same_text(d, "float") {
                    StataType::Float
                } else {
                    StataType::Double
                },
            ),
        }
    } else {
        None
    }
}

/// `f` is the schema field of the host column that `c` describes.
pub open spec fn field_of(f: SchemaField, c: StataColumnInfo) -> bool {
    &&& f.name@ == c.name@
    &&& match declared_type(lowercase_of(c.dtype@), c.format@) {
        Some(t) => f.dtype == engine_type_of(t),
        None => false,
    }
}

/// The engine schema of the exported host columns, in order; a column whose
/// host type name is unknown stops the export.
pub fn stata_column_info_to_schema(column_info: &Vec<StataColumnInfo>) -> (r: Result<
    Vec<SchemaField>,
    TransferError,
>)
    ensures
        match r {
            Ok(fields) => {
                &&& fields@.len() == column_info@.len()
                &&& forall|i: int|
                    0 <= i < column_info@.len() ==> field_of(#[trigger] fields@[i], column_info@[i])
            },
            Err(e) => e is UnknownHostType && exists|i: int|
                0 <= i < column_info@.len() && declared_type(
                    lowercase_of(#[trigger] column_info@[i].dtype@),
                    column_info@[i].format@,
                ) is None,
        },
{
    let mut fields: Vec<SchemaField> = Vec::new();
    let mut i: usize = 0;
    while i < column_info.len()
        invariant
            i <= column_info.len(),
            fields@.len() == i,
            forall|k: int| 0 <= k < i ==> field_of(#[trigger] fields@[k], column_info@[k]),
        decreases column_info.len() - i,
    {
        let col = &column_info[i];
        match declared_stata_type(col) {
            Some(t) => {
                let dtype = map_stata_to_polars(&t);
                fields.push(SchemaField { name: col.name.clone(), dtype });
                assert(field_of(fields@[i as int], column_info@[i as int]));
            },
            None => {
                return Err(
                    TransferError::UnknownHostType {
                        name: col.name.clone(),
                        host_type: col.dtype.clone(),
                    },
                );
            },
        }
        i += 1;
    }
    Ok(fields)
}

/// Position of the first column of `columns` named `name`.
pub open spec fn first_named(columns: Seq<StataColumnInfo>, name: Seq<char>) -> Option<int>
    decreases columns.len(),
{
    if columns.len() == 0 {
        None
    } else {
        match first_named(columns.drop_last(), name) {
            Some(k) => Some(k),
            None => if columns.last().name@ == name {
                Some(columns.len() - 1)
            } else {
                None
            },
        }
    }
}

proof fn lemma_first_named_prefix(columns: Seq<StataColumnInfo>, name: Seq<char>, n: int)
    requires
        0 <= n <= columns.len(),
        first_named(columns.take(n), name) is Some,
    ensures
        first_named(columns, name) == first_named(columns.take(n), name),
    decreases columns.len() - n,
{
    if n < columns.len() {
        assert(columns.drop_last().take(n) == columns.take(n));
        lemma_first_named_prefix(columns.drop_last(), name, n);
    } else {
        assert(columns.take(n) == columns);
    }
}

/// String width of the first column named `target_name`.
pub fn find_str_length_by_name(columns: &Vec<StataColumnInfo>, target_name: &str) -> (r: Option<
    usize,
>)
    ensures
        match first_named(columns@, target_name@) {
            Some(k) => 0 <= k < columns@.len() && r == Some(columns@[k].str_length),
            None => r is None,
        },
{
    let mut i: usize = 0;
    while i < columns.len()
        invariant
            i <= columns.len(),
            first_named(columns@.take(i as int), target_name@) is None,
        decreases columns.len() - i,
    {
        assert(columns@.take(i + 1).drop_last() == columns@.take(i as int));
        if same_text(columns[i].name.as_str(), target_name) {
            proof {
                lemma_first_named_prefix(columns@, target_name@, i + 1);
            }
            return Some(columns[i].str_length);
        }
        i += 1;
    }
    assert(columns@.take(columns.len() as int) == columns@);
    None
}

/// How the cells of one exported column are read and converted.
#[derive(Copy, Clone, Debug, PartialEq, Eq, Structural)]
pub enum ReadKind {
    /// Fixed-width strings of this width.
    Text(usize),
    Boolean,
    Int8,
    Int16,
    Int32,
    Float32,
    Float64,
    /// Host milliseconds, shifted to the engine's epoch.
    DatetimeMs,
    /// Host seconds of the day, scaled to the engine's ticks.
    Time,
    /// Host days, shifted to the engine's epoch.
    Date,
}

/// How a column of engine type `dtype` is read; strings are `width` wide.
pub open spec fn read_kind_of(dtype: EngineType, width: usize) -> Option<ReadKind> {
    match dtype {
        EngineType::String => Some(ReadKind::Text(width)),
        EngineType::Boolean => Some(ReadKind::Boolean),
        EngineType::Int8 => Some(ReadKind::Int8),
        EngineType::Int16 => Some(ReadKind::Int16),
        EngineType::Int32 => Some(ReadKind::Int32),
        EngineType::Float32 => Some(ReadKind::Float32),
        EngineType::Float64 => Some(ReadKind::Float64),
        EngineType::Datetime(TimeUnit::Milliseconds) => Some(ReadKind::DatetimeMs),
        EngineType::Time => Some(ReadKind::Time),
        EngineType::Date => Some(ReadKind::Date),
        _ => None,
    }
}

/// Position of the first field named `name`.
pub open spec fn field_named(schema: Seq<SchemaField>, name: Seq<char>) -> Option<int>
    decreases schema.len(),
{
    if schema.len() == 0 {
        None
    } else {
        match field_named(schema.drop_last(), name) {
            Some(k) => Some(k),
            None => if schema.last().name@ == name {
                Some(schema.len() - 1)
            } else {
                None
            },
        }
    }
}

proof fn lemma_field_named_prefix(schema: Seq<SchemaField>, name: Seq<char>, n: int)
    requires
        0 <= n <= schema.len(),
        field_named(schema.take(n), name) is Some,
    ensures
        field_named(schema, name) == field_named(schema.take(n), name),
    decreases schema.len() - n,
{
    if n < schema.len() {
        assert(schema.drop_last().take(n) == schema.take(n));
        lemma_field_named_prefix(schema.drop_last(), name, n);
    } else {
        assert(schema.take(n) == schema);
    }
}

fn field_position(schema: &Vec<SchemaField>, name: &str) -> (r: Option<usize>)
    ensures
        match (r, field_named(schema@, name@)) {
            (Some(a), Some(b)) => a == b && a < schema@.len(),
            (None, None) => true,
            _ => false,
        },
{
    let mut i: usize = 0;
    while i < schema.len()
        invariant
            i <= schema.len(),
            field_named(schema@.take(i as int), name@) is None,
        decreases schema.len() - i,
    {
        assert(schema@.take(i + 1).drop_last() == schema@.take(i as int));
        if same_text(schema[i].name.as_str(), name) {
            proof {
                lemma_field_named_prefix(schema@, name@, i + 1);
            }
            return Some(i);
        }
        i += 1;
    }
    assert(schema@.take(schema.len() as int) == schema@);
    None
}

/// How the column `col_name` is read: `None` where the schema does not hold
/// it (it is not exported); an error where its type cannot be read.
pub fn column_read_kind(
    col_name: &str,
    schema: &Vec<SchemaField>,
    column_info: &Vec<StataColumnInfo>,
) -> (r: Result<Option<ReadKind>, TransferError>)
    ensures
        match field_named(schema@, col_name@) {
            None => r == Ok::<Option<ReadKind>, TransferError>(None),
            Some(k) => {
                let width: usize = match first_named(column_info@, col_name@) {
                    Some(j) => column_info@[j].str_length,
                    None => 0,
                };
                match read_kind_of(schema@[k].dtype, width) {
                    Some(kind) => r == Ok::<Option<ReadKind>, TransferError>(Some(kind)),
                    None => r is Err && r->Err_0 is Unsupported,
                }
            },
        },
{
    let k = match field_position(schema, col_name) {
        Some(k) => k,
        None => {
            return Ok(None);
        },
    };
    let dtype = schema[k].dtype;
    let width: usize = match find_str_length_by_name(column_info, col_name) {
        Some(w) => w,
        None => 0,
    };
    match dtype {
        EngineType::String => Ok(Some(ReadKind::Text(width))),
        EngineType::Boolean => Ok(Some(ReadKind::Boolean)),
        EngineType::Int8 => Ok(Some(ReadKind::Int8)),
        EngineType::Int16 => Ok(Some(ReadKind::Int16)),
        EngineType::Int32 => Ok(Some(ReadKind::Int32)),
        EngineType::Float32 => Ok(Some(ReadKind::Float32)),
        EngineType::Float64 => Ok(Some(ReadKind::Float64)),
        EngineType::Datetime(TimeUnit::Milliseconds) => Ok(Some(ReadKind::DatetimeMs)),
        EngineType::Time => Ok(Some(ReadKind::Time)),
        EngineType::Date => Ok(Some(ReadKind::Date)),
        _ => {
            let mut name = String::new();
            crate::text::push_text(&mut name, col_name);
            Err(TransferError::Unsupported { name, dtype })
        },
    }
}

/// Columns of an export batch whose long-string cells held binary data, each
/// named once however many of its cells did.
pub struct BinaryWarnings {
    seen: Vec<bool>,
}

impl BinaryWarnings {
    pub closed spec fn flagged(&self) -> Seq<bool> {
        self.seen@
    }

    /// No column flagged, among `n_columns`.
    pub fn new(n_columns: usize) -> (r: Self)
        ensures
            r.flagged() == Seq::new(n_columns as nat, |i: int| false),
    {
        let mut seen: Vec<bool> = Vec::new();
        let mut i: usize = 0;
        while i < n_columns
            invariant
                i <= n_columns,
                seen@ == Seq::new(i as nat, |k: int| false),
            decreases n_columns - i,
        {
            seen.push(false);
            i += 1;
        }
        BinaryWarnings { seen }
    }

    /// Notes that a cell of column `column` held binary data.
    pub fn record(&mut self, column: usize)
        requires
            column < old(self).flagged().len(),
        ensures
            final(self).flagged() == old(self).flagged().update(column as int, true),
    {
        self.seen.set(column, true);
    }

    /// The flagged columns, in order, each once.
    pub fn columns(&self) -> (r: Vec<usize>)
        ensures
            forall|i: int| 0 <= i < r@.len() ==> #[trigger] r@[i] < self.flagged().len() && self.flagged()[r@[i] as int],
            forall|c: int| 0 <= c < self.flagged().len() && self.flagged()[c] ==> r@.contains(c as usize),
            forall|i: int, j: int| 0 <= i < j < r@.len() ==> r@[i] < r@[j],
    {
        let mut r: Vec<usize> = Vec::new();
        let mut c: usize = 0;
        while c < self.seen.len()
            invariant
                c <= self.seen@.len(),
                forall|i: int| 0 <= i < r@.len() ==> #[trigger] r@[i] < c && self.seen@[r@[i] as int],
                forall|k: int| 0 <= k < c && self.seen@[k] ==> r@.contains(k as usize),
                forall|i: int, j: int| 0 <= i < j < r@.len() ==> r@[i] < r@[j],
            decreases self.seen.len() - c,
        {
            if self.seen[c] {
                let ghost before = r@;
                r.push(c);
                proof {
                    assert forall|k: int| 0 <= k < c + 1 && self.seen@[k] implies r@.contains(k as usize) by {
                        if k < c {
                            let i = choose|i: int| 0 <= i < before.len() && before[i] == k as usize;
                            assert(r@[i] == k as usize);
                        } else {
                            assert(r@[before.len() as int] == c);
                        }
                    }
                }
            }
            c += 1;
        }
        r
    }
}

/// Rows per export batch where the caller asks for no size.
pub const DEFAULT_EXPORT_BATCH_ROWS: usize = 10_000_000;

/// Rows of a transfer below which the cell transfer of a batch stays on one
/// thread.
pub const MIN_PARALLEL_READ_ROWS: usize = 100_000;

/// The host rows of one export batch: the `n_rows` rows after host row
/// `first_row`.
#[derive(Copy, Clone, Debug, PartialEq, Eq, Structural)]
pub struct BatchWindow {
    pub first_row: usize,
    pub n_rows: usize,
}

/// How one export batch is read: its rows, the workers and the decomposition.
#[derive(Copy, Clone, Debug, PartialEq, Eq, Structural)]
pub struct ReadPlan {
    pub window: BatchWindow,
    pub n_threads: usize,
    pub strategy: ParallelizationStrategy,
}

/// Reads host rows into engine batches for export, one window at a time.
pub struct StataDataScan {
    current_offset: usize,
    end_row: usize,
    n_rows: usize,
    batch_size: usize,
    schema: Vec<SchemaField>,
    column_info: Vec<StataColumnInfo>,
    all_columns: Vec<String>,
    sql_if: Option<String>,
    parallel_strategy: Option<ParallelizationStrategy>,
}

impl StataDataScan {
    /// The scanner's windows stay within its rows and can advance.
    pub open spec fn wf(&self) -> bool {
        &&& self.current_offset() <= self.end_row()
        &&& self.end_row() - self.n_rows() <= self.current_offset()
        &&& (self.n_rows() > 0 ==> self.batch_size() > 0)
    }

    pub closed spec fn current_offset(&self) -> int {
        self.current_offset as int
    }

    pub closed spec fn end_row(&self) -> int {
        self.end_row as int
    }

    pub closed spec fn n_rows(&self) -> int {
        self.n_rows as int
    }

    pub closed spec fn batch_size(&self) -> int {
        self.batch_size as int
    }

    pub closed spec fn strategy(&self) -> Option<ParallelizationStrategy> {
        self.parallel_strategy
    }

    pub closed spec fn n_columns(&self) -> int {
        self.schema@.len() as int
    }

    /// A scanner of the columns `all_columns`, described by `column_info`,
    /// over `n_rows` host rows after host row `initial_offset`, or over all
    /// `n_obs` rows of the host where `n_rows` is zero.  The batch size is
    /// the requested one, or the default, held to the byte budget.
    pub fn new(
        column_info: Vec<StataColumnInfo>,
        all_columns: Vec<String>,
        batch_size: Option<usize>,
        initial_offset: usize,
        n_rows: usize,
        sql_if: Option<String>,
        parallel_strategy: Option<ParallelizationStrategy>,
        n_obs: usize,
    ) -> (r: Result<Self, TransferError>)
        requires
            initial_offset + (if n_rows > 0 { n_rows } else { n_obs }) <= usize::MAX,
        ensures
            match r {
                Ok(scan) => {
                    let rows = if n_rows > 0 { n_rows } else { n_obs };
                    &&& scan.wf()
                    &&& scan.current_offset() == initial_offset
                    &&& scan.n_rows() == rows
                    &&& scan.end_row() == initial_offset + rows
                    &&& scan.batch_size() == effective_batch_size_spec(
                        (match batch_size {
                            Some(b) => b,
                            None => DEFAULT_EXPORT_BATCH_ROWS,
                        }) as int,
                        all_columns@.len() as int,
                        rows as int,
                    )
                    &&& scan.strategy() == parallel_strategy
                    &&& scan.n_columns() == column_info@.len()
                    &&& scan.column_info_view() == column_info@
                    &&& scan.columns_view() == all_columns@
                    &&& scan.filter_view() == sql_if
                },
                Err(e) => e is UnknownHostType,
            },
            r is Err <==> exists|i: int|
                0 <= i < column_info@.len() && declared_type(
                    lowercase_of(#[trigger] column_info@[i].dtype@),
                    column_info@[i].format@,
                ) is None,
    {
        let rows_to_read: usize = if n_rows > 0 { n_rows } else { n_obs };
        let requested: usize = match batch_size {
            Some(b) => b,
            None => DEFAULT_EXPORT_BATCH_ROWS,
        };
        let size = effective_batch_size(requested, all_columns.len(), rows_to_read);
        let schema = match stata_column_info_to_schema(&column_info) {
            Ok(s) => s,
            Err(e) => {
                return Err(e);
            },
        };
        proof {
            assert forall|i: int| 0 <= i < column_info@.len() implies declared_type(
                lowercase_of(#[trigger] column_info@[i].dtype@),
                column_info@[i].format@,
            ) is Some by {
                assert(field_of(schema@[i], column_info@[i]));
            }
        }
        Ok(
            StataDataScan {
                current_offset: initial_offset,
                end_row: initial_offset + rows_to_read,
                n_rows: rows_to_read,
                batch_size: size,
                schema,
                column_info,
                all_columns,
                sql_if,
                parallel_strategy,
            },
        )
    }

    /// The host row after which the next window starts.
    pub fn get_current_offset(&self) -> (r: usize)
        ensures
            r == self.current_offset(),
    {
        self.current_offset
    }

    /// The next window of at most a batch of rows, in increasing row order;
    /// `None` once every row has been handed out.
    pub fn next_batch(&mut self) -> (r: Option<BatchWindow>)
        requires
            old(self).wf(),
        ensures
            final(self).wf(),
            final(self).end_row() == old(self).end_row(),
            final(self).batch_size() == old(self).batch_size(),
            old(self).current_offset() >= old(self).end_row() ==> r is None && final(self).current_offset() == old(self).current_offset(),
            old(self).current_offset() < old(self).end_row() ==> (r matches Some(w) && {
                &&& w.first_row == old(self).current_offset()
                &&& w.n_rows > 0
                &&& w.n_rows == (if old(self).batch_size() <= old(self).end_row() - old(self).current_offset() {
                    old(self).batch_size()
                } else {
                    old(self).end_row() - old(self).current_offset()
                })
                &&& final(self).current_offset() == old(self).current_offset() + w.n_rows
            }),
    {
        if self.current_offset >= self.end_row {
            return None;
        }
        let remaining = self.end_row - self.current_offset;
        let len = if self.batch_size <= remaining { self.batch_size } else { remaining };
        let w = BatchWindow { first_row: self.current_offset, n_rows: len };
        self.current_offset = self.current_offset + len;
        Some(w)
    }

    /// Every row not handed out yet, as one window; `None` where none is left.
    pub fn scan(&mut self) -> (r: Option<BatchWindow>)
        requires
            old(self).wf(),
        ensures
            final(self).wf(),
            final(self).current_offset() == old(self).end_row() || old(self).current_offset() >= old(self).end_row(),
            old(self).current_offset() >= old(self).end_row() ==> r is None,
            old(self).current_offset() < old(self).end_row() ==> r == Some(
                BatchWindow {
                    first_row: old(self).current_offset() as usize,
                    n_rows: (old(self).end_row() - old(self).current_offset()) as usize,
                },
            ),
    {
        if self.current_offset >= self.end_row {
            return None;
        }
        let w = BatchWindow {
            first_row: self.current_offset,
            n_rows: self.end_row - self.current_offset,
        };
        self.current_offset = self.end_row;
        Some(w)
    }

    /// How the window `window` is read with `thread_count` workers at hand:
    /// small transfers stay on one thread, and the decomposition is the
    /// requested one or else the heuristic's.
    pub fn read_plan(&self, window: BatchWindow, thread_count: usize) -> (r: ReadPlan)
        ensures
            r.window == window,
            r.n_threads == (if window.n_rows < MIN_PARALLEL_READ_ROWS { 1 } else { thread_count }),
            r.strategy == (match self.strategy() {
                Some(s) => s,
                None => if prefers_columns(self.n_columns(), window.n_rows as int, r.n_threads as int) {
                    ParallelizationStrategy::ByColumn
                } else {
                    ParallelizationStrategy::ByRow
                },
            }),
    {
        let n_threads: usize = if window.n_rows < MIN_PARALLEL_READ_ROWS { 1 } else { thread_count };
        let strategy = match self.parallel_strategy {
            Some(s) => s,
            None => determine_parallelization_strategy(self.schema.len(), window.n_rows, n_threads),
        };
        ReadPlan { window, n_threads, strategy }
    }

    pub closed spec fn schema_view(&self) -> Seq<SchemaField> {
        self.schema@
    }

    pub closed spec fn column_info_view(&self) -> Seq<StataColumnInfo> {
        self.column_info@
    }

    pub closed spec fn columns_view(&self) -> Seq<String> {
        self.all_columns@
    }

    pub closed spec fn filter_view(&self) -> Option<String> {
        self.sql_if
    }

    /// The engine schema of the exported columns.
    pub fn schema(&self) -> (r: &Vec<SchemaField>)
        ensures
            r@ == self.schema_view(),
            r@.len() == self.n_columns(),
    {
        &self.schema
    }

    /// The descriptions of the exported host columns.
    pub fn column_info(&self) -> (r: &Vec<StataColumnInfo>)
        ensures
            r@ == self.column_info_view(),
    {
        &self.column_info
    }

    /// The exported columns, in order.
    pub fn all_columns(&self) -> (r: &Vec<String>)
        ensures
            r@ == self.columns_view(),
    {
        &self.all_columns
    }

    /// The filter applied to each batch.
    pub fn sql_if(&self) -> (r: &Option<String>)
        ensures
            *r == self.filter_view(),
    {
        &self.sql_if
    }
}

} // verus!
