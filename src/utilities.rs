use vstd::prelude::*;

verus! {

/// Days between the engine's date epoch and the host's.
pub const DAY_SHIFT_SAS_STATA: i32 = 3653;

/// Seconds between the engine's datetime epoch and the host's.
pub const SEC_SHIFT_SAS_STATA: i64 = 315619200;

/// Milliseconds in a second.
pub const SEC_MILLISECOND: i64 = 1_000;

/// Microseconds in a second.
pub const SEC_MICROSECOND: i64 = 1_000_000;

/// Nanoseconds in a second.
pub const SEC_NANOSECOND: i64 = 1_000_000_000;

/// How the cell transfer of one batch is split among workers.
#[derive(Copy, Clone, Debug, PartialEq, Eq, Structural)]
pub enum ParallelizationStrategy {
    /// Contiguous row chunks, each worker covering every column of its rows.
    ByRow,
    /// One worker per column, each covering every row of its column.
    ByColumn,
}

/// The column-major heuristic: many more columns than workers, and few rows.
pub open spec fn prefers_columns(n_columns: int, n_rows: int, available_cores: int) -> bool {
    n_columns > 2 * available_cores && n_rows < 100_000
}

/// Picks the decomposition of a batch of `n_rows` rows and `n_columns` columns
/// for `available_cores` workers.
pub fn determine_parallelization_strategy(
    n_columns: usize,
    n_rows: usize,
    available_cores: usize,
) -> (r: ParallelizationStrategy)
    ensures
        r == (if prefers_columns(n_columns as int, n_rows as int, available_cores as int) {
            ParallelizationStrategy::ByColumn
        } else {
            ParallelizationStrategy::ByRow
        }),
{
    if (available_cores as u128) * 2 < n_columns as u128 && n_rows < 100_000 {
        ParallelizationStrategy::ByColumn
    } else {
        ParallelizationStrategy::ByRow
    }
}

/// The decomposition used for a batch: column-major only where the host is
/// known to take concurrent stores into distinct columns; row-major otherwise.
pub fn admitted_strategy(
    chosen: ParallelizationStrategy,
    host_supports_concurrent_column_access: bool,
) -> (r: ParallelizationStrategy)
    ensures
        r == (if host_supports_concurrent_column_access {
            chosen
        } else {
            ParallelizationStrategy::ByRow
        }),
{
    if host_supports_concurrent_column_access {
        chosen
    } else {
        ParallelizationStrategy::ByRow
    }
}

/// Fewest rows in a batch for which the cell transfer is spread over workers.
pub const MIN_MULTITHREADED_ROWS: usize = 10_000;

/// Fewest rows in one row-major chunk.
pub const MIN_CHUNK_ROWS: usize = 100;

/// Whether a batch of `row_count` rows is transferred on one thread, whatever
/// the strategy: with at most one worker, or a small batch.
pub fn use_single_thread(n_threads: usize, row_count: usize) -> (r: bool)
    ensures
        r == (n_threads <= 1 || row_count < MIN_MULTITHREADED_ROWS),
{
    n_threads <= 1 || row_count < MIN_MULTITHREADED_ROWS
}

/// Rows in one chunk of the row-major decomposition of `row_count` rows over
/// `n_threads` workers.
pub open spec fn chunk_size_spec(row_count: int, n_threads: int) -> int {
    let share = row_count / (n_threads * 4);
    if share > MIN_CHUNK_ROWS { share } else { MIN_CHUNK_ROWS as int }
}

/// Rows in one chunk of the row-major decomposition: a quarter of each
/// worker's share, and at least a hundred.
pub fn row_chunk_size(row_count: usize, n_threads: usize) -> (r: usize)
    requires
        n_threads >= 1,
    ensures
        r == chunk_size_spec(row_count as int, n_threads as int),
        r >= MIN_CHUNK_ROWS,
{
    let share: u128 = row_count as u128 / (n_threads as u128 * 4);
    proof {
        assert(share <= row_count) by (nonlinear_arith)
            requires share == row_count as int / (n_threads as int * 4), n_threads >= 1, row_count >= 0;
    }
    if share > MIN_CHUNK_ROWS as u128 {
        share as usize
    } else {
        MIN_CHUNK_ROWS
    }
}

/// Whether `c` is a decimal digit.
pub open spec fn is_digit(c: char) -> bool {
    '0' <= c <= '9'
}

/// Value of the decimal digits `d`.
pub open spec fn digits_value(d: Seq<char>) -> int
    decreases d.len(),
{
    if d.len() == 0 {
        0
    } else {
        digits_value(d.drop_last()) * 10 + (d.last() as int - '0' as int)
    }
}

/// `s` without a leading `+`.
pub open spec fn unsigned_part(s: Seq<char>) -> Seq<char> {
    if s.len() > 0 && s[0] == '+' { s.skip(1) } else { s }
}

/// Every character of `d` is a decimal digit.
pub open spec fn all_digits(d: Seq<char>) -> bool {
    forall|i: int| 0 <= i < d.len() ==> is_digit(#[trigger] d[i])
}

/// The count that `s` writes in decimal, with an optional leading `+`, where
/// it fits a `usize`.
pub open spec fn count_of(s: Seq<char>) -> Option<usize> {
    let d = unsigned_part(s);
    if d.len() > 0 && all_digits(d) && digits_value(d) <= usize::MAX {
        Some(digits_value(d) as usize)
    } else {
        None
    }
}

proof fn lemma_digits_value_nonneg(d: Seq<char>)
    requires
        forall|i: int| 0 <= i < d.len() ==> is_digit(#[trigger] d[i]),
    ensures
        digits_value(d) >= 0,
    decreases d.len(),
{
    if d.len() > 0 {
        lemma_digits_value_nonneg(d.drop_last());
    }
}

proof fn lemma_digits_value_grows(d: Seq<char>, k: int)
    requires
        0 <= k <= d.len(),
        forall|i: int| 0 <= i < d.len() ==> is_digit(#[trigger] d[i]),
    ensures
        digits_value(d.take(k)) <= digits_value(d),
    decreases d.len() - k,
{
    if k < d.len() {
        lemma_digits_value_grows(d.drop_last(), k);
        assert(d.drop_last().take(k) == d.take(k));
        lemma_digits_value_nonneg(d.drop_last());
        assert(d.take(d.len() as int) == d);
        if k == d.len() - 1 {
            assert(d.take(k) == d.drop_last());
        }
    } else {
        assert(d.take(k) == d);
    }
}

/// Reads a count written in decimal, as `usize::from_str` does.
pub fn parse_count(s: &str) -> (r: Option<usize>)
    ensures
        r == count_of(s@),
{
    let c = crate::text::chars_of(s);
    let start: usize = if c.len() > 0 && c[0] == '+' { 1 } else { 0 };
    let ghost d = unsigned_part(s@);
    assert(d == c@.skip(start as int));
    if start >= c.len() {
        return None;
    }
    let mut value: usize = 0;
    let mut i: usize = start;
    while i < c.len()
        invariant
            start <= i <= c.len(),
            c@ == s@,
            d == unsigned_part(s@),
            d == c@.skip(start as int),
            forall|k: int| 0 <= k < i - start ==> is_digit(#[trigger] d[k]),
            value == digits_value(d.take(i - start)),
        decreases c.len() - i,
    {
        let ch = c[i];
        assert(d[i - start] == ch);
        if !('0' <= ch && ch <= '9') {
            proof {
                assert(!is_digit(d[i - start]));
                assert(!all_digits(d));
            }
            return None;
        }
        let digit = (ch as u32 - '0' as u32) as usize;
        assert(d.take(i - start + 1).drop_last() == d.take(i - start));
        assert(d.take(i - start + 1).last() == ch);
        assert(digits_value(d.take(i - start + 1)) == value * 10 + digit);
        if value > (usize::MAX - digit) / 10 {
            proof {
                assert(value * 10 + digit > usize::MAX) by (nonlinear_arith)
                    requires value > (usize::MAX - digit) / 10, digit <= 9;
                assert forall|k: int| 0 <= k < i - start + 1 implies is_digit(#[trigger] d.take(i - start + 1)[k]) by {}
                if all_digits(d) {
                    lemma_digits_value_grows(d, i - start + 1);
                }
            }
            return None;
        }
        value = value * 10 + digit;
        i += 1;
    }
    assert(d.take(i - start) == d);
    Some(value)
}

/// Worker threads for a transfer: the count set in the environment where it
/// reads as one, else what the machine offers, else one.
pub fn get_thread_count(configured: Option<&str>, available: Option<usize>) -> (r: usize)
    ensures
        r == (match configured {
            Some(s) => match count_of(s@) {
                Some(n) => n,
                None => match available { Some(a) => a, None => 1 },
            },
            None => match available { Some(a) => a, None => 1 },
        }),
{
    let fallback: usize = match available {
        Some(a) => a,
        None => 1,
    };
    match configured {
        Some(s) => match parse_count(s) {
            Some(n) => n,
            None => fallback,
        },
        None => fallback,
    }
}

} // verus!
