use vstd::prelude::*;

use crate::convert::EngineValue;
use crate::text::{chars_of, decimal, push_char, push_decimal, push_text};

verus! {

/// A character as it is written to the side file: line breaks and double
/// quotes become two-character escape sequences.
pub open spec fn escaped_char(c: char) -> Seq<char> {
    if c == '\n' {
        seq!['\\', 'n']
    } else if c == '\r' {
        seq!['\\', 'r']
    } else if c == '"' {
        seq!['\\', '"']
    } else {
        seq![c]
    }
}

/// A text as it is written to the side file, on one line.
pub open spec fn escaped(s: Seq<char>) -> Seq<char>
    decreases s.len(),
{
    if s.len() == 0 {
        Seq::empty()
    } else {
        escaped(s.drop_last()) + escaped_char(s.last())
    }
}

/// `s` with its line breaks and double quotes escaped.
pub fn escape_long_value(s: &str) -> (r: String)
    ensures
        r@ == escaped(s@),
{
    let c = chars_of(s);
    let mut r = String::new();
    let mut i: usize = 0;
    while i < c.len()
        invariant
            i <= c.len(),
            c@ == s@,
            r@ == escaped(c@.take(i as int)),
        decreases c.len() - i,
    {
        let ch = c[i];
        if ch == '\n' {
            push_char(&mut r, '\\');
            push_char(&mut r, 'n');
        } else if ch == '\r' {
            push_char(&mut r, '\\');
            push_char(&mut r, 'r');
        } else if ch == '"' {
            push_char(&mut r, '\\');
            push_char(&mut r, '"');
        } else {
            push_char(&mut r, ch);
        }
        assert(c@.take(i + 1).drop_last() == c@.take(i as int));
        i += 1;
    }
    assert(c@.take(c.len() as int) == c@);
    r
}

/// The line of the side file for one value: the escaped text, or an empty
/// line for a missing value.
pub open spec fn side_line(v: EngineValue) -> Seq<char> {
    match v {
        EngineValue::Text(s) => escaped(s@),
        _ => Seq::empty(),
    }
}

/// The lines of the side file for the values of one long-string column.
pub fn side_file_lines(values: &Vec<EngineValue>) -> (r: Vec<String>)
    ensures
        r@.len() == values@.len(),
        forall|i: int| 0 <= i < values@.len() ==> #[trigger] r@[i]@ == side_line(values@[i]),
{
    let mut r: Vec<String> = Vec::new();
    let mut i: usize = 0;
    while i < values.len()
        invariant
            i <= values.len(),
            r@.len() == i,
            forall|k: int| 0 <= k < i ==> #[trigger] r@[k]@ == side_line(values@[k]),
        decreases values.len() - i,
    {
        let line = match &values[i] {
            EngineValue::Text(s) => escape_long_value(s.as_str()),
            _ => String::new(),
        };
        r.push(line);
        i += 1;
    }
    r
}

/// Where one batch of one long-string column went: the side file, the
/// column's name and the host rows, inclusive, that the file covers.
#[derive(Clone, Debug, PartialEq, Eq)]
pub struct LongValueRecord {
    /// Host variable, counted from one.
    pub column: usize,
    /// Batch, counted from one.
    pub batch: usize,
    pub path: String,
    pub name: String,
    pub start_row: usize,
    pub end_row: usize,
}

/// Path of the side file of host variable `column` for batch `batch`.
pub open spec fn side_path(stub: Seq<char>, column: nat, batch: nat) -> Seq<char> {
    stub + "_"@ + decimal(column) + "_"@ + decimal(batch) + ".csv"@
}

impl LongValueRecord {
    /// The record for host variable `column` and batch `batch` (both counted
    /// from one) of `height` rows whose first is batch row `start_index` of a
    /// transfer that starts after host row `stata_offset`.
    pub fn new(
        stub: &str,
        column: usize,
        batch: usize,
        name: &str,
        start_index: usize,
        height: usize,
        stata_offset: usize,
    ) -> (r: Self)
        requires
            stata_offset + start_index + height + 1 <= usize::MAX,
        ensures
            r.column == column,
            r.batch == batch,
            r.path@ == side_path(stub@, column as nat, batch as nat),
            r.name@ == name@,
            r.start_row == stata_offset + start_index + 1,
            r.end_row == stata_offset + start_index + height,
    {
        let mut path = String::new();
        push_text(&mut path, stub);
        push_text(&mut path, "_");
        push_decimal(&mut path, column);
        push_text(&mut path, "_");
        push_decimal(&mut path, batch);
        push_text(&mut path, ".csv");
        let mut n = String::new();
        push_text(&mut n, name);
        LongValueRecord {
            column,
            batch,
            path,
            name: n,
            start_row: stata_offset + start_index + 1,
            end_row: stata_offset + start_index + height,
        }
    }

    /// The name under which a field of this record is published.
    pub open spec fn key(self, field: Seq<char>) -> Seq<char> {
        "strl_"@ + field + "_"@ + decimal(self.column as nat) + "_"@ + decimal(self.batch as nat)
    }

    fn key_of(&self, field: &str) -> (r: String)
        ensures
            r@ == self.key(field@),
    {
        let mut k = String::new();
        push_text(&mut k, "strl_");
        push_text(&mut k, field);
        push_text(&mut k, "_");
        push_decimal(&mut k, self.column);
        push_text(&mut k, "_");
        push_decimal(&mut k, self.batch);
        k
    }

    /// The side metadata to publish, as name and value, keyed by column and
    /// batch: the path, the column's name, and the first and last host rows.
    pub fn published(&self) -> (r: Vec<(String, String)>)
        ensures
            r@.len() == 4,
            r@[0].0@ == self.key("path"@) && r@[0].1@ == self.path@,
            r@[1].0@ == self.key("name"@) && r@[1].1@ == self.name@,
            r@[2].0@ == self.key("start"@) && r@[2].1@ == decimal(self.start_row as nat),
            r@[3].0@ == self.key("end"@) && r@[3].1@ == decimal(self.end_row as nat),
    {
        let mut r: Vec<(String, String)> = Vec::new();
        let mut p = String::new();
        push_text(&mut p, self.path.as_str());
        r.push((self.key_of("path"), p));
        let mut n = String::new();
        push_text(&mut n, self.name.as_str());
        r.push((self.key_of("name"), n));
        let mut s = String::new();
        push_decimal(&mut s, self.start_row);
        r.push((self.key_of("start"), s));
        let mut e = String::new();
        push_decimal(&mut e, self.end_row);
        r.push((self.key_of("end"), e));
        r
    }
}

} // verus!
