//! Text rendering of datasets as aligned tables (what `Debug` prints).

use vstd::prelude::*;
use vstd::string::*;
use vstd::utf8::encode_utf8;
use crate::column::{ColumnVector, FloatBits, IntCell};
use crate::dataset::{Dataset, null_at};
use crate::text::{decimal_text, joined};
use crate::timefmt::{rfc3339_text, nanos_per_tick, datetime_text};

verus! {

/// `n` spaces.
pub open spec fn spaces(n: nat) -> Seq<char> {
    Seq::new(n, |i: int| ' ')
}

/// `n` dashes.
pub open spec fn dashes(n: nat) -> Seq<char> {
    Seq::new(n, |i: int| '-')
}

/// Left-aligned in a field of at least 12 characters (`{:<12}`).
pub open spec fn pad12(s: Seq<char>) -> Seq<char> {
    if s.len() < 12 {
        s + spaces((12 - s.len()) as nat)
    } else {
        s
    }
}

/// The parts joined by `"| "`.
pub open spec fn join_bar(parts: Seq<Seq<char>>) -> Seq<char>
    decreases parts.len(),
{
    if parts.len() == 0 {
        Seq::empty()
    } else if parts.len() == 1 {
        parts[0]
    } else {
        join_bar(parts.drop_last()) + "| "@ + parts.last()
    }
}

/// A string of more than 10 characters cut to its first 7 followed by "...".
pub open spec fn truncated(s: Seq<char>) -> Seq<char> {
    if s.len() > 10 {
        s.subrange(0, 7) + "..."@
    } else {
        s
    }
}

/// A line of output (`writeln!`).
pub open spec fn line(s: Seq<char>) -> Seq<char> {
    s + "\n"@
}

/// `s` is the table cell of row `row` of `col`: "null" for null rows, floats
/// as `float_text` renders them, text truncated to 10 characters, datetimes
/// in RFC 3339 ("err_date" when they cannot be rendered), and other values as
/// their labels.
pub open spec fn cell_ok<F: Fn(FloatBits) -> String>(col: ColumnVector, row: int, s: Seq<char>, float_text: F) -> bool {
    if null_at(col, row) {
        s == "null"@
    } else {
        match col {
            ColumnVector::Float64 { data, .. } => exists|t: String| call_ensures(float_text, (FloatBits::F64(data@[row]),), t) && s == t@,
            ColumnVector::Float32 { data, .. } => exists|t: String| call_ensures(float_text, (FloatBits::F32(data@[row]),), t) && s == t@,
            ColumnVector::String { data, .. } => s == truncated(data@[row]@),
            ColumnVector::Categorical { keys, values, .. } => if (keys@[row] as int) < values@.len() {
                s == truncated(values@[keys@[row] as int]@)
            } else {
                s == "null"@
            },
            ColumnVector::Datetime { data, unit, .. } => match rfc3339_text(data@[row] * nanos_per_tick(unit)) {
                Some(t) => s == t,
                None => s == "err_date"@,
            },
            ColumnVector::Boolean { data, .. } => s == data@[row].label(),
            ColumnVector::Int8 { data, .. } => s == data@[row].label(),
            ColumnVector::Int16 { data, .. } => s == data@[row].label(),
            ColumnVector::Int32 { data, .. } => s == data@[row].label(),
            ColumnVector::Int64 { data, .. } => s == data@[row].label(),
            ColumnVector::UInt32 { data, .. } => s == data@[row].label(),
            ColumnVector::UInt64 { data, .. } => s == data@[row].label(),
            ColumnVector::Date { data, .. } => s == data@[row].label(),
            ColumnVector::Duration { data, .. } => s == data@[row].label(),
            ColumnVector::Time { data, .. } => s == data@[row].label(),
        }
    }
}

/// The first line of a table of rows `offset..offset + len` out of `total`.
pub open spec fn title_text(offset: int, len: int, total: int) -> Seq<char> {
    "Dataset View: rows "@ + decimal_text(offset) + ".."@ + decimal_text(offset + len) + " (Total "@
        + decimal_text(total) + " rows)"@
}

/// The rows of a table, one line each, cells padded and joined.
pub open spec fn rows_text(cells: Seq<Seq<Seq<char>>>) -> Seq<char>
    decreases cells.len(),
{
    if cells.len() == 0 {
        Seq::empty()
    } else {
        rows_text(cells.drop_last()) + line(join_bar(cells.last().map_values(|c: Seq<char>| pad12(c))))
    }
}

impl Dataset {
    /// The name stored at column position `i`.
    pub open spec fn name_at(&self, i: int) -> Seq<char> {
        choose|n: Seq<char>| #[trigger] self.has_column(n) && self.schema_map()[n] == i
    }

    /// The header line: the column names in position order.
    pub open spec fn header_text(&self) -> Seq<char> {
        join_bar(Seq::new(self.spec_width(), |i: int| pad12(self.name_at(i))))
    }

    /// The type line: "(dtype)" for each column in position order.
    pub open spec fn types_text(&self) -> Seq<char> {
        join_bar(Seq::new(self.spec_width(), |i: int| pad12("("@ + self.cols()[i].spec_dtype_name() + ")"@)))
    }

    /// `cells[r][c]` is the cell of row `offset + r` of the column at position `c`.
    pub open spec fn cells_ok<F: Fn(FloatBits) -> String>(&self, offset: int, cells: Seq<Seq<Seq<char>>>, float_text: F) -> bool {
        forall|r: int| 0 <= r < cells.len() ==> #[trigger] cells[r].len() == self.spec_width() && forall|c: int|
            0 <= c < self.spec_width() ==> cell_ok(self.cols()[c], offset + r, #[trigger] cells[r][c], float_text)
    }

    /// The table of rows `offset..offset + cells.len()`: a title, the header,
    /// the type line, a dashed rule as long as the header's UTF-8 encoding (as a `usize`), and the rows.
    pub open spec fn table_text(&self, offset: int, cells: Seq<Seq<Seq<char>>>) -> Seq<char> {
        line(title_text(offset, cells.len() as int, self.spec_height() as int)) + line(self.header_text()) + line(
            self.types_text(),
        ) + line(dashes((encode_utf8(self.header_text()).len() as usize) as nat)) + rows_text(cells)
    }
}

pub(crate) fn pad12_text(s: &str) -> (r: String)
    ensures
        r@ == pad12(s@),
{
    let n = s.unicode_len();
    let mut r = String::from_str(s);
    if n < 12 {
        let mut k: usize = n;
        while k < 12
            invariant
                n <= k <= 12,
                n == s@.len(),
                r@ == s@ + spaces((k - n) as nat),
            decreases 12 - k,
        {
            r.append(" ");
            proof {
                reveal_strlit(" ");
                assert(s@ + spaces((k + 1 - n) as nat) =~= s@ + spaces((k - n) as nat) + " "@);
            }
            k = k + 1;
        }
    }
    r
}

pub(crate) fn join_bar_text(parts: &Vec<String>) -> (r: String)
    ensures
        r@ == join_bar(parts@.map_values(|s: String| s@)),
{
    let ghost pv = parts@.map_values(|s: String| s@);
    if parts.len() == 0 {
        assert(pv.len() == 0);
        return String::new();
    }
    let mut r = parts[0].clone();
    let mut i: usize = 1;
    proof {
        assert(pv.take(1).len() == 1);
        assert(join_bar(pv.take(1)) == pv.take(1)[0]);
    }
    while i < parts.len()
        invariant
            1 <= i <= parts@.len(),
            pv == parts@.map_values(|s: String| s@),
            r@ == join_bar(pv.take(i as int)),
        decreases parts@.len() - i,
    {
        r.append("| ");
        r.append(parts[i].as_str());
        proof {
            assert(pv.take(i + 1).drop_last() =~= pv.take(i as int));
            assert(pv.take(i + 1).last() == parts@[i as int]@);
        }
        i = i + 1;
    }
    assert(pv.take(parts@.len() as int) =~= pv);
    r
}

pub(crate) fn truncated_text(s: &String) -> (r: String)
    ensures
        r@ == truncated(s@),
{
    let n = s.as_str().unicode_len();
    if n > 10 {
        let head = s.as_str().substring_char(0, 7);
        joined(head, "...")
    } else {
        s.clone()
    }
}

pub(crate) fn dash_line(n: usize) -> (r: String)
    ensures
        r@ == dashes(n as nat),
{
    let mut r = String::new();
    let mut k: usize = 0;
    while k < n
        invariant
            k <= n,
            r@ == dashes(k as nat),
        decreases n - k,
    {
        r.append("-");
        proof {
            reveal_strlit("-");
            assert(dashes((k + 1) as nat) =~= dashes(k as nat) + "-"@);
        }
        k = k + 1;
    }
    r
}

fn int_cell<T: IntCell>(data: &Vec<T>, row: usize) -> (r: String)
    requires
        row < data@.len(),
    ensures
        r@ == data@[row as int].label(),
{
    data[row].label_text()
}

/// The table cell of row `row` of `col`.
pub(crate) fn debug_cell<F: Fn(FloatBits) -> String>(col: &ColumnVector, row: usize, float_text: &F) -> (r: String)
    requires
        row < col.spec_len(),
        forall|b: FloatBits| #[trigger] float_text.requires((b,)),
    ensures
        cell_ok(*col, row as int, r@, *float_text),
{
    if crate::dataset::is_null_in(col, row) {
        return String::from_str("null");
    }
    match col {
        ColumnVector::Float64 { data, .. } => float_text(FloatBits::F64(data[row])),
        ColumnVector::Float32 { data, .. } => float_text(FloatBits::F32(data[row])),
        ColumnVector::String { data, .. } => truncated_text(&data[row]),
        ColumnVector::Categorical { keys, values, .. } => {
            let key = keys[row] as usize;
            if key < values.len() {
                truncated_text(&values[key])
            } else {
                String::from_str("null")
            }
        },
        ColumnVector::Datetime { data, unit, .. } => match datetime_text(data[row], *unit) {
            Some(t) => t,
            None => String::from_str("err_date"),
        },
        ColumnVector::Boolean { data, .. } => int_cell(data, row),
        ColumnVector::Int8 { data, .. } => int_cell(data, row),
        ColumnVector::Int16 { data, .. } => int_cell(data, row),
        ColumnVector::Int32 { data, .. } => int_cell(data, row),
        ColumnVector::Int64 { data, .. } => int_cell(data, row),
        ColumnVector::UInt32 { data, .. } => int_cell(data, row),
        ColumnVector::UInt64 { data, .. } => int_cell(data, row),
        ColumnVector::Date { data, .. } => int_cell(data, row),
        ColumnVector::Duration { data, .. } => int_cell(data, row),
        ColumnVector::Time { data, .. } => int_cell(data, row),
    }
}

} // verus!
