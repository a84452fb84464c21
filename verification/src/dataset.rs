//! `Dataset`: named columns of equal length, addressed by name through a schema.

use vstd::prelude::*;
use vstd::string::*;
use vstd::utf8::encode_utf8;
use std::sync::Arc;
use ahash::AHashMap;
use crate::bitmask::{mask_valid, mask_bit, bytes_for, full_mask, and_mask, clear_mask_bit, keep_first_bits};
use crate::column::{ColumnVector, FloatBits};
use crate::error::{
    ChartonError, column_not_found, column_missing, type_mismatch, inconsistent_length, index_out_of_bounds,
    column_not_found_text, column_missing_text, type_mismatch_text, inconsistent_length_text,
    index_out_of_bounds_text,
};
use crate::display::{dashes, line, title_text, rows_text, pad12, cell_ok, debug_cell, pad12_text, join_bar_text, dash_line};
use crate::text::{decimal_text, int_text};
use crate::group::{GroupedIndices, group_view, grouping};
use crate::hashing::{
    opt_text, schema_contents, schema_new, schema_get, schema_insert, schema_names, schema_copy,
};

verus! {

/// `Arc::clone`: another handle to the same column.
#[verifier::external_body]
fn share_column(c: &Arc<ColumnVector>) -> (r: Arc<ColumnVector>)
    ensures
        *r == **c,
{
    Arc::clone(c)
}

/// Access to the typed storage of a column.
pub trait FromColumnVector: Sized {
    /// The stored values of `col` when it holds values of this type.
    spec fn column_data(col: ColumnVector) -> Option<Seq<Self>>;

    fn try_from_col(col: &ColumnVector) -> (r: Option<&[Self]>)
        ensures
            match r {
                Some(s) => Self::column_data(*col) == Some(s@),
                None => Self::column_data(*col) is None,
            },
    ;
}

impl FromColumnVector for i64 {
    open spec fn column_data(col: ColumnVector) -> Option<Seq<i64>> {
        match col {
            ColumnVector::Int64 { data, .. } => Some(data@),
            _ => None,
        }
    }

    fn try_from_col(col: &ColumnVector) -> (r: Option<&[i64]>) {
        match col {
            ColumnVector::Int64 { data, .. } => Some(data.as_slice()),
            _ => None,
        }
    }
}

impl FromColumnVector for i32 {
    open spec fn column_data(col: ColumnVector) -> Option<Seq<i32>> {
        match col {
            ColumnVector::Int32 { data, .. } => Some(data@),
            _ => None,
        }
    }

    fn try_from_col(col: &ColumnVector) -> (r: Option<&[i32]>) {
        match col {
            ColumnVector::Int32 { data, .. } => Some(data.as_slice()),
            _ => None,
        }
    }
}

impl FromColumnVector for u32 {
    open spec fn column_data(col: ColumnVector) -> Option<Seq<u32>> {
        match col {
            ColumnVector::UInt32 { data, .. } => Some(data@),
            _ => None,
        }
    }

    fn try_from_col(col: &ColumnVector) -> (r: Option<&[u32]>) {
        match col {
            ColumnVector::UInt32 { data, .. } => Some(data.as_slice()),
            _ => None,
        }
    }
}

/// `u64` reads the binary64 bit patterns of a `Float64` column, the way
/// such a column is stored.
impl FromColumnVector for u64 {
    open spec fn column_data(col: ColumnVector) -> Option<Seq<u64>> {
        match col {
            ColumnVector::Float64 { data, .. } => Some(data@),
            _ => None,
        }
    }

    fn try_from_col(col: &ColumnVector) -> (r: Option<&[u64]>) {
        match col {
            ColumnVector::Float64 { data, .. } => Some(data.as_slice()),
            _ => None,
        }
    }
}

impl FromColumnVector for String {
    open spec fn column_data(col: ColumnVector) -> Option<Seq<String>> {
        match col {
            ColumnVector::String { data, .. } => Some(data@),
            _ => None,
        }
    }

    fn try_from_col(col: &ColumnVector) -> (r: Option<&[String]>) {
        match col {
            ColumnVector::String { data, .. } => Some(data.as_slice()),
            _ => None,
        }
    }
}

/// A normalized, columnar data container: every column has `height()` rows
/// and is reached by its name through the schema.
pub struct Dataset {
    pub(crate) schema: AHashMap<String, usize>,
    pub(crate) columns: Vec<Arc<ColumnVector>>,
    pub(crate) row_count: usize,
}

/// Whether a row is null: marked invalid, or NaN in a float column.
pub open spec fn null_at(col: ColumnVector, row: int) -> bool {
    !mask_valid(col.mask(), row) || (0 <= row < col.spec_len() && col.nan_at(row))
}

pub(crate) fn is_null_in(col: &ColumnVector, row: usize) -> (r: bool)
    ensures
        r == null_at(*col, row as int),
{
    match col {
        ColumnVector::Float64 { data, validity } => !ColumnVector::is_valid_in_mask(validity, row)
            || (row < data.len() && crate::column::is_nan_f64_bits(data[row])),
        ColumnVector::Float32 { data, validity } => !ColumnVector::is_valid_in_mask(validity, row)
            || (row < data.len() && crate::column::is_nan_f32_bits(data[row])),
        ColumnVector::Boolean { validity, .. } => !ColumnVector::is_valid_in_mask(validity, row),
        ColumnVector::Int8 { validity, .. } => !ColumnVector::is_valid_in_mask(validity, row),
        ColumnVector::Int16 { validity, .. } => !ColumnVector::is_valid_in_mask(validity, row),
        ColumnVector::Int32 { validity, .. } => !ColumnVector::is_valid_in_mask(validity, row),
        ColumnVector::Int64 { validity, .. } => !ColumnVector::is_valid_in_mask(validity, row),
        ColumnVector::UInt32 { validity, .. } => !ColumnVector::is_valid_in_mask(validity, row),
        ColumnVector::UInt64 { validity, .. } => !ColumnVector::is_valid_in_mask(validity, row),
        ColumnVector::String { validity, .. } => !ColumnVector::is_valid_in_mask(validity, row),
        ColumnVector::Categorical { validity, .. } => !ColumnVector::is_valid_in_mask(validity, row),
        ColumnVector::Date { validity, .. } => !ColumnVector::is_valid_in_mask(validity, row),
        ColumnVector::Datetime { validity, .. } => !ColumnVector::is_valid_in_mask(validity, row),
        ColumnVector::Duration { validity, .. } => !ColumnVector::is_valid_in_mask(validity, row),
        ColumnVector::Time { validity, .. } => !ColumnVector::is_valid_in_mask(validity, row),
    }
}

impl Dataset {
    /// Column name to column position.
    pub closed spec fn schema_map(&self) -> Map<Seq<char>, usize> {
        schema_contents(self.schema)
    }

    /// The columns, by position.
    pub closed spec fn cols(&self) -> Seq<ColumnVector> {
        self.columns@.map_values(|c: Arc<ColumnVector>| *c)
    }

    /// Number of rows.
    pub closed spec fn spec_height(&self) -> nat {
        self.row_count as nat
    }

    pub open spec fn spec_width(&self) -> nat {
        self.cols().len()
    }

    pub open spec fn has_column(&self, name: Seq<char>) -> bool {
        self.schema_map().dom().contains(name)
    }

    /// The column stored under `name`.
    pub open spec fn col(&self, name: Seq<char>) -> ColumnVector {
        self.cols()[self.schema_map()[name] as int]
    }

    /// Some name maps to position `i`.
    pub open spec fn position_named(&self, i: int) -> bool {
        exists|n: Seq<char>| #[trigger] self.has_column(n) && self.schema_map()[n] == i
    }

    /// The schema is a bijection between the names and the column positions,
    /// and every column has `height` rows.
    pub open spec fn wf(&self) -> bool {
        &&& self.schema_map().dom().finite()
        &&& forall|n: Seq<char>| #[trigger] self.has_column(n) ==> (self.schema_map()[n] as int) < self.cols().len()
        &&& forall|a: Seq<char>, b: Seq<char>|
            #[trigger] self.has_column(a) && #[trigger] self.has_column(b) && a != b ==> self.schema_map()[a]
                != self.schema_map()[b]
        &&& forall|i: int| 0 <= i < self.cols().len() ==> #[trigger] self.position_named(i)
        &&& forall|i: int| 0 <= i < self.cols().len() ==> #[trigger] self.cols()[i].spec_len() == self.spec_height()
    }

    /// `new` has the content of `old` with `col` stored under `name` (in place
    /// of an existing column of that name, or appended after the others), as
    /// `add_column` does; `r` tells whether the lengths were consistent.
    pub open spec fn added(new: Dataset, old: Dataset, name: Seq<char>, col: ColumnVector, r: Result<(), ChartonError>) -> bool {
        if old.spec_width() > 0 && col.spec_len() != old.spec_height() {
            &&& r matches Err(e) && e.message() == inconsistent_length_text(name, old.spec_height() as int, col.spec_len() as int)
            &&& new.schema_map() == old.schema_map()
            &&& new.cols() == old.cols()
            &&& new.spec_height() == old.spec_height()
        } else {
            &&& r is Ok
            &&& new.spec_height() == (if old.spec_width() == 0 { col.spec_len() } else { old.spec_height() })
            &&& if old.has_column(name) {
                &&& new.schema_map() == old.schema_map()
                &&& new.cols() == old.cols().update(old.schema_map()[name] as int, col)
            } else {
                &&& new.schema_map() == old.schema_map().insert(name, old.spec_width() as usize)
                &&& new.cols() == old.cols().push(col)
            }
        }
    }

    /// Creates an empty dataset.
    pub fn new() -> (r: Self)
        ensures
            r.wf(),
            r.schema_map() == Map::<Seq<char>, usize>::empty(),
            r.cols() == Seq::<ColumnVector>::empty(),
            r.spec_height() == 0,
    {
        let r = Dataset { schema: schema_new(), columns: Vec::new(), row_count: 0 };
        assert(r.cols() =~= Seq::<ColumnVector>::empty());
        r
    }

    /// Checks an incoming column length against the row count; the first
    /// column of a dataset sets the row count.
    fn validate_len(&mut self, name: &str, incoming_len: usize) -> (r: Result<(), ChartonError>)
        ensures
            final(self).schema == old(self).schema,
            final(self).columns == old(self).columns,
            old(self).columns@.len() == 0 ==> r is Ok && final(self).row_count == incoming_len,
            old(self).columns@.len() > 0 ==> final(self).row_count == old(self).row_count,
            old(self).columns@.len() > 0 && incoming_len != old(self).row_count ==> (r matches Err(e)
                && e.message() == inconsistent_length_text(name@, old(self).row_count as int, incoming_len as int)),
            old(self).columns@.len() > 0 && incoming_len == old(self).row_count ==> r is Ok,
    {
        if self.columns.len() == 0 {
            self.row_count = incoming_len;
            Ok(())
        } else if incoming_len != self.row_count {
            Err(inconsistent_length(name, self.row_count, incoming_len))
        } else {
            Ok(())
        }
    }

    /// Stores `col` under `name`, replacing an existing column of that name.
    fn insert_column(&mut self, name: String, col: ColumnVector) -> (r: Result<(), ChartonError>)
        requires
            old(self).wf(),
        ensures
            final(self).wf(),
            Self::added(*final(self), *old(self), name@, col, r),
    {
        let ghost old_self = *self;
        let ghost n = name@;
        let col_len = col.len();
        match self.validate_len(name.as_str(), col_len) {
            Err(e) => {
                assert(self.cols() == old_self.cols());
                assert(self.schema_map() == old_self.schema_map());
                assert(self.row_count == old_self.row_count);
                return Err(e);
            },
            Ok(()) => {},
        }
        match schema_get(&self.schema, name.as_str()) {
            Some(index) => {
                assert(old_self.has_column(n));
                assert(old_self.cols().len() == self.columns@.len());
                self.columns.set(index, Arc::new(col));
                proof {
                    assert(self.cols() =~= old_self.cols().update(index as int, col));
                    assert(old_self.cols().len() > 0);
                    assert(self.schema_map() == old_self.schema_map());
                    assert forall|m: Seq<char>| #[trigger] self.has_column(m) implies (self.schema_map()[m] as int) < self.cols().len() by {
                        assert(old_self.has_column(m));
                    }
                    assert forall|a: Seq<char>, b: Seq<char>|
                        #[trigger] self.has_column(a) && #[trigger] self.has_column(b) && a != b implies self.schema_map()[a]
                            != self.schema_map()[b] by {
                        assert(old_self.has_column(a));
                        assert(old_self.has_column(b));
                    }
                    assert forall|i: int| 0 <= i < self.cols().len() implies #[trigger] self.cols()[i].spec_len() == self.spec_height() by {
                        if i != index as int {
                            assert(old_self.cols()[i].spec_len() == old_self.spec_height());
                        }
                    }
                    assert forall|i: int| 0 <= i < self.cols().len() implies #[trigger] self.position_named(i) by {
                        assert(old_self.cols().len() == self.cols().len());
                        assert(old_self.position_named(i));
                        let m = choose|m: Seq<char>| #[trigger] old_self.has_column(m) && old_self.schema_map()[m] == i;
                        assert(self.has_column(m) && self.schema_map()[m] == i);
                    }
                }
            },
            None => {
                let index = self.columns.len();
                self.columns.push(Arc::new(col));
                schema_insert(&mut self.schema, name, index);
                proof {
                    assert(self.cols() =~= old_self.cols().push(col));
                    assert(!old_self.has_column(n));
                    assert(self.schema_map() == old_self.schema_map().insert(n, index));
                    assert forall|m: Seq<char>| #[trigger] self.has_column(m) implies (self.schema_map()[m] as int) < self.cols().len() by {
                        if m != n {
                            assert(old_self.has_column(m));
                        }
                    }
                    assert forall|a: Seq<char>, b: Seq<char>|
                        #[trigger] self.has_column(a) && #[trigger] self.has_column(b) && a != b implies self.schema_map()[a]
                            != self.schema_map()[b] by {
                        if a != n {
                            assert(old_self.has_column(a));
                        }
                        if b != n {
                            assert(old_self.has_column(b));
                        }
                    }
                    assert forall|i: int| 0 <= i < self.cols().len() implies #[trigger] self.cols()[i].spec_len() == self.spec_height() by {
                        if i < old_self.cols().len() {
                            assert(old_self.cols()[i].spec_len() == old_self.spec_height());
                        }
                    }
                    assert forall|i: int| 0 <= i < self.cols().len() implies #[trigger] self.position_named(i) by {
                        if i < old_self.cols().len() {
                            assert(old_self.position_named(i));
                            let m = choose|m: Seq<char>| #[trigger] old_self.has_column(m) && old_self.schema_map()[m] == i;
                            assert(m != n);
                            assert(self.has_column(m) && self.schema_map()[m] == i);
                        } else {
                            assert(self.has_column(n) && self.schema_map()[n] == i);
                        }
                    }
                }
            },
        }
        Ok(())
    }

    /// Adds a column under `name`; an existing column of that name is
    /// replaced. Fails, leaving the dataset unchanged, when the dataset
    /// already has columns and the new one has a different number of rows.
    pub fn add_column(&mut self, name: &str, data: ColumnVector) -> (r: Result<(), ChartonError>)
        requires
            old(self).wf(),
        ensures
            final(self).wf(),
            Self::added(*final(self), *old(self), name@, data, r),
    {
        self.insert_column(String::from_str(name), data)
    }

    /// Adds a column and returns the dataset (builder style); fails as
    /// `add_column` does.
    pub fn with_column(self, name: &str, data: ColumnVector) -> (r: Result<Self, ChartonError>)
        requires
            self.wf(),
        ensures
            r matches Ok(d) ==> d.wf() && Self::added(d, self, name@, data, Ok(())),
            r is Err <==> (self.spec_width() > 0 && data.spec_len() != self.spec_height()),
            r matches Err(e) ==> e.message() == inconsistent_length_text(
                name@,
                self.spec_height() as int,
                data.spec_len() as int,
            ),
    {
        let mut ds = self;
        let res = ds.add_column(name, data);
        match res {
            Ok(()) => Ok(ds),
            Err(e) => Err(e),
        }
    }

    /// Returns the number of rows.
    pub fn height(&self) -> (r: usize)
        ensures
            r == self.spec_height(),
    {
        self.row_count
    }

    /// Returns the number of columns.
    pub fn width(&self) -> (r: usize)
        ensures
            r == self.spec_width(),
    {
        self.columns.len()
    }

    /// Returns every column name once, in an unspecified order.
    pub fn get_column_names(&self) -> (r: Vec<String>)
        ensures
            forall|i: int, j: int| 0 <= i < j < r@.len() ==> r@[i]@ != r@[j]@,
            forall|i: int| 0 <= i < r@.len() ==> self.has_column(#[trigger] r@[i]@),
            forall|n: Seq<char>| self.has_column(n) ==> exists|i: int| 0 <= i < r@.len() && #[trigger] r@[i]@ == n,
    {
        schema_names(&self.schema)
    }

    /// Returns the column stored under `name`.
    pub fn column(&self, name: &str) -> (r: Result<&ColumnVector, ChartonError>)
        requires
            self.wf(),
        ensures
            self.has_column(name@) ==> (r matches Ok(c) && *c == self.col(name@)),
            !self.has_column(name@) ==> (r matches Err(e) && e.message() == column_not_found_text(name@)),
    {
        match schema_get(&self.schema, name) {
            Some(index) => {
                assert(self.has_column(name@));
                assert(self.cols().len() == self.columns@.len());
                let c: &Arc<ColumnVector> = &self.columns[index];
                Ok(&**c)
            },
            None => Err(column_not_found(name)),
        }
    }

    /// Returns the stored values of the column `name` as a slice of `T`.
    pub fn get_column<T: FromColumnVector>(&self, name: &str) -> (r: Result<&[T], ChartonError>)
        requires
            self.wf(),
        ensures
            !self.has_column(name@) ==> (r matches Err(e) && e.message() == column_missing_text(name@)),
            self.has_column(name@) ==> match T::column_data(self.col(name@)) {
                Some(s) => r matches Ok(x) && x@ == s,
                None => r matches Err(e) && e.message() == type_mismatch_text(name@),
            },
    {
        match schema_get(&self.schema, name) {
            Some(index) => {
                assert(self.has_column(name@));
                assert(self.cols().len() == self.columns@.len());
                let c: &Arc<ColumnVector> = &self.columns[index];
                match T::try_from_col(&**c) {
                    Some(s) => Ok(s),
                    None => Err(type_mismatch(name)),
                }
            },
            None => Err(column_missing(name)),
        }
    }

    /// Returns the value at (`name`, `row`) as a string (see
    /// `ColumnVector::get_str`), or `None` when the column does not exist.
    pub fn get_str<F: Fn(FloatBits) -> String>(&self, name: &str, row: usize, float_text: &F) -> (r: Option<String>)
        requires
            self.wf(),
            forall|b: FloatBits| #[trigger] float_text.requires((b,)),
        ensures
            !self.has_column(name@) ==> r is None,
            self.has_column(name@) ==> self.col(name@).str_result(row as int, *float_text, r),
    {
        match self.column(name) {
            Ok(col) => col.get_str(row, float_text),
            Err(_) => None,
        }
    }

    /// String retrieval with a fallback for missing columns and null values.
    pub fn get_str_or<F: Fn(FloatBits) -> String>(&self, name: &str, row: usize, default: &str, float_text: &F) -> (r: String)
        requires
            self.wf(),
            forall|b: FloatBits| #[trigger] float_text.requires((b,)),
        ensures
            !self.has_column(name@) ==> r@ == default@,
            self.has_column(name@) ==> exists|o: Option<String>| self.col(name@).str_result(row as int, *float_text, o)
                && r@ == (match o {
                Some(s) => s@,
                None => default@,
            }),
    {
        match self.get_str(name, row, float_text) {
            Some(s) => s,
            None => String::from_str(default),
        }
    }

    /// Whether the value at (`name`, `row`) is null: the column is missing,
    /// the row is marked invalid, or it holds NaN in a float column.
    pub fn is_null(&self, name: &str, row: usize) -> (r: bool)
        requires
            self.wf(),
        ensures
            r == (!self.has_column(name@) || null_at(self.col(name@), row as int)),
            self.has_column(name@) && row < self.spec_height() ==> r == !self.col(name@).has_value(row as int),
    {
        proof {
            if self.has_column(name@) && row < self.spec_height() {
                assert((self.schema_map()[name@] as int) < self.cols().len());
                crate::laws::law_null_is_no_value(self.col(name@), row as int);
            }
        }
        match self.column(name) {
            Ok(col) => is_null_in(col, row),
            Err(_) => true,
        }
    }
}

impl Clone for Dataset {
    fn clone(&self) -> (r: Self)
        ensures
            r.schema_map() == self.schema_map(),
            r.cols() == self.cols(),
            r.spec_height() == self.spec_height(),
    {
        let mut columns: Vec<Arc<ColumnVector>> = Vec::new();
        let mut i: usize = 0;
        while i < self.columns.len()
            invariant
                i <= self.columns@.len(),
                columns@.len() == i,
                forall|k: int| 0 <= k < i ==> *#[trigger] columns@[k] == *self.columns@[k],
            decreases self.columns@.len() - i,
        {
            columns.push(share_column(&self.columns[i]));
            i = i + 1;
        }
        let r = Dataset { schema: schema_copy(&self.schema), columns, row_count: self.row_count };
        assert(r.cols() =~= self.cols());
        r
    }
}

impl Default for Dataset {
    fn default() -> (r: Self)
        ensures
            r.wf(),
            r.schema_map() == Map::<Seq<char>, usize>::empty(),
            r.cols() == Seq::<ColumnVector>::empty(),
            r.spec_height() == 0,
    {
        Dataset::new()
    }
}

impl Dataset {
    /// Every column can be sliced at `offset..offset + len` (always true when nothing is taken).
    pub open spec fn can_slice(&self, offset: int, len: int) -> bool {
        len == 0 || forall|i: int| 0 <= i < self.cols().len() ==> #[trigger] self.cols()[i].can_slice(offset, len)
    }

    /// Returns a new dataset with rows `offset..offset + len` of every column,
    /// under the same names and positions. An empty range gives an empty dataset.
    pub fn slice(&self, offset: usize, len: usize) -> (r: Self)
        requires
            self.wf(),
            self.can_slice(offset as int, len as int),
        ensures
            r.wf(),
            len == 0 ==> r.schema_map() == Map::<Seq<char>, usize>::empty() && r.cols() == Seq::<ColumnVector>::empty()
                && r.spec_height() == 0,
            len > 0 ==> r.schema_map() == self.schema_map() && r.cols().len() == self.cols().len() && r.spec_height()
                == len,
            len > 0 ==> forall|i: int| 0 <= i < self.cols().len() ==> #[trigger] r.cols()[i].is_take_of(
                &self.cols()[i],
                ColumnVector::range_indices(offset as int, len as int),
            ),
            len > 0 ==> forall|n: Seq<char>| #[trigger] self.has_column(n) ==> r.has_column(n) && r.col(n).is_take_of(
                &self.col(n),
                ColumnVector::range_indices(offset as int, len as int),
            ),
    {
        if len == 0 {
            return Self::new();
        }
        let mut new_columns: Vec<Arc<ColumnVector>> = Vec::new();
        let mut i: usize = 0;
        while i < self.columns.len()
            invariant
                i <= self.columns@.len(),
                self.cols().len() == self.columns@.len(),
                len > 0,
                self.can_slice(offset as int, len as int),
                new_columns@.len() == i,
                forall|k: int| 0 <= k < i ==> (*#[trigger] new_columns@[k]).is_take_of(
                    &self.cols()[k],
                    ColumnVector::range_indices(offset as int, len as int),
                ),
            decreases self.columns@.len() - i,
        {
            let c: &Arc<ColumnVector> = &self.columns[i];
            assert(self.cols()[i as int].can_slice(offset as int, len as int));
            new_columns.push(Arc::new((&**c).slice(offset, len)));
            i = i + 1;
        }
        let r = Dataset { schema: schema_copy(&self.schema), columns: new_columns, row_count: len };
        proof {
            assert(r.schema_map() == self.schema_map());
            assert forall|m: Seq<char>| #[trigger] r.has_column(m) implies (r.schema_map()[m] as int) < r.cols().len() by {
                assert(self.has_column(m));
            }
            assert forall|a: Seq<char>, b: Seq<char>|
                #[trigger] r.has_column(a) && #[trigger] r.has_column(b) && a != b implies r.schema_map()[a]
                    != r.schema_map()[b] by {
                assert(self.has_column(a));
                assert(self.has_column(b));
            }
            assert(r.cols().len() == self.cols().len());
            assert forall|k: int| 0 <= k < self.cols().len() implies #[trigger] r.cols()[k].is_take_of(
                &self.cols()[k],
                ColumnVector::range_indices(offset as int, len as int),
            ) by {
                assert(r.cols()[k] == *new_columns@[k]);
            }
            assert forall|k: int| 0 <= k < r.cols().len() implies #[trigger] r.cols()[k].spec_len() == r.spec_height() by {
                assert(r.cols()[k].is_take_of(&self.cols()[k], ColumnVector::range_indices(offset as int, len as int)));
            }
            assert forall|k: int| 0 <= k < r.cols().len() implies #[trigger] r.position_named(k) by {
                assert(self.position_named(k));
                let m = choose|m: Seq<char>| #[trigger] self.has_column(m) && self.schema_map()[m] == k;
                assert(r.has_column(m) && r.schema_map()[m] == k);
            }
            assert forall|n: Seq<char>| #[trigger] self.has_column(n) implies r.has_column(n) && r.col(n).is_take_of(
                &self.col(n),
                ColumnVector::range_indices(offset as int, len as int),
            ) by {
                assert((self.schema_map()[n] as int) < self.cols().len());
            }
        }
        r
    }

    /// Returns a new dataset with the first `n` rows (all rows if there are fewer).
    pub fn head(&self, n: usize) -> (r: Self)
        requires
            self.wf(),
            self.can_slice(0, if n < self.spec_height() { n as int } else { self.spec_height() as int }),
        ensures
            r.wf(),
            ({
                let k = if n < self.spec_height() { n as int } else { self.spec_height() as int };
                &&& k == 0 ==> r.schema_map() == Map::<Seq<char>, usize>::empty() && r.cols() == Seq::<ColumnVector>::empty()
                    && r.spec_height() == 0
                &&& k > 0 ==> r.schema_map() == self.schema_map() && r.cols().len() == self.cols().len()
                    && r.spec_height() == k
                &&& k > 0 ==> forall|i: int| 0 <= i < self.cols().len() ==> #[trigger] r.cols()[i].is_take_of(
                    &self.cols()[i],
                    ColumnVector::range_indices(0, k),
                )
            }),
    {
        let actual_n = if n < self.row_count { n } else { self.row_count };
        self.slice(0, actual_n)
    }

    /// Returns a new dataset with the last `n` rows (all rows if there are fewer).
    pub fn tail(&self, n: usize) -> (r: Self)
        requires
            self.wf(),
            ({
                let k = if n < self.spec_height() { n as int } else { self.spec_height() as int };
                self.can_slice(self.spec_height() - k, k)
            }),
        ensures
            r.wf(),
            ({
                let k = if n < self.spec_height() { n as int } else { self.spec_height() as int };
                &&& k == 0 ==> r.schema_map() == Map::<Seq<char>, usize>::empty() && r.cols() == Seq::<ColumnVector>::empty()
                    && r.spec_height() == 0
                &&& k > 0 ==> r.schema_map() == self.schema_map() && r.cols().len() == self.cols().len()
                    && r.spec_height() == k
                &&& k > 0 ==> forall|i: int| 0 <= i < self.cols().len() ==> #[trigger] r.cols()[i].is_take_of(
                    &self.cols()[i],
                    ColumnVector::range_indices(self.spec_height() - k, k),
                )
            }),
    {
        let actual_n = if n < self.row_count { n } else { self.row_count };
        let offset = self.row_count - actual_n;
        self.slice(offset, actual_n)
    }

    /// Returns a new dataset whose row `j` is row `indices[j]` of this one,
    /// for every column (indices may repeat or reorder rows). Fails, naming the
    /// first offending index, when an index is not below the height.
    pub fn take_rows(&self, indices: &[usize]) -> (r: Result<Self, ChartonError>)
        requires
            self.wf(),
        ensures
            (exists|j: int| 0 <= j < indices@.len() && indices@[j] >= self.spec_height()) ==> (r matches Err(e) && ({
                let j = choose|j: int| 0 <= j < indices@.len() && indices@[j] >= self.spec_height()
                    && forall|k: int| 0 <= k < j ==> #[trigger] indices@[k] < self.spec_height();
                e.message() == index_out_of_bounds_text(indices@[j] as int, self.spec_height() as int)
            })),
            (forall|j: int| 0 <= j < indices@.len() ==> indices@[j] < self.spec_height()) ==> (r matches Ok(d) && {
                &&& d.wf()
                &&& d.schema_map().dom() == self.schema_map().dom()
                &&& d.cols().len() == self.cols().len()
                &&& d.spec_height() == (if self.cols().len() == 0 { 0 } else { indices@.len() })
                &&& forall|n: Seq<char>| #[trigger] self.has_column(n) ==> d.col(n).is_take_of(&self.col(n), indices@)
            }),
    {
        let h = self.row_count;
        let mut j: usize = 0;
        while j < indices.len()
            invariant
                j <= indices@.len(),
                h == self.spec_height(),
                forall|k: int| 0 <= k < j ==> #[trigger] indices@[k] < h,
            decreases indices@.len() - j,
        {
            if indices[j] >= h {
                proof {
                    let jj = choose|jj: int| 0 <= jj < indices@.len() && indices@[jj] >= self.spec_height()
                        && forall|k: int| 0 <= k < jj ==> #[trigger] indices@[k] < self.spec_height();
                    if jj < j {
                        assert(indices@[jj] < h);
                    } else if jj > j {
                        assert(indices@[j as int] < self.spec_height());
                    }
                }
                return Err(index_out_of_bounds(indices[j], h));
            }
            j = j + 1;
        }
        let names = schema_names(&self.schema);
        let mut new_ds = Dataset::new();
        let mut k: usize = 0;
        while k < names.len()
            invariant
                self.wf(),
                k <= names@.len(),
                forall|q: int| 0 <= q < indices@.len() ==> indices@[q] < self.spec_height(),
                forall|a: int, b: int| 0 <= a < b < names@.len() ==> names@[a]@ != names@[b]@,
                forall|a: int| 0 <= a < names@.len() ==> self.has_column(#[trigger] names@[a]@),
                forall|m: Seq<char>| self.has_column(m) ==> exists|a: int| 0 <= a < names@.len() && #[trigger] names@[a]@ == m,
                names@.len() == self.schema_map().dom().len(),
                new_ds.wf(),
                new_ds.cols().len() == k,
                k > 0 ==> new_ds.spec_height() == indices@.len(),
                k == 0 ==> new_ds.spec_height() == 0,
                forall|m: Seq<char>| new_ds.has_column(m) <==> exists|a: int| 0 <= a < k && #[trigger] names@[a]@ == m,
                forall|a: int| 0 <= a < k ==> new_ds.col(#[trigger] names@[a]@).is_take_of(&self.col(names@[a]@), indices@),
            decreases names@.len() - k,
        {
            let name = &names[k];
            assert(self.has_column(name@));
            let old_col = self.column(name.as_str());
            let old_col = match old_col {
                Ok(c) => c,
                Err(_) => { return Err(column_not_found(name.as_str())); },
            };
            assert forall|q: int| 0 <= q < indices@.len() implies indices@[q] < old_col.spec_len() by {
                assert(self.cols()[self.schema_map()[name@] as int].spec_len() == self.spec_height());
            }
            let new_col = old_col.take(indices);
            let ghost before = new_ds;
            let res = new_ds.insert_column(name.clone(), new_col);
            proof {
                assert(!before.has_column(name@)) by {
                    if before.has_column(name@) {
                        let a = choose|a: int| 0 <= a < k && #[trigger] names@[a]@ == name@;
                        assert(names@[a]@ != names@[k as int]@);
                    }
                }
                assert forall|m: Seq<char>| new_ds.has_column(m) implies exists|a: int| 0 <= a < k + 1 && #[trigger] names@[a]@ == m by {
                    if m == name@ {
                        assert(names@[k as int]@ == m);
                    } else {
                        assert(before.has_column(m));
                        let a = choose|a: int| 0 <= a < k && #[trigger] names@[a]@ == m;
                        assert(names@[a]@ == m);
                    }
                }
                assert forall|m: Seq<char>| (exists|a: int| 0 <= a < k + 1 && #[trigger] names@[a]@ == m) implies new_ds.has_column(m) by {
                    let a = choose|a: int| 0 <= a < k + 1 && #[trigger] names@[a]@ == m;
                    if a < k {
                        assert(exists|a2: int| 0 <= a2 < k && #[trigger] names@[a2]@ == m);
                        assert(before.has_column(m));
                    }
                }
                assert forall|a: int| 0 <= a < k + 1 implies new_ds.col(#[trigger] names@[a]@).is_take_of(&self.col(names@[a]@), indices@) by {
                    if a < k {
                        assert(before.has_column(names@[a]@));
                        assert(names@[a]@ != names@[k as int]@);
                        assert(before.schema_map()[names@[a]@] < before.cols().len());
                    }
                }
            }
            k = k + 1;
        }
        proof {
            assert(new_ds.cols().len() == names@.len());
            assert(self.schema_map().dom().len() == self.cols().len()) by {
                self.lemma_width_is_name_count();
            }
            assert forall|m: Seq<char>| new_ds.has_column(m) implies self.has_column(m) by {
                let a = choose|a: int| 0 <= a < names@.len() && #[trigger] names@[a]@ == m;
                assert(self.has_column(names@[a]@));
            }
            assert forall|m: Seq<char>| self.has_column(m) implies new_ds.has_column(m) by {
                let a = choose|a: int| 0 <= a < names@.len() && #[trigger] names@[a]@ == m;
                assert(exists|a2: int| 0 <= a2 < k && #[trigger] names@[a2]@ == m);
            }
            assert forall|m: Seq<char>| new_ds.schema_map().dom().contains(m) == self.schema_map().dom().contains(m) by {
                assert(new_ds.has_column(m) == self.has_column(m));
            }
            assert(new_ds.schema_map().dom() =~= self.schema_map().dom());
            assert forall|m: Seq<char>| #[trigger] self.has_column(m) implies new_ds.col(m).is_take_of(&self.col(m), indices@) by {
                let a = choose|a: int| 0 <= a < names@.len() && #[trigger] names@[a]@ == m;
            }
        }
        Ok(new_ds)
    }

    /// The number of columns fits in a `usize`.
    pub proof fn lemma_width_bound(&self)
        ensures
            self.cols().len() <= usize::MAX,
    {
        assert(self.cols().len() == self.columns@.len());
        assert(self.columns@.len() == self.columns.len());
    }

    /// The number of names equals the number of columns.
    pub proof fn lemma_width_is_name_count(&self)
        requires
            self.wf(),
        ensures
            self.schema_map().dom().len() == self.cols().len(),
    {
        let dom = self.schema_map().dom();
        let f = |n: Seq<char>| self.schema_map()[n] as int;
        let range = vstd::set_lib::set_int_range(0, self.cols().len() as int);
        assert(dom.map(f) =~= range) by {
            assert forall|i: int| dom.map(f).contains(i) implies range.contains(i) by {
                let m = choose|m: Seq<char>| dom.contains(m) && f(m) == i;
                assert(self.has_column(m));
            }
            assert forall|i: int| range.contains(i) implies dom.map(f).contains(i) by {
                assert(self.position_named(i));
                let m = choose|m: Seq<char>| #[trigger] self.has_column(m) && self.schema_map()[m] == i;
                assert(dom.contains(m) && f(m) == i);
            }
        }
        assert(vstd::relations::injective_on(f, dom)) by {
            assert forall|a: Seq<char>, b: Seq<char>| dom.contains(a) && dom.contains(b) && #[trigger] f(a) == #[trigger] f(b) implies a == b by {
                if a != b {
                    assert(self.has_column(a) && self.has_column(b));
                }
            }
        }
        vstd::set_lib::lemma_map_size(dom, range, f);
        vstd::set_lib::lemma_int_range(0, self.cols().len() as int);
    }
}

impl Dataset {
    /// Partitions the rows by the string value (see `ColumnVector::get_str`)
    /// of column `col_name`: groups come in order of first appearance and list
    /// their rows in increasing order. Without a column name, or when the
    /// column does not exist, every row goes into one group with no key.
    pub fn group_by<F: Fn(FloatBits) -> String>(&self, col_name: Option<&str>, float_text: &F) -> (r: GroupedIndices)
        requires
            self.wf(),
            forall|b: FloatBits| #[trigger] float_text.requires((b,)),
        ensures
            (col_name matches Some(n) && self.has_column(n@)) ==> exists|keys: Seq<Option<String>>| {
                &&& keys.len() == self.spec_height()
                &&& forall|i: int| 0 <= i < keys.len() ==> self.col(col_name.unwrap()@).str_result(i, *float_text, #[trigger] keys[i])
                &&& r.groups@.map_values(|g: (Option<String>, Vec<usize>)| group_view(g)) == grouping(
                    keys.map_values(|k: Option<String>| opt_text(k)),
                )
            },
            !(col_name matches Some(n) && self.has_column(n@)) ==> {
                &&& r.groups@.len() == 1
                &&& r.groups@[0].0 is None
                &&& r.groups@[0].1@ == Seq::new(self.spec_height(), |i: int| i as usize)
            },
    {
        let vector = match col_name {
            Some(name) => match self.column(name) {
                Ok(v) => Some(v),
                Err(_) => None,
            },
            None => None,
        };
        match vector {
            None => {
                let mut all: Vec<usize> = Vec::new();
                let mut i: usize = 0;
                while i < self.row_count
                    invariant
                        i <= self.row_count,
                        all@ == Seq::new(i as nat, |k: int| k as usize),
                    decreases self.row_count - i,
                {
                    all.push(i);
                    i = i + 1;
                    assert(all@ =~= Seq::new(i as nat, |k: int| k as usize));
                }
                let mut groups: Vec<(Option<String>, Vec<usize>)> = Vec::new();
                groups.push((None, all));
                GroupedIndices { groups }
            },
            Some(col) => {
                let mut keys: Vec<Option<String>> = Vec::new();
                let mut i: usize = 0;
                while i < self.row_count
                    invariant
                        i <= self.row_count,
                        keys@.len() == i,
                        forall|b: FloatBits| #[trigger] float_text.requires((b,)),
                        forall|k: int| 0 <= k < i ==> col.str_result(k, *float_text, #[trigger] keys@[k]),
                    decreases self.row_count - i,
                {
                    keys.push(col.get_str(i, float_text));
                    i = i + 1;
                }
                let ghost kv = keys@;
                let r = GroupedIndices::from_keys(keys);
                proof {
                    assert(self.spec_height() == kv.len());
                }
                r
            },
        }
    }
}

/// Whether row `i` survives in a combined mask: the column's mask, where it
/// reaches, marks the row valid, and the row is not a NaN float.
pub open spec fn combined_bit(col: ColumnVector, i: int) -> bool {
    &&& match col.mask() {
        None => true,
        Some(v) => i / 8 >= v@.len() || mask_bit(v@, i),
    }
    &&& !(0 <= i < col.spec_len() && col.nan_at(i))
}

/// ANDs the validity of `col` (mask and NaN rows) into `m`.
fn combine_into(m: &mut Vec<u8>, col: &ColumnVector)
    requires
        8 * old(m)@.len() >= col.spec_len(),
        col.mask() matches Some(v) ==> v@.len() <= old(m)@.len(),
    ensures
        final(m)@.len() == old(m)@.len(),
        forall|i: int| #[trigger] mask_bit(final(m)@, i) <==> (mask_bit(old(m)@, i) && combined_bit(*col, i)),
{
    let ghost m0 = m@;
    match col.validity_ref() {
        Some(v) => and_mask(m, v),
        None => {},
    }
    let ghost m1 = m@;
    match col {
        ColumnVector::Float64 { data, .. } => {
            let mut i: usize = 0;
            while i < data.len()
                invariant
                    i <= data@.len(),
                    8 * m0.len() >= data@.len(),
                    m@.len() == m0.len(),
                    forall|k: int| #[trigger] mask_bit(m@, k) <==> (mask_bit(m1, k) && !(0 <= k < i && crate::column::f64_bits_nan(data@[k]))),
                decreases data@.len() - i,
            {
                if crate::column::is_nan_f64_bits(data[i]) {
                    clear_mask_bit(m, i);
                }
                i = i + 1;
            }
        },
        ColumnVector::Float32 { data, .. } => {
            let mut i: usize = 0;
            while i < data.len()
                invariant
                    i <= data@.len(),
                    8 * m0.len() >= data@.len(),
                    m@.len() == m0.len(),
                    forall|k: int| #[trigger] mask_bit(m@, k) <==> (mask_bit(m1, k) && !(0 <= k < i && crate::column::f32_bits_nan(data@[k]))),
                decreases data@.len() - i,
            {
                if crate::column::is_nan_f32_bits(data[i]) {
                    clear_mask_bit(m, i);
                }
                i = i + 1;
            }
        },
        _ => {},
    }
}

impl Dataset {
    /// The first `k` names all exist.
    pub open spec fn all_present(&self, names: Seq<&str>, k: int) -> bool {
        forall|j: int| 0 <= j < k ==> self.has_column(#[trigger] names[j]@)
    }

    /// Builds a bitmask of the rows that are valid in every listed column
    /// (validity bit set and, for floats, not NaN). Bits past the last row are
    /// zero. Fails on the first name that is not a column, except that an empty
    /// dataset always yields an empty mask.
    pub fn get_combined_mask(&self, column_names: &[&str]) -> (r: Result<Vec<u8>, ChartonError>)
        requires
            self.wf(),
            forall|k: int| 0 <= k < column_names@.len() && self.all_present(column_names@, k + 1) ==> (match self.col(
                #[trigger] column_names@[k]@,
            ).mask() {
                Some(v) => v@.len() <= bytes_for(self.spec_height() as int),
                None => true,
            }),
        ensures
            self.spec_height() == 0 ==> (r matches Ok(m) && m@.len() == 0),
            self.spec_height() > 0 && !self.all_present(column_names@, column_names@.len() as int) ==> (r matches Err(e)
                && ({
                let k = choose|k: int| 0 <= k < column_names@.len() && self.all_present(column_names@, k)
                    && !self.has_column(column_names@[k]@);
                e.message() == column_not_found_text(column_names@[k]@)
            })),
            self.spec_height() > 0 && self.all_present(column_names@, column_names@.len() as int) ==> (r matches Ok(m) && {
                &&& m@.len() == bytes_for(self.spec_height() as int)
                &&& forall|i: int| #[trigger] mask_bit(m@, i) <==> (0 <= i < self.spec_height() && forall|k: int| 0 <= k
                    < column_names@.len() ==> combined_bit(self.col(#[trigger] column_names@[k]@), i))
                &&& forall|i: int, k: int| #[trigger] mask_bit(m@, i) && 0 <= k < column_names@.len() ==> !self.col(
                    #[trigger] column_names@[k]@,
                ).nan_at(i)
                &&& forall|i: int, k: int| #[trigger] mask_bit(m@, i) && 0 <= k < column_names@.len() && crate::laws::mask_covers(
                    self.col(#[trigger] column_names@[k]@),
                ) ==> self.col(column_names@[k]@).has_value(i)
            }),
    {
        let h = self.row_count;
        if h == 0 {
            return Ok(Vec::new());
        }
        let byte_count = h / 8 + if h % 8 == 0 { 0 } else { 1 };
        let mut final_mask = full_mask(byte_count);
        let mut k: usize = 0;
        while k < column_names.len()
            invariant
                self.wf(),
                h == self.spec_height(),
                h > 0,
                byte_count == bytes_for(h as int),
                k <= column_names@.len(),
                final_mask@.len() == byte_count,
                self.all_present(column_names@, k as int),
                forall|q: int| 0 <= q < column_names@.len() && self.all_present(column_names@, q + 1) ==> (match self.col(
                    #[trigger] column_names@[q]@,
                ).mask() {
                    Some(v) => v@.len() <= bytes_for(self.spec_height() as int),
                    None => true,
                }),
                forall|i: int| #[trigger] mask_bit(final_mask@, i) <==> (0 <= i < 8 * byte_count && forall|q: int| 0 <= q
                    < k ==> combined_bit(self.col(#[trigger] column_names@[q]@), i)),
            decreases column_names@.len() - k,
        {
            let name = column_names[k];
            let col = match self.column(name) {
                Ok(c) => c,
                Err(e) => {
                    proof {
                        let kk = choose|kk: int| 0 <= kk < column_names@.len() && self.all_present(column_names@, kk)
                            && !self.has_column(column_names@[kk]@);
                        if kk < k {
                            assert(self.has_column(column_names@[kk]@));
                        } else if kk > k {
                            assert(self.has_column(column_names@[k as int]@));
                        }
                    }
                    return Err(e);
                },
            };
            proof {
                assert(self.all_present(column_names@, k + 1));
                assert(self.col(column_names@[k as int]@).spec_len() == h) by {
                    assert(self.has_column(name@));
                    assert(self.cols()[self.schema_map()[name@] as int].spec_len() == self.spec_height());
                }
            }
            let ghost before = final_mask@;
            combine_into(&mut final_mask, col);
            proof {
                assert forall|i: int| #[trigger] mask_bit(final_mask@, i) <==> (0 <= i < 8 * byte_count && forall|q: int| 0 <= q
                    < k + 1 ==> combined_bit(self.col(#[trigger] column_names@[q]@), i)) by {
                    if mask_bit(final_mask@, i) {
                        assert forall|q: int| 0 <= q < k + 1 implies combined_bit(self.col(#[trigger] column_names@[q]@), i) by {
                            if q < k {
                                assert(mask_bit(before, i));
                            }
                        }
                    }
                    if 0 <= i < 8 * byte_count && forall|q: int| 0 <= q < k + 1 ==> combined_bit(self.col(#[trigger] column_names@[q]@), i) {
                        assert(combined_bit(self.col(column_names@[k as int]@), i));
                        assert(mask_bit(before, i));
                    }
                }
            }
            k = k + 1;
        }
        keep_first_bits(&mut final_mask, h);
        proof {
            assert forall|i: int, q: int| #[trigger] mask_bit(final_mask@, i) && 0 <= q < column_names@.len() implies !self.col(
                #[trigger] column_names@[q]@,
            ).nan_at(i) && (crate::laws::mask_covers(self.col(column_names@[q]@)) ==> self.col(column_names@[q]@).has_value(i)) by {
                let c = self.col(column_names@[q]@);
                assert(self.all_present(column_names@, q + 1));
                assert(self.has_column(column_names@[q]@));
                assert((self.schema_map()[column_names@[q]@] as int) < self.cols().len());
                assert(c.spec_len() == self.spec_height());
                assert(0 <= i < self.spec_height());
                assert(combined_bit(c, i));
                crate::laws::law_combined_bit_is_value(c, i);
            }
        }
        Ok(final_mask)
    }
}

/// A window of rows of a dataset, used for display.
pub struct DatasetView<'a> {
    pub(crate) ds: &'a Dataset,
    pub(crate) offset: usize,
    pub(crate) len: usize,
}

impl<'a> DatasetView<'a> {
    /// The dataset viewed.
    pub closed spec fn spec_dataset(&self) -> Dataset {
        *self.ds
    }

    /// The first row of the window.
    pub closed spec fn spec_offset(&self) -> nat {
        self.offset as nat
    }

    /// The number of rows in the window.
    pub closed spec fn spec_len(&self) -> nat {
        self.len as nat
    }
}

impl Dataset {
    /// Returns a window of `len` rows starting at `offset`, clamped to the
    /// rows that exist (empty when `offset` is past the end).
    pub fn view(&self, offset: usize, len: usize) -> (r: DatasetView<'_>)
        ensures
            r.spec_dataset() == *self,
            r.spec_offset() == offset,
            r.spec_len() == (if offset >= self.spec_height() {
                0
            } else if len < self.spec_height() - offset {
                len as int
            } else {
                self.spec_height() - offset
            }),
    {
        let safe_len = if offset >= self.row_count {
            0
        } else if len < self.row_count - offset {
            len
        } else {
            self.row_count - offset
        };
        DatasetView { ds: self, offset, len: safe_len }
    }
}

/// A cursor on one row of a dataset, for reading fields by name.
#[derive(Copy, Clone)]
pub struct RowAccessor<'a> {
    ds: &'a Dataset,
    current_row: usize,
}

impl<'a> RowAccessor<'a> {
    /// The dataset read.
    pub closed spec fn spec_dataset(&self) -> Dataset {
        *self.ds
    }

    /// The row read.
    pub closed spec fn spec_row(&self) -> nat {
        self.current_row as nat
    }

    /// Creates an accessor for row `row` of `ds`.
    pub fn new(ds: &'a Dataset, row: usize) -> (r: Self)
        ensures
            r.spec_dataset() == *ds,
            r.spec_row() == row,
    {
        RowAccessor { ds, current_row: row }
    }

    /// The string value of `field` at this row (`Dataset::get_str`).
    pub fn str<F: Fn(FloatBits) -> String>(&self, field: &str, float_text: &F) -> (r: Option<String>)
        requires
            self.spec_dataset().wf(),
            forall|b: FloatBits| #[trigger] float_text.requires((b,)),
        ensures
            !self.spec_dataset().has_column(field@) ==> r is None,
            self.spec_dataset().has_column(field@) ==> self.spec_dataset().col(field@).str_result(
                self.spec_row() as int,
                *float_text,
                r,
            ),
    {
        self.ds.get_str(field, self.current_row, float_text)
    }

    /// Returns the current row index.
    pub fn index(&self) -> (r: usize)
        ensures
            r == self.spec_row(),
    {
        self.current_row
    }

    /// The dataset this accessor reads.
    pub fn dataset(&self) -> (r: &'a Dataset)
        ensures
            *r == self.spec_dataset(),
    {
        self.ds
    }
}

impl Dataset {
    proof fn lemma_name_at(&self, n: Seq<char>)
        requires
            self.wf(),
            self.has_column(n),
        ensures
            self.name_at(self.schema_map()[n] as int) == n,
    {
        let i = self.schema_map()[n] as int;
        let m = self.name_at(i);
        assert(self.has_column(m) && self.schema_map()[m] == i);
    }

    /// The column names in position order.
    fn ordered_names(&self) -> (r: Vec<String>)
        requires
            self.wf(),
        ensures
            r@.len() == self.spec_width(),
            forall|i: int| 0 <= i < r@.len() ==> #[trigger] r@[i]@ == self.name_at(i),
    {
        let names = crate::hashing::schema_names(&self.schema);
        let w = self.columns.len();
        assert(self.cols().len() == w);
        let mut ordered: Vec<String> = Vec::new();
        let mut i: usize = 0;
        while i < w
            invariant
                i <= w,
                ordered@.len() == i,
            decreases w - i,
        {
            ordered.push(String::new());
            i = i + 1;
        }
        let mut k: usize = 0;
        while k < names.len()
            invariant
                self.wf(),
                w == self.spec_width(),
                k <= names@.len(),
                ordered@.len() == w,
                forall|a: int| 0 <= a < names@.len() ==> self.has_column(#[trigger] names@[a]@),
                forall|q: int| 0 <= q < w && (exists|a: int| 0 <= a < k && self.schema_map()[#[trigger] names@[a]@] == q)
                    ==> #[trigger] ordered@[q]@ == self.name_at(q),
            decreases names@.len() - k,
        {
            let name = &names[k];
            assert(self.has_column(name@));
            match crate::hashing::schema_get(&self.schema, name.as_str()) {
                Some(idx) => {
                    proof {
                        self.lemma_name_at(name@);
                    }
                    let ghost before = ordered@;
                    ordered.set(idx, name.clone());
                    proof {
                        assert forall|q: int| 0 <= q < w && (exists|a: int| 0 <= a < k + 1 && self.schema_map()[#[trigger] names@[a]@] == q)
                            implies #[trigger] ordered@[q]@ == self.name_at(q) by {
                            if q != idx as int {
                                let a = choose|a: int| 0 <= a < k + 1 && self.schema_map()[#[trigger] names@[a]@] == q;
                                assert(a != k);
                                assert(before[q]@ == self.name_at(q));
                            }
                        }
                    }
                },
                None => {},
            }
            k = k + 1;
        }
        proof {
            assert forall|q: int| 0 <= q < w implies #[trigger] ordered@[q]@ == self.name_at(q) by {
                assert(self.position_named(q));
                let n = choose|n: Seq<char>| #[trigger] self.has_column(n) && self.schema_map()[n] == q;
                let a = choose|a: int| 0 <= a < names@.len() && #[trigger] names@[a]@ == n;
                assert(self.schema_map()[names@[a]@] == q);
            }
        }
        ordered
    }

    fn title_line(offset: usize, len: usize, total: usize) -> (r: String)
        requires
            offset + len <= usize::MAX,
        ensures
            r@ == line(title_text(offset as int, len as int, total as int)),
    {
        let a = int_text(offset as i128);
        let b = int_text((offset + len) as i128);
        let c = int_text(total as i128);
        let mut r = String::from_str("Dataset View: rows ");
        r.append(a.as_str());
        r.append("..");
        r.append(b.as_str());
        r.append(" (Total ");
        r.append(c.as_str());
        r.append(" rows)");
        r.append("\n");
        r
    }

    /// Renders rows `offset..offset + len` as a table (see `table_text`),
    /// floats rendered by `float_text`.
    fn render_to_format<F: Fn(FloatBits) -> String>(&self, offset: usize, len: usize, float_text: &F) -> (r: String)
        requires
            self.wf(),
            len == 0 || offset + len <= self.spec_height(),
            offset + len <= usize::MAX,
            forall|b: FloatBits| #[trigger] float_text.requires((b,)),
        ensures
            exists|cells: Seq<Seq<Seq<char>>>| cells.len() == len && self.cells_ok(offset as int, cells, *float_text) && r@
                == self.table_text(offset as int, cells),
    {
        let w = self.columns.len();
        assert(self.cols().len() == w);
        let names = self.ordered_names();
        let mut header_parts: Vec<String> = Vec::new();
        let mut type_parts: Vec<String> = Vec::new();
        let mut c: usize = 0;
        while c < w
            invariant
                c <= w,
                w == self.spec_width(),
                names@.len() == w,
                forall|i: int| 0 <= i < w ==> #[trigger] names@[i]@ == self.name_at(i),
                header_parts@.len() == c,
                type_parts@.len() == c,
                forall|i: int| 0 <= i < c ==> #[trigger] header_parts@[i]@ == pad12(self.name_at(i)),
                forall|i: int| 0 <= i < c ==> #[trigger] type_parts@[i]@ == pad12("("@ + self.cols()[i].spec_dtype_name() + ")"@),
            decreases w - c,
        {
            header_parts.push(pad12_text(names[c].as_str()));
            let col: &Arc<ColumnVector> = &self.columns[c];
            let dtype = (&**col).dtype_name();
            let mut label = String::from_str("(");
            label.append(dtype);
            label.append(")");
            type_parts.push(pad12_text(label.as_str()));
            c = c + 1;
        }
        let header = join_bar_text(&header_parts);
        let types = join_bar_text(&type_parts);
        proof {
            assert(header_parts@.map_values(|s: String| s@) =~= Seq::new(self.spec_width(), |i: int| pad12(self.name_at(i))));
            assert(type_parts@.map_values(|s: String| s@) =~= Seq::new(
                self.spec_width(),
                |i: int| pad12("("@ + self.cols()[i].spec_dtype_name() + ")"@),
            ));
        }
        let rule = dash_line(header.as_str().len());
        proof {
            assert(header@ == self.header_text());
            assert(types@ == self.types_text());
            assert(rule@ == dashes((encode_utf8(self.header_text()).len() as usize) as nat));
        }
        let mut r = Self::title_line(offset, len, self.row_count);
        r.append(header.as_str());
        r.append("\n");
        r.append(types.as_str());
        r.append("\n");
        r.append(rule.as_str());
        r.append("\n");
        let ghost head = r@;
        proof {
            reveal_strlit("\n");
            assert(head =~= line(title_text(offset as int, len as int, self.spec_height() as int)) + line(self.header_text())
                + line(self.types_text()) + line(dashes((encode_utf8(self.header_text()).len() as usize) as nat)));
            assert(rows_text(Seq::<Seq<Seq<char>>>::empty()) == Seq::<char>::empty());
            assert(r@ =~= head + rows_text(Seq::<Seq<Seq<char>>>::empty()));
        }
        let ghost mut cells: Seq<Seq<Seq<char>>> = Seq::empty();
        let mut k: usize = 0;
        while k < len
            invariant
                self.wf(),
                k <= len,
                len == 0 || offset + len <= self.spec_height(),
                offset + len <= usize::MAX,
                w == self.spec_width(),
                forall|b: FloatBits| #[trigger] float_text.requires((b,)),
                cells.len() == k,
                self.cells_ok(offset as int, cells, *float_text),
                r@ == head + rows_text(cells),
            decreases len - k,
        {
            let row = offset + k;
            let mut parts: Vec<String> = Vec::new();
            let ghost mut row_cells: Seq<Seq<char>> = Seq::empty();
            let mut c: usize = 0;
            while c < w
                invariant
                    self.wf(),
                    c <= w,
                    w == self.spec_width(),
                    row < self.spec_height(),
                    forall|b: FloatBits| #[trigger] float_text.requires((b,)),
                    parts@.len() == c,
                    row_cells.len() == c,
                    forall|i: int| 0 <= i < c ==> #[trigger] parts@[i]@ == pad12(row_cells[i]),
                    forall|i: int| 0 <= i < c ==> cell_ok(self.cols()[i], row as int, #[trigger] row_cells[i], *float_text),
                decreases w - c,
            {
                let col: &Arc<ColumnVector> = &self.columns[c];
                assert(self.cols()[c as int].spec_len() == self.spec_height());
                let cell = debug_cell(&**col, row, float_text);
                proof {
                    row_cells = row_cells.push(cell@);
                }
                parts.push(pad12_text(cell.as_str()));
                c = c + 1;
            }
            let joined_row = join_bar_text(&parts);
            r.append(joined_row.as_str());
            r.append("\n");
            proof {
                assert(parts@.map_values(|s: String| s@) =~= row_cells.map_values(|x: Seq<char>| pad12(x)));
                let new_cells = cells.push(row_cells);
                assert(new_cells.drop_last() =~= cells);
                assert(new_cells.last() == row_cells);
                assert forall|q: int| 0 <= q < new_cells.len() implies #[trigger] new_cells[q].len() == self.spec_width() && forall|c: int|
                    0 <= c < self.spec_width() ==> cell_ok(self.cols()[c], offset + q, #[trigger] new_cells[q][c], *float_text) by {
                    if q < k {
                        assert(new_cells[q] == cells[q]);
                    } else {
                        assert(new_cells[q] == row_cells);
                        assert(offset + q == row);
                    }
                }
                cells = new_cells;
            }
            k = k + 1;
        }
        proof {
            assert(r@ =~= self.table_text(offset as int, cells));
        }
        r
    }

    /// The text that `Debug` prints for a dataset: a table of its first 10
    /// rows, followed by "... and N more rows" when there are more.
    pub fn debug_text<F: Fn(FloatBits) -> String>(&self, float_text: &F) -> (r: String)
        requires
            self.wf(),
            forall|b: FloatBits| #[trigger] float_text.requires((b,)),
        ensures
            ({
                let shown = if self.spec_height() < 10 { self.spec_height() as int } else { 10 };
                exists|cells: Seq<Seq<Seq<char>>>| cells.len() == shown && self.cells_ok(0, cells, *float_text) && r@ == self.table_text(0, cells)
                    + (if self.spec_height() > 10 {
                        line("... and "@ + decimal_text(self.spec_height() - 10) + " more rows"@)
                    } else {
                        Seq::empty()
                    })
            }),
    {
        let v = self.view(0, 10);
        let mut r = self.render_to_format(0, v.len, float_text);
        if self.row_count > 10 {
            let more = int_text((self.row_count - 10) as i128);
            r.append("... and ");
            r.append(more.as_str());
            r.append(" more rows");
            r.append("\n");
            proof {
                reveal_strlit("\n");
            }
        }
        r
    }
}

impl<'a> DatasetView<'a> {
    /// The text that `Debug` prints for a view: the table of its rows.
    pub fn debug_text<F: Fn(FloatBits) -> String>(&self, float_text: &F) -> (r: String)
        requires
            self.spec_dataset().wf(),
            self.spec_offset() + self.spec_len() <= usize::MAX,
            self.spec_len() == 0 || self.spec_offset() + self.spec_len() <= self.spec_dataset().spec_height(),
            forall|b: FloatBits| #[trigger] float_text.requires((b,)),
        ensures
            exists|cells: Seq<Seq<Seq<char>>>| cells.len() == self.spec_len() && self.spec_dataset().cells_ok(
                self.spec_offset() as int,
                cells,
                *float_text,
            ) && r@ == self.spec_dataset().table_text(self.spec_offset() as int, cells),
    {
        self.ds.render_to_format(self.offset, self.len, float_text)
    }
}


/// Conversion of a collection of named columns into a `Dataset`.
pub trait ToDataset {
    fn to_dataset(self) -> Result<Dataset, ChartonError>;
}

/// No later pair among the first `k` reuses the name of pair `j`.
pub open spec fn is_last_name(pairs: Seq<(&str, ColumnVector)>, j: int, k: int) -> bool {
    forall|j2: int| j < j2 < k ==> #[trigger] pairs[j2].0@ != pairs[j].0@
}

/// Pair `k` has a different length than the first pair.
pub open spec fn length_mismatch(pairs: Seq<(&str, ColumnVector)>, k: int) -> bool {
    1 <= k < pairs.len() && pairs[k].1.spec_len() != pairs[0].1.spec_len()
}

impl Dataset {
    /// `self` holds the first `k` pairs, added in order.
    #[verifier::opaque]
    pub open spec fn built_from(&self, pairs: Seq<(&str, ColumnVector)>, k: int) -> bool {
        &&& k > 0 ==> self.spec_height() == pairs[0].1.spec_len() && self.has_column(pairs[0].0@) && self.cols().len() > 0
        &&& k == 0 ==> self.spec_height() == 0 && self.cols().len() == 0
        &&& forall|m: Seq<char>| self.has_column(m) <==> exists|j: int| 0 <= j < k && #[trigger] pairs[j].0@ == m
        &&& forall|j: int| 0 <= j < k && is_last_name(pairs, j, k) ==> self.col(#[trigger] pairs[j].0@) == pairs[j].1
    }

    proof fn lemma_built_facts(ds: Dataset, pairs: Seq<(&str, ColumnVector)>, k: int)
        requires
            ds.built_from(pairs, k),
        ensures
            k > 0 ==> ds.spec_height() == pairs[0].1.spec_len() && ds.cols().len() > 0,
            k == 0 ==> ds.spec_height() == 0 && ds.cols().len() == 0,
            forall|m: Seq<char>| ds.has_column(m) <==> exists|j: int| 0 <= j < k && #[trigger] pairs[j].0@ == m,
            forall|j: int| 0 <= j < k && is_last_name(pairs, j, k) ==> ds.col(#[trigger] pairs[j].0@) == pairs[j].1,
    {
        reveal(Dataset::built_from);
    }

    proof fn lemma_built_empty(ds: Dataset, pairs: Seq<(&str, ColumnVector)>)
        requires
            ds.spec_height() == 0,
            ds.cols().len() == 0,
            ds.schema_map().dom() == Set::<Seq<char>>::empty(),
        ensures
            ds.built_from(pairs, 0),
    {
        reveal(Dataset::built_from);
    }

    proof fn lemma_built_step(ds: Dataset, before: Dataset, pairs: Seq<(&str, ColumnVector)>, k: int)
        requires
            0 <= k < pairs.len(),
            before.wf(),
            ds.wf(),
            before.built_from(pairs, k),
            Self::added(ds, before, pairs[k].0@, pairs[k].1, Ok(())),
        ensures
            ds.built_from(pairs, k + 1),
    {
        reveal(Dataset::built_from);
        let name = pairs[k].0@;
        let data = pairs[k].1;
        crate::laws::law_add_then_read(ds, before, name, data);
        assert forall|m: Seq<char>| ds.has_column(m) implies exists|j: int| 0 <= j < k + 1 && #[trigger] pairs[j].0@ == m by {
            if m == name {
                assert(pairs[k].0@ == m);
            } else {
                assert(before.has_column(m));
                let j = choose|j: int| 0 <= j < k && #[trigger] pairs[j].0@ == m;
                assert(pairs[j].0@ == m);
            }
        }
        assert forall|m: Seq<char>| (exists|j: int| 0 <= j < k + 1 && #[trigger] pairs[j].0@ == m) implies ds.has_column(m) by {
            let j = choose|j: int| 0 <= j < k + 1 && #[trigger] pairs[j].0@ == m;
            if j < k {
                assert(before.has_column(m));
            }
        }
        assert forall|j: int| 0 <= j < k + 1 && is_last_name(pairs, j, k + 1) implies ds.col(#[trigger] pairs[j].0@) == pairs[j].1 by {
            if j < k {
                assert(pairs[k].0@ != pairs[j].0@);
                assert(is_last_name(pairs, j, k));
                assert(before.has_column(pairs[j].0@));
            }
        }
        if k > 0 {
            assert(before.has_column(pairs[0].0@));
        }
        assert(ds.cols().len() > 0) by {
            assert((ds.schema_map()[name] as int) < ds.cols().len());
        }
    }
}

impl<'a> ToDataset for Vec<(&'a str, ColumnVector)> {
    /// Adds the columns in order (see `Dataset::add_column`): later columns of
    /// a name replace earlier ones, and the first column whose length differs
    /// from the first column's stops the conversion with an error.
    fn to_dataset(self) -> (r: Result<Dataset, ChartonError>)
        ensures
            r matches Ok(d) ==> d.wf(),
            r is Err <==> exists|k: int| length_mismatch(self@, k),
            r matches Err(e) ==> ({
                let k = choose|k: int| length_mismatch(self@, k) && forall|j: int| 0 <= j < k ==> !#[trigger] length_mismatch(self@, j);
                e.message() == inconsistent_length_text(self@[k].0@, self@[0].1.spec_len() as int, self@[k].1.spec_len() as int)
            }),
            r matches Ok(d) ==> {
                &&& d.spec_height() == (if self@.len() == 0 { 0 } else { self@[0].1.spec_len() })
                &&& forall|m: Seq<char>| d.has_column(m) <==> exists|j: int| 0 <= j < self@.len() && #[trigger] self@[j].0@ == m
                &&& forall|j: int| 0 <= j < self@.len() && is_last_name(self@, j, self@.len() as int) ==> d.col(
                    #[trigger] self@[j].0@,
                ) == self@[j].1
            },
    {
        let ghost p = self@;
        assert(p.len() == self.len());
        let mut ds = Dataset::new();
        let mut k: usize = 0;
        proof {
            assert(ds.schema_map().dom() =~= Set::<Seq<char>>::empty());
            Dataset::lemma_built_empty(ds, p);
        }
        for pair in it: self
            invariant
                it.seq() == p,
                k == it.index(),
                k <= p.len(),
                p.len() <= usize::MAX,
                ds.wf(),
                forall|j: int| 0 <= j < k ==> !#[trigger] length_mismatch(p, j),
                ds.built_from(p, k as int),
        {
            let (name, data) = pair;
            let ghost before = ds;
            proof {
                Dataset::lemma_built_facts(before, p, k as int);
                assert(p[k as int].0 == name && p[k as int].1 == data);
            }
            match ds.add_column(name, data) {
                Ok(()) => {},
                Err(e) => {
                    proof {
                        assert(length_mismatch(p, k as int));
                        let kk = choose|kk: int| length_mismatch(p, kk) && forall|j: int| 0 <= j < kk ==> !#[trigger] length_mismatch(p, j);
                        if kk < k {
                            assert(!length_mismatch(p, kk));
                        } else if kk > k {
                            assert(!length_mismatch(p, k as int));
                        }
                    }
                    return Err(e);
                },
            }
            proof {
                assert(!length_mismatch(p, k as int));
                Dataset::lemma_built_step(ds, before, p, k as int);
            }
            k = k + 1;
        }
        proof {
            if exists|kk: int| length_mismatch(p, kk) {
                let kk = choose|kk: int| length_mismatch(p, kk);
                assert(!length_mismatch(p, kk));
            }
            Dataset::lemma_built_facts(ds, p, p.len() as int);
        }
        Ok(ds)
    }
}

impl ToDataset for Dataset {
    /// The dataset itself.
    fn to_dataset(self) -> (r: Result<Dataset, ChartonError>)
        ensures
            r == Ok::<Dataset, ChartonError>(self),
    {
        Ok(self)
    }
}

impl<'b> ToDataset for &'b Dataset {
    /// A copy of the dataset (its columns are shared).
    fn to_dataset(self) -> (r: Result<Dataset, ChartonError>)
        ensures
            r matches Ok(d) && d.schema_map() == self.schema_map() && d.cols() == self.cols() && d.spec_height()
                == self.spec_height(),
    {
        Ok(self.clone())
    }
}

} // verus!
