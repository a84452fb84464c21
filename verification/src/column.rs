//! Typed column storage with optional validity bitmasks.
//!
//! Floating-point columns are stored as their IEEE-754 bit patterns
//! (`u64` for binary64, `u32` for binary32): every operation here only moves,
//! compares or classifies the values, which the bit patterns determine exactly.

use vstd::prelude::*;
use vstd::string::*;
use crate::bitmask::{mask_bit, mask_valid, bytes_for, empty_mask, set_mask_bit, lemma_test_bit};
use crate::text::{decimal_text, int_text};
use crate::hashing::{opt_text, int_set_contents, int_set_new, int_set_insert, int_set_len, text_set_contents, text_set_new, text_set_insert, text_set_len};

verus! {

/// Precision of temporal data.
#[derive(Clone, Copy, Debug, PartialEq, Eq, Structural)]
pub enum TimeUnit {
    Milliseconds,
    Microseconds,
    Nanoseconds,
}

/// How a column is meant to be read by scales and encodings.
#[derive(Debug, Clone, Copy, PartialEq, Eq, Structural)]
pub enum SemanticType {
    /// Measurable numeric values (linear or log scales).
    Continuous,
    /// Qualitative labels (discrete scales).
    Discrete,
    /// Points in time (time scales).
    Temporal,
}

/// A single column of data. Every variant carries an optional validity
/// bitmask; `None` means that every row holds a value.
#[derive(Debug, Clone)]
#[allow(inconsistent_fields)]
pub enum ColumnVector {
    Boolean { data: Vec<bool>, validity: Option<Vec<u8>> },
    Int8 { data: Vec<i8>, validity: Option<Vec<u8>> },
    Int16 { data: Vec<i16>, validity: Option<Vec<u8>> },
    Int32 { data: Vec<i32>, validity: Option<Vec<u8>> },
    Int64 { data: Vec<i64>, validity: Option<Vec<u8>> },
    UInt32 { data: Vec<u32>, validity: Option<Vec<u8>> },
    UInt64 { data: Vec<u64>, validity: Option<Vec<u8>> },
    /// Binary32 floats, as bit patterns.
    Float32 { data: Vec<u32>, validity: Option<Vec<u8>> },
    /// Binary64 floats, as bit patterns.
    Float64 { data: Vec<u64>, validity: Option<Vec<u8>> },
    String { data: Vec<String>, validity: Option<Vec<u8>> },
    /// Dictionary-encoded labels: row `i` reads `values[keys[i]]`.
    Categorical { keys: Vec<u32>, values: Vec<String>, validity: Option<Vec<u8>> },
    /// Days since the UNIX epoch.
    Date { data: Vec<i32>, validity: Option<Vec<u8>> },
    /// Ticks since the UNIX epoch in `unit`.
    Datetime { data: Vec<i64>, validity: Option<Vec<u8>>, unit: TimeUnit },
    /// A span of ticks in `unit`.
    Duration { data: Vec<i64>, validity: Option<Vec<u8>>, unit: TimeUnit },
    /// Nanoseconds since midnight.
    Time { data: Vec<i64>, validity: Option<Vec<u8>> },
}

/// The stored value of one row, independent of validity.
pub enum RawCell {
    Int(int),
    Bool(bool),
    Bits(int),
    Text(Seq<char>),
    Key(int),
}

/// The bit pattern of a float cell, handed to a caller-supplied formatter.
#[derive(Clone, Copy, Debug, PartialEq, Eq, Structural)]
pub enum FloatBits {
    F64(u64),
    F32(u32),
}

/// The numeric content of a cell, before any conversion to floating point:
/// signed integers (including booleans as 0/1 and temporal ticks), unsigned
/// integers, or float bit patterns.
#[derive(Clone, Copy, Debug, PartialEq, Eq, Structural)]
pub enum NumericValue {
    Int(i64),
    UInt(u64),
    Float64Bits(u64),
    Float32Bits(u32),
}

/// Integer-like cell types: their value as an integer and their text label.
pub trait IntCell: Copy {
    spec fn int_value(&self) -> int;

    spec fn label(&self) -> Seq<char>;

    fn key(&self) -> (r: i128)
        ensures
            r as int == self.int_value(),
    ;

    fn label_text(&self) -> (s: String)
        ensures
            s@ == self.label(),
    ;
}

impl IntCell for i8 {
    open spec fn int_value(&self) -> int { *self as int }
    open spec fn label(&self) -> Seq<char> { decimal_text(*self as int) }
    fn key(&self) -> (r: i128) { *self as i128 }
    fn label_text(&self) -> (s: String) { int_text(*self as i128) }
}

impl IntCell for i16 {
    open spec fn int_value(&self) -> int { *self as int }
    open spec fn label(&self) -> Seq<char> { decimal_text(*self as int) }
    fn key(&self) -> (r: i128) { *self as i128 }
    fn label_text(&self) -> (s: String) { int_text(*self as i128) }
}

impl IntCell for i32 {
    open spec fn int_value(&self) -> int { *self as int }
    open spec fn label(&self) -> Seq<char> { decimal_text(*self as int) }
    fn key(&self) -> (r: i128) { *self as i128 }
    fn label_text(&self) -> (s: String) { int_text(*self as i128) }
}

impl IntCell for i64 {
    open spec fn int_value(&self) -> int { *self as int }
    open spec fn label(&self) -> Seq<char> { decimal_text(*self as int) }
    fn key(&self) -> (r: i128) { *self as i128 }
    fn label_text(&self) -> (s: String) { int_text(*self as i128) }
}

impl IntCell for u32 {
    open spec fn int_value(&self) -> int { *self as int }
    open spec fn label(&self) -> Seq<char> { decimal_text(*self as int) }
    fn key(&self) -> (r: i128) { *self as i128 }
    fn label_text(&self) -> (s: String) { int_text(*self as i128) }
}

impl IntCell for u64 {
    open spec fn int_value(&self) -> int { *self as int }
    open spec fn label(&self) -> Seq<char> { decimal_text(*self as int) }
    fn key(&self) -> (r: i128) { *self as i128 }
    fn label_text(&self) -> (s: String) { int_text(*self as i128) }
}

impl IntCell for bool {
    open spec fn int_value(&self) -> int { if *self { 1 } else { 0 } }
    open spec fn label(&self) -> Seq<char> { if *self { "true"@ } else { "false"@ } }
    fn key(&self) -> (r: i128) { if *self { 1 } else { 0 } }
    fn label_text(&self) -> (s: String) {
        if *self { String::from_str("true") } else { String::from_str("false") }
    }
}

/// `+0.0` and `-0.0` share one binary64 key; every other pattern is its own key.
pub open spec fn f64_key(b: u64) -> int {
    if b & 0x7FFF_FFFF_FFFF_FFFFu64 == 0u64 { 0 } else { b as int }
}

/// `+0.0` and `-0.0` share one binary32 key; every other pattern is its own key.
pub open spec fn f32_key(b: u32) -> int {
    if b & 0x7FFF_FFFFu32 == 0u32 { 0 } else { b as int }
}

pub open spec fn opt_int(o: Option<i128>) -> Option<int> {
    match o {
        Some(k) => Some(k as int),
        None => None,
    }
}

/// Whether a binary64 bit pattern encodes NaN (all exponent bits set, nonzero fraction).
pub open spec fn f64_bits_nan(b: u64) -> bool {
    b & 0x7FF0_0000_0000_0000u64 == 0x7FF0_0000_0000_0000u64 && b & 0x000F_FFFF_FFFF_FFFFu64 != 0u64
}

/// Whether a binary32 bit pattern encodes NaN.
pub open spec fn f32_bits_nan(b: u32) -> bool {
    b & 0x7F80_0000u32 == 0x7F80_0000u32 && b & 0x007F_FFFFu32 != 0u32
}

pub fn is_nan_f64_bits(b: u64) -> (r: bool)
    ensures
        r == f64_bits_nan(b),
{
    b & 0x7FF0_0000_0000_0000u64 == 0x7FF0_0000_0000_0000u64 && b & 0x000F_FFFF_FFFF_FFFFu64 != 0u64
}

pub fn is_nan_f32_bits(b: u32) -> (r: bool)
    ensures
        r == f32_bits_nan(b),
{
    b & 0x7F80_0000u32 == 0x7F80_0000u32 && b & 0x007F_FFFFu32 != 0u32
}

/// Copies `data[indices[j]]` for every `j`.
fn take_copies<T: Copy>(data: &Vec<T>, indices: &[usize]) -> (r: Vec<T>)
    requires
        forall|j: int| 0 <= j < indices@.len() ==> indices@[j] < data@.len(),
    ensures
        r@.len() == indices@.len(),
        forall|j: int| 0 <= j < indices@.len() ==> r@[j] == data@[indices@[j] as int],
{
    let mut r: Vec<T> = Vec::new();
    let mut j: usize = 0;
    while j < indices.len()
        invariant
            j <= indices@.len(),
            r@.len() == j,
            forall|k: int| 0 <= k < indices@.len() ==> indices@[k] < data@.len(),
            forall|k: int| 0 <= k < j ==> r@[k] == data@[indices@[k] as int],
        decreases indices@.len() - j,
    {
        r.push(data[indices[j]]);
        j = j + 1;
    }
    r
}

/// Clones `data[indices[j]]` for every `j`.
fn take_strings(data: &Vec<String>, indices: &[usize]) -> (r: Vec<String>)
    requires
        forall|j: int| 0 <= j < indices@.len() ==> indices@[j] < data@.len(),
    ensures
        r@.len() == indices@.len(),
        forall|j: int| 0 <= j < indices@.len() ==> r@[j] == data@[indices@[j] as int],
{
    let mut r: Vec<String> = Vec::new();
    let mut j: usize = 0;
    while j < indices.len()
        invariant
            j <= indices@.len(),
            r@.len() == j,
            forall|k: int| 0 <= k < indices@.len() ==> indices@[k] < data@.len(),
            forall|k: int| 0 <= k < j ==> r@[k] == data@[indices@[k] as int],
        decreases indices@.len() - j,
    {
        r.push(data[indices[j]].clone());
        j = j + 1;
    }
    r
}

/// Copies `data[offset..offset + len]`.
fn slice_copies<T: Copy>(data: &Vec<T>, offset: usize, len: usize) -> (r: Vec<T>)
    requires
        offset + len <= data@.len(),
    ensures
        r@ == data@.subrange(offset as int, offset + len),
{
    let mut r: Vec<T> = Vec::new();
    let mut j: usize = 0;
    while j < len
        invariant
            j <= len,
            offset + len <= data@.len(),
            data@.len() == data.len(),
            r@ == data@.subrange(offset as int, offset + j),
        decreases len - j,
    {
        r.push(data[offset + j]);
        j = j + 1;
    }
    r
}

/// Clones `data[offset..offset + len]`.
fn slice_strings(data: &Vec<String>, offset: usize, len: usize) -> (r: Vec<String>)
    requires
        offset + len <= data@.len(),
    ensures
        r@ == data@.subrange(offset as int, offset + len),
{
    let mut r: Vec<String> = Vec::new();
    let mut j: usize = 0;
    while j < len
        invariant
            j <= len,
            offset + len <= data@.len(),
            data@.len() == data.len(),
            r@ == data@.subrange(offset as int, offset + j),
        decreases len - j,
    {
        r.push(data[offset + j].clone());
        j = j + 1;
    }
    r
}

impl ColumnVector {
    /// The validity mask of the column.
    pub open spec fn mask(&self) -> Option<Vec<u8>> {
        match self {
            ColumnVector::Boolean { validity, .. } => *validity,
            ColumnVector::Int8 { validity, .. } => *validity,
            ColumnVector::Int16 { validity, .. } => *validity,
            ColumnVector::Int32 { validity, .. } => *validity,
            ColumnVector::Int64 { validity, .. } => *validity,
            ColumnVector::UInt32 { validity, .. } => *validity,
            ColumnVector::UInt64 { validity, .. } => *validity,
            ColumnVector::Float32 { validity, .. } => *validity,
            ColumnVector::Float64 { validity, .. } => *validity,
            ColumnVector::String { validity, .. } => *validity,
            ColumnVector::Categorical { validity, .. } => *validity,
            ColumnVector::Date { validity, .. } => *validity,
            ColumnVector::Datetime { validity, .. } => *validity,
            ColumnVector::Duration { validity, .. } => *validity,
            ColumnVector::Time { validity, .. } => *validity,
        }
    }

    /// Number of rows.
    pub open spec fn spec_len(&self) -> nat {
        match self {
            ColumnVector::Boolean { data, .. } => data@.len(),
            ColumnVector::Int8 { data, .. } => data@.len(),
            ColumnVector::Int16 { data, .. } => data@.len(),
            ColumnVector::Int32 { data, .. } => data@.len(),
            ColumnVector::Int64 { data, .. } => data@.len(),
            ColumnVector::UInt32 { data, .. } => data@.len(),
            ColumnVector::UInt64 { data, .. } => data@.len(),
            ColumnVector::Float32 { data, .. } => data@.len(),
            ColumnVector::Float64 { data, .. } => data@.len(),
            ColumnVector::String { data, .. } => data@.len(),
            ColumnVector::Categorical { keys, .. } => keys@.len(),
            ColumnVector::Date { data, .. } => data@.len(),
            ColumnVector::Datetime { data, .. } => data@.len(),
            ColumnVector::Duration { data, .. } => data@.len(),
            ColumnVector::Time { data, .. } => data@.len(),
        }
    }

    /// A distinct number for each storage variant.
    pub open spec fn variant_id(&self) -> int {
        match self {
            ColumnVector::Boolean { .. } => 0,
            ColumnVector::Int8 { .. } => 1,
            ColumnVector::Int16 { .. } => 2,
            ColumnVector::Int32 { .. } => 3,
            ColumnVector::Int64 { .. } => 4,
            ColumnVector::UInt32 { .. } => 5,
            ColumnVector::UInt64 { .. } => 6,
            ColumnVector::Float32 { .. } => 7,
            ColumnVector::Float64 { .. } => 8,
            ColumnVector::String { .. } => 9,
            ColumnVector::Categorical { .. } => 10,
            ColumnVector::Date { .. } => 11,
            ColumnVector::Datetime { .. } => 12,
            ColumnVector::Duration { .. } => 13,
            ColumnVector::Time { .. } => 14,
        }
    }

    /// The time unit of `Datetime` and `Duration` columns.
    pub open spec fn unit(&self) -> Option<TimeUnit> {
        match self {
            ColumnVector::Datetime { unit, .. } => Some(*unit),
            ColumnVector::Duration { unit, .. } => Some(*unit),
            _ => None,
        }
    }

    /// The dictionary of a `Categorical` column (empty for the others).
    pub open spec fn categories(&self) -> Seq<String> {
        match self {
            ColumnVector::Categorical { values, .. } => values@,
            _ => Seq::empty(),
        }
    }

    /// The value stored at row `i`, whether or not the row is valid.
    pub open spec fn raw(&self, i: int) -> RawCell {
        match self {
            ColumnVector::Boolean { data, .. } => RawCell::Bool(data@[i]),
            ColumnVector::Int8 { data, .. } => RawCell::Int(data@[i] as int),
            ColumnVector::Int16 { data, .. } => RawCell::Int(data@[i] as int),
            ColumnVector::Int32 { data, .. } => RawCell::Int(data@[i] as int),
            ColumnVector::Int64 { data, .. } => RawCell::Int(data@[i] as int),
            ColumnVector::UInt32 { data, .. } => RawCell::Int(data@[i] as int),
            ColumnVector::UInt64 { data, .. } => RawCell::Int(data@[i] as int),
            ColumnVector::Float32 { data, .. } => RawCell::Bits(data@[i] as int),
            ColumnVector::Float64 { data, .. } => RawCell::Bits(data@[i] as int),
            ColumnVector::String { data, .. } => RawCell::Text(data@[i]@),
            ColumnVector::Categorical { keys, .. } => RawCell::Key(keys@[i] as int),
            ColumnVector::Date { data, .. } => RawCell::Int(data@[i] as int),
            ColumnVector::Datetime { data, .. } => RawCell::Int(data@[i] as int),
            ColumnVector::Duration { data, .. } => RawCell::Int(data@[i] as int),
            ColumnVector::Time { data, .. } => RawCell::Int(data@[i] as int),
        }
    }

    /// Whether the column stores floating-point bit patterns.
    pub open spec fn is_float(&self) -> bool {
        self is Float32 || self is Float64
    }

    /// Whether row `i` of a float column holds a NaN pattern.
    pub open spec fn nan_at(&self, i: int) -> bool {
        match self {
            ColumnVector::Float32 { data, .. } => f32_bits_nan(data@[i]),
            ColumnVector::Float64 { data, .. } => f64_bits_nan(data@[i]),
            _ => false,
        }
    }

    /// Whether row `i` holds a usable value: in range, marked valid, and not NaN.
    pub open spec fn has_value(&self, i: int) -> bool {
        0 <= i < self.spec_len() && mask_valid(self.mask(), i) && !self.nan_at(i)
    }

    /// Same storage variant, time unit and dictionary.
    pub open spec fn same_shape(&self, other: &ColumnVector) -> bool {
        &&& self.variant_id() == other.variant_id()
        &&& self.unit() == other.unit()
        &&& self.categories() == other.categories()
    }

    /// `self` holds row `indices[j]` of `src` at row `j`, validity included.
    pub open spec fn is_take_of(&self, src: &ColumnVector, indices: Seq<usize>) -> bool {
        &&& self.same_shape(src)
        &&& self.spec_len() == indices.len()
        &&& forall|j: int| 0 <= j < indices.len() ==> #[trigger] self.raw(j) == src.raw(indices[j] as int)
        &&& (self.mask() is Some <==> src.mask() is Some)
        &&& (self.mask() matches Some(m) ==> m@.len() == bytes_for(indices.len() as int))
        &&& (self.mask() matches Some(m) ==> forall|j: int| #[trigger] mask_bit(m@, j) <==> (0 <= j < indices.len()
            && mask_valid(src.mask(), indices[j] as int)))
    }

    /// The indices `offset, offset + 1, ..., offset + len - 1`.
    pub open spec fn range_indices(offset: int, len: int) -> Seq<usize> {
        Seq::new(len as nat, |i: int| (offset + i) as usize)
    }

    /// Infers the semantic type from the storage variant.
    pub fn semantic_type(&self) -> (r: SemanticType)
        ensures
            r == (match self {
                ColumnVector::String { .. } | ColumnVector::Categorical { .. } | ColumnVector::Boolean { .. } => SemanticType::Discrete,
                ColumnVector::Date { .. } | ColumnVector::Datetime { .. } | ColumnVector::Time { .. } => SemanticType::Temporal,
                _ => SemanticType::Continuous,
            }),
    {
        match self {
            ColumnVector::Float64 { .. }
            | ColumnVector::Float32 { .. }
            | ColumnVector::Int64 { .. }
            | ColumnVector::Int32 { .. }
            | ColumnVector::Int16 { .. }
            | ColumnVector::Int8 { .. }
            | ColumnVector::UInt64 { .. }
            | ColumnVector::UInt32 { .. }
            | ColumnVector::Duration { .. } => SemanticType::Continuous,
            ColumnVector::String { .. }
            | ColumnVector::Categorical { .. }
            | ColumnVector::Boolean { .. } => SemanticType::Discrete,
            ColumnVector::Date { .. }
            | ColumnVector::Datetime { .. }
            | ColumnVector::Time { .. } => SemanticType::Temporal,
        }
    }

    /// The short name of the storage type, as in Polars ("f64", "str", ...).
    pub open spec fn spec_dtype_name(&self) -> Seq<char> {
        match self {
            ColumnVector::Float64 { .. } => "f64"@,
            ColumnVector::Float32 { .. } => "f32"@,
            ColumnVector::Int64 { .. } => "i64"@,
            ColumnVector::Int32 { .. } => "i32"@,
            ColumnVector::Int16 { .. } => "i16"@,
            ColumnVector::Int8 { .. } => "i8"@,
            ColumnVector::UInt64 { .. } => "u64"@,
            ColumnVector::UInt32 { .. } => "u32"@,
            ColumnVector::Boolean { .. } => "bool"@,
            ColumnVector::String { .. } => "str"@,
            ColumnVector::Categorical { .. } => "cat"@,
            ColumnVector::Date { .. } => "date"@,
            ColumnVector::Datetime { .. } => "datetime"@,
            ColumnVector::Duration { .. } => "duration"@,
            ColumnVector::Time { .. } => "time"@,
        }
    }

    /// Returns the short name of the storage type, as in Polars ("f64", "str", "datetime", ...).
    pub fn dtype_name(&self) -> (r: &'static str)
        ensures
            r@ == self.spec_dtype_name(),
    {
        match self {
            ColumnVector::Float64 { .. } => "f64",
            ColumnVector::Float32 { .. } => "f32",
            ColumnVector::Int64 { .. } => "i64",
            ColumnVector::Int32 { .. } => "i32",
            ColumnVector::Int16 { .. } => "i16",
            ColumnVector::Int8 { .. } => "i8",
            ColumnVector::UInt64 { .. } => "u64",
            ColumnVector::UInt32 { .. } => "u32",
            ColumnVector::Boolean { .. } => "bool",
            ColumnVector::String { .. } => "str",
            ColumnVector::Categorical { .. } => "cat",
            ColumnVector::Date { .. } => "date",
            ColumnVector::Datetime { .. } => "datetime",
            ColumnVector::Duration { .. } => "duration",
            ColumnVector::Time { .. } => "time",
        }
    }

    /// Returns the number of rows (for `Categorical`, the number of keys).
    pub fn len(&self) -> (r: usize)
        ensures
            r == self.spec_len(),
    {
        match self {
            ColumnVector::Boolean { data, .. } => data.len(),
            ColumnVector::Int8 { data, .. } => data.len(),
            ColumnVector::Int16 { data, .. } => data.len(),
            ColumnVector::Int32 { data, .. } => data.len(),
            ColumnVector::Int64 { data, .. } => data.len(),
            ColumnVector::UInt32 { data, .. } => data.len(),
            ColumnVector::UInt64 { data, .. } => data.len(),
            ColumnVector::Float32 { data, .. } => data.len(),
            ColumnVector::Float64 { data, .. } => data.len(),
            ColumnVector::String { data, .. } => data.len(),
            ColumnVector::Categorical { keys, .. } => keys.len(),
            ColumnVector::Date { data, .. } => data.len(),
            ColumnVector::Datetime { data, .. } => data.len(),
            ColumnVector::Duration { data, .. } => data.len(),
            ColumnVector::Time { data, .. } => data.len(),
        }
    }

    /// Returns `true` if the column contains no rows.
    pub fn is_empty(&self) -> (r: bool)
        ensures
            r == (self.spec_len() == 0),
    {
        self.len() == 0
    }

    /// Checks whether row `index` is marked valid in an optional bitmask.
    /// No mask means every row is valid; a row past the end of the mask is null.
    pub fn is_valid_in_mask(mask: &Option<Vec<u8>>, index: usize) -> (r: bool)
        ensures
            r == mask_valid(*mask, index as int),
    {
        match mask {
            None => true,
            Some(bits) => {
                let byte_idx = index / 8;
                let bit_idx = (index % 8) as u8;
                if byte_idx < bits.len() {
                    (bits[byte_idx] >> bit_idx) & 1u8 == 1u8
                } else {
                    false
                }
            },
        }
    }

    /// Re-indexes a validity mask: bit `j` of the result is the validity of
    /// row `indices[j]` of the input mask. No mask stays no mask.
    fn take_validity(validity: &Option<Vec<u8>>, indices: &[usize]) -> (r: Option<Vec<u8>>)
        ensures
            r is Some <==> validity is Some,
            r matches Some(m) ==> m@.len() == bytes_for(indices@.len() as int),
            r matches Some(m) ==> forall|j: int| #[trigger] mask_bit(m@, j) <==> (0 <= j < indices@.len()
                && mask_valid(*validity, indices@[j] as int)),
    {
        match validity {
            None => None,
            Some(_) => {
                let num_rows = indices.len();
                let mut new_mask = empty_mask(num_rows);
                let mut j: usize = 0;
                while j < num_rows
                    invariant
                        j <= num_rows,
                        num_rows == indices@.len(),
                        new_mask@.len() == bytes_for(num_rows as int),
                        forall|k: int| #[trigger] mask_bit(new_mask@, k) <==> (0 <= k < j
                            && mask_valid(*validity, indices@[k] as int)),
                    decreases num_rows - j,
                {
                    if Self::is_valid_in_mask(validity, indices[j]) {
                        set_mask_bit(&mut new_mask, j);
                    }
                    j = j + 1;
                }
                Some(new_mask)
            },
        }
    }

    /// Realigns `len` bits starting at bit `offset` so that they start at bit 0.
    fn slice_validity(v: &Vec<u8>, offset: usize, len: usize) -> (r: Vec<u8>)
        requires
            len == 0 || offset + len <= 8 * v@.len(),
            offset + len <= usize::MAX,
        ensures
            r@.len() == bytes_for(len as int),
            forall|i: int| #[trigger] mask_bit(r@, i) <==> (0 <= i < len && mask_bit(v@, offset + i)),
    {
        let mut new_v = empty_mask(len);
        let mut i: usize = 0;
        while i < len
            invariant
                i <= len,
                len == 0 || offset + len <= 8 * v@.len(),
                offset + len <= usize::MAX,
                new_v@.len() == bytes_for(len as int),
                forall|k: int| #[trigger] mask_bit(new_v@, k) <==> (0 <= k < i && mask_bit(v@, offset + k)),
            decreases len - i,
        {
            let old_idx = offset + i;
            let byte_idx = old_idx / 8;
            let bit_idx = (old_idx % 8) as u8;
            let is_valid = (v[byte_idx] & (1u8 << bit_idx)) != 0u8;
            proof {
                lemma_test_bit(v@[byte_idx as int], bit_idx);
            }
            if is_valid {
                set_mask_bit(&mut new_v, i);
            }
            i = i + 1;
        }
        new_v
    }

    /// Creates a new column holding only the rows listed in `indices`, in
    /// that order (indices may repeat). The validity mask is re-indexed so that
    /// every row keeps its null state.
    pub fn take(&self, indices: &[usize]) -> (r: Self)
        requires
            forall|j: int| 0 <= j < indices@.len() ==> indices@[j] < self.spec_len(),
        ensures
            r.is_take_of(self, indices@),
    {
        match self {
            ColumnVector::Boolean { data, validity } => ColumnVector::Boolean {
                data: take_copies(data, indices),
                validity: Self::take_validity(validity, indices),
            },
            ColumnVector::Int8 { data, validity } => ColumnVector::Int8 {
                data: take_copies(data, indices),
                validity: Self::take_validity(validity, indices),
            },
            ColumnVector::Int16 { data, validity } => ColumnVector::Int16 {
                data: take_copies(data, indices),
                validity: Self::take_validity(validity, indices),
            },
            ColumnVector::Int32 { data, validity } => ColumnVector::Int32 {
                data: take_copies(data, indices),
                validity: Self::take_validity(validity, indices),
            },
            ColumnVector::Int64 { data, validity } => ColumnVector::Int64 {
                data: take_copies(data, indices),
                validity: Self::take_validity(validity, indices),
            },
            ColumnVector::UInt32 { data, validity } => ColumnVector::UInt32 {
                data: take_copies(data, indices),
                validity: Self::take_validity(validity, indices),
            },
            ColumnVector::UInt64 { data, validity } => ColumnVector::UInt64 {
                data: take_copies(data, indices),
                validity: Self::take_validity(validity, indices),
            },
            ColumnVector::Float32 { data, validity } => ColumnVector::Float32 {
                data: take_copies(data, indices),
                validity: Self::take_validity(validity, indices),
            },
            ColumnVector::Float64 { data, validity } => ColumnVector::Float64 {
                data: take_copies(data, indices),
                validity: Self::take_validity(validity, indices),
            },
            ColumnVector::Date { data, validity } => ColumnVector::Date {
                data: take_copies(data, indices),
                validity: Self::take_validity(validity, indices),
            },
            ColumnVector::Time { data, validity } => ColumnVector::Time {
                data: take_copies(data, indices),
                validity: Self::take_validity(validity, indices),
            },
            ColumnVector::String { data, validity } => ColumnVector::String {
                data: take_strings(data, indices),
                validity: Self::take_validity(validity, indices),
            },
            ColumnVector::Categorical { keys, values, validity } => ColumnVector::Categorical {
                keys: take_copies(keys, indices),
                values: values.clone(),
                validity: Self::take_validity(validity, indices),
            },
            ColumnVector::Datetime { data, validity, unit } => ColumnVector::Datetime {
                data: take_copies(data, indices),
                validity: Self::take_validity(validity, indices),
                unit: *unit,
            },
            ColumnVector::Duration { data, validity, unit } => ColumnVector::Duration {
                data: take_copies(data, indices),
                validity: Self::take_validity(validity, indices),
                unit: *unit,
            },
        }
    }

    fn slice_mask(validity: &Option<Vec<u8>>, offset: usize, len: usize) -> (r: Option<Vec<u8>>)
        requires
            offset + len <= usize::MAX,
            validity matches Some(v) ==> (len == 0 || offset + len <= 8 * v@.len()),
        ensures
            r is Some <==> validity is Some,
            r matches Some(m) ==> m@.len() == bytes_for(len as int),
            r matches Some(m) ==> forall|j: int| #[trigger] mask_bit(m@, j) <==> (0 <= j < len
                && mask_valid(*validity, offset + j)),
    {
        match validity {
            None => None,
            Some(v) => Some(Self::slice_validity(v, offset, len)),
        }
    }

    /// Rows `offset..offset + len` exist, and the validity mask (if any) covers them.
    pub open spec fn can_slice(&self, offset: int, len: int) -> bool {
        &&& 0 <= offset
        &&& 0 <= len
        &&& offset + len <= self.spec_len()
        &&& (self.mask() matches Some(v) ==> (len == 0 || offset + len <= 8 * v@.len()))
    }

    /// Creates a new column holding rows `offset..offset + len`.
    pub fn slice(&self, offset: usize, len: usize) -> (r: Self)
        requires
            self.can_slice(offset as int, len as int),
        ensures
            r.is_take_of(self, Self::range_indices(offset as int, len as int)),
    {
        let ghost idx = Self::range_indices(offset as int, len as int);
        proof {
            assert(offset + len <= usize::MAX) by {
                assert(self.spec_len() <= usize::MAX) by { self.lemma_len_bound(); }
            }
        }
        let r = match self {
            ColumnVector::Boolean { data, validity } => ColumnVector::Boolean {
                data: slice_copies(data, offset, len),
                validity: Self::slice_mask(validity, offset, len),
            },
            ColumnVector::Int8 { data, validity } => ColumnVector::Int8 {
                data: slice_copies(data, offset, len),
                validity: Self::slice_mask(validity, offset, len),
            },
            ColumnVector::Int16 { data, validity } => ColumnVector::Int16 {
                data: slice_copies(data, offset, len),
                validity: Self::slice_mask(validity, offset, len),
            },
            ColumnVector::Int32 { data, validity } => ColumnVector::Int32 {
                data: slice_copies(data, offset, len),
                validity: Self::slice_mask(validity, offset, len),
            },
            ColumnVector::Int64 { data, validity } => ColumnVector::Int64 {
                data: slice_copies(data, offset, len),
                validity: Self::slice_mask(validity, offset, len),
            },
            ColumnVector::UInt32 { data, validity } => ColumnVector::UInt32 {
                data: slice_copies(data, offset, len),
                validity: Self::slice_mask(validity, offset, len),
            },
            ColumnVector::UInt64 { data, validity } => ColumnVector::UInt64 {
                data: slice_copies(data, offset, len),
                validity: Self::slice_mask(validity, offset, len),
            },
            ColumnVector::Float32 { data, validity } => ColumnVector::Float32 {
                data: slice_copies(data, offset, len),
                validity: Self::slice_mask(validity, offset, len),
            },
            ColumnVector::Float64 { data, validity } => ColumnVector::Float64 {
                data: slice_copies(data, offset, len),
                validity: Self::slice_mask(validity, offset, len),
            },
            ColumnVector::Date { data, validity } => ColumnVector::Date {
                data: slice_copies(data, offset, len),
                validity: Self::slice_mask(validity, offset, len),
            },
            ColumnVector::Time { data, validity } => ColumnVector::Time {
                data: slice_copies(data, offset, len),
                validity: Self::slice_mask(validity, offset, len),
            },
            ColumnVector::String { data, validity } => ColumnVector::String {
                data: slice_strings(data, offset, len),
                validity: Self::slice_mask(validity, offset, len),
            },
            ColumnVector::Categorical { keys, values, validity } => ColumnVector::Categorical {
                keys: slice_copies(keys, offset, len),
                values: values.clone(),
                validity: Self::slice_mask(validity, offset, len),
            },
            ColumnVector::Datetime { data, validity, unit } => ColumnVector::Datetime {
                data: slice_copies(data, offset, len),
                validity: Self::slice_mask(validity, offset, len),
                unit: *unit,
            },
            ColumnVector::Duration { data, validity, unit } => ColumnVector::Duration {
                data: slice_copies(data, offset, len),
                validity: Self::slice_mask(validity, offset, len),
                unit: *unit,
            },
        };
        proof {
            assert forall|j: int| 0 <= j < len implies #[trigger] r.raw(j) == self.raw(idx[j] as int) by {
                assert(idx[j] as int == offset + j);
            }
        }
        r
    }

    pub proof fn lemma_len_bound(&self)
        ensures
            self.spec_len() <= usize::MAX,
    {
        match self {
            ColumnVector::Categorical { keys, .. } => { assert(keys@.len() == keys.len()); },
            ColumnVector::Boolean { data, .. } => { assert(data@.len() == data.len()); },
            ColumnVector::Int8 { data, .. } => { assert(data@.len() == data.len()); },
            ColumnVector::Int16 { data, .. } => { assert(data@.len() == data.len()); },
            ColumnVector::Int32 { data, .. } => { assert(data@.len() == data.len()); },
            ColumnVector::Int64 { data, .. } => { assert(data@.len() == data.len()); },
            ColumnVector::UInt32 { data, .. } => { assert(data@.len() == data.len()); },
            ColumnVector::UInt64 { data, .. } => { assert(data@.len() == data.len()); },
            ColumnVector::Float32 { data, .. } => { assert(data@.len() == data.len()); },
            ColumnVector::Float64 { data, .. } => { assert(data@.len() == data.len()); },
            ColumnVector::String { data, .. } => { assert(data@.len() == data.len()); },
            ColumnVector::Date { data, .. } => { assert(data@.len() == data.len()); },
            ColumnVector::Datetime { data, .. } => { assert(data@.len() == data.len()); },
            ColumnVector::Duration { data, .. } => { assert(data@.len() == data.len()); },
            ColumnVector::Time { data, .. } => { assert(data@.len() == data.len()); },
        }
    }
}

impl ColumnVector {
    /// The key by which a non-text row counts as a distinct value: the integer
    /// value (booleans as 0/1), or the float bit pattern with `-0.0` folded
    /// into `+0.0`. Rows without a usable value, and text rows, have none.
    pub open spec fn num_key(&self, i: int) -> Option<int> {
        if !self.has_value(i) {
            None
        } else {
            match self {
                ColumnVector::Boolean { data, validity } => Some(data@[i].int_value()),
                ColumnVector::Int8 { data, validity } => Some(data@[i].int_value()),
                ColumnVector::Int16 { data, validity } => Some(data@[i].int_value()),
                ColumnVector::Int32 { data, validity } => Some(data@[i].int_value()),
                ColumnVector::Int64 { data, validity } => Some(data@[i].int_value()),
                ColumnVector::UInt32 { data, validity } => Some(data@[i].int_value()),
                ColumnVector::UInt64 { data, validity } => Some(data@[i].int_value()),
                ColumnVector::Date { data, validity } => Some(data@[i].int_value()),
                ColumnVector::Time { data, validity } => Some(data@[i].int_value()),
                ColumnVector::Datetime { data, validity, .. } => Some(data@[i].int_value()),
                ColumnVector::Duration { data, validity, .. } => Some(data@[i].int_value()),
                ColumnVector::Float32 { data, .. } => Some(f32_key(data@[i])),
                ColumnVector::Float64 { data, .. } => Some(f64_key(data@[i])),
                _ => None,
            }
        }
    }

    /// Whether the column holds text: `String` or `Categorical`.
    pub open spec fn is_text(&self) -> bool {
        self is String || self is Categorical
    }

    /// The text of a valid row of a text column: the string itself, or the
    /// dictionary entry of a categorical key (none for a key outside the
    /// dictionary).
    pub open spec fn text_key(&self, i: int) -> Option<Seq<char>> {
        match self {
            ColumnVector::String { data, .. } => if self.has_value(i) { Some(data@[i]@) } else { None },
            ColumnVector::Categorical { .. } => self.label_at(i),
            _ => None,
        }
    }

    /// The label of row `i` of a non-float column, or `None` for a null,
    /// out-of-range or dangling-dictionary row.
    pub open spec fn label_at(&self, i: int) -> Option<Seq<char>> {
        if !self.has_value(i) {
            None
        } else {
            match self {
                ColumnVector::Boolean { data, validity } => Some(data@[i].label()),
                ColumnVector::Int8 { data, validity } => Some(data@[i].label()),
                ColumnVector::Int16 { data, validity } => Some(data@[i].label()),
                ColumnVector::Int32 { data, validity } => Some(data@[i].label()),
                ColumnVector::Int64 { data, validity } => Some(data@[i].label()),
                ColumnVector::UInt32 { data, validity } => Some(data@[i].label()),
                ColumnVector::UInt64 { data, validity } => Some(data@[i].label()),
                ColumnVector::Date { data, validity } => Some(data@[i].label()),
                ColumnVector::Time { data, validity } => Some(data@[i].label()),
                ColumnVector::Datetime { data, validity, .. } => Some(data@[i].label()),
                ColumnVector::Duration { data, validity, .. } => Some(data@[i].label()),
                ColumnVector::String { data, .. } => Some(data@[i]@),
                ColumnVector::Categorical { keys, values, .. } => if (keys@[i] as int) < values@.len() {
                    Some(values@[keys@[i] as int]@)
                } else {
                    None
                },
                _ => None,
            }
        }
    }

    /// The bit pattern of row `i` of a float column.
    pub open spec fn float_at(&self, i: int) -> FloatBits {
        match self {
            ColumnVector::Float32 { data, .. } => FloatBits::F32(data@[i]),
            ColumnVector::Float64 { data, .. } => FloatBits::F64(data@[i]),
            _ => FloatBits::F64(0),
        }
    }

    /// Whether `r` is what `get_str(row)` may return when floats are
    /// rendered by `float_text`: the row's label for non-float columns; for
    /// float columns, a string that `float_text` returned for the row's bit
    /// pattern when the row holds a (non-NaN) value, and `None` otherwise.
    pub open spec fn str_result<F: Fn(FloatBits) -> String>(&self, row: int, float_text: F, r: Option<String>) -> bool {
        if self.is_float() {
            if self.has_value(row) {
                r matches Some(s) && call_ensures(float_text, (self.float_at(row),), s)
            } else {
                r is None
            }
        } else {
            opt_text(r) == self.label_at(row)
        }
    }

    /// The numeric content of row `i`: `None` for null, NaN, out-of-range,
    /// text and categorical rows.
    pub open spec fn numeric_at(&self, i: int) -> Option<NumericValue> {
        if !self.has_value(i) {
            None
        } else {
            match self {
                ColumnVector::Boolean { data, .. } => Some(NumericValue::Int(if data@[i] { 1 } else { 0 })),
                ColumnVector::Int8 { data, .. } => Some(NumericValue::Int(data@[i] as i64)),
                ColumnVector::Int16 { data, .. } => Some(NumericValue::Int(data@[i] as i64)),
                ColumnVector::Int32 { data, .. } => Some(NumericValue::Int(data@[i] as i64)),
                ColumnVector::Int64 { data, .. } => Some(NumericValue::Int(data@[i])),
                ColumnVector::UInt32 { data, .. } => Some(NumericValue::UInt(data@[i] as u64)),
                ColumnVector::UInt64 { data, .. } => Some(NumericValue::UInt(data@[i])),
                ColumnVector::Float32 { data, .. } => Some(NumericValue::Float32Bits(data@[i])),
                ColumnVector::Float64 { data, .. } => Some(NumericValue::Float64Bits(data@[i])),
                ColumnVector::Date { data, .. } => Some(NumericValue::Int(data@[i] as i64)),
                ColumnVector::Datetime { data, .. } => Some(NumericValue::Int(data@[i])),
                ColumnVector::Duration { data, .. } => Some(NumericValue::Int(data@[i])),
                ColumnVector::Time { data, .. } => Some(NumericValue::Int(data@[i])),
                _ => None,
            }
        }
    }

    /// Row `i` holds a value that its column has not held at an earlier row.
    pub open spec fn is_first(&self, i: int) -> bool {
        if self.is_text() {
            self.text_key(i) is Some && forall|j: int| 0 <= j < i ==> #[trigger] self.text_key(j) != self.text_key(i)
        } else {
            self.num_key(i) is Some && forall|j: int| 0 <= j < i ==> #[trigger] self.num_key(j) != self.num_key(i)
        }
    }

    /// The rows among the first `n` that hold a first appearance, in order.
    pub open spec fn first_rows(&self, n: int) -> Seq<int>
        decreases n,
    {
        if n <= 0 {
            Seq::empty()
        } else if self.is_first(n - 1) {
            self.first_rows(n - 1).push(n - 1)
        } else {
            self.first_rows(n - 1)
        }
    }

    /// The distinct numeric keys among the first `n` rows.
    pub open spec fn seen_nums(&self, n: int) -> Set<int> {
        Set::new(|k: int| exists|j: int| 0 <= j < n && #[trigger] self.num_key(j) == Some(k))
    }

    /// The distinct texts among the first `n` rows.
    pub open spec fn seen_texts(&self, n: int) -> Set<Seq<char>> {
        Set::new(|t: Seq<char>| exists|j: int| 0 <= j < n && #[trigger] self.text_key(j) == Some(t))
    }

    /// The number of distinct non-null values, as `n_unique` counts them.
    pub open spec fn distinct_count(&self) -> nat {
        if self.is_text() {
            self.seen_texts(self.spec_len() as int).len()
        } else {
            self.seen_nums(self.spec_len() as int).len()
        }
    }

    fn num_key_at(&self, i: usize) -> (r: Option<i128>)
        ensures
            opt_int(r) == self.num_key(i as int),
    {
        match self {
            ColumnVector::Boolean { data, validity } => if i < data.len() && Self::is_valid_in_mask(validity, i) {
                Some(data[i].key())
            } else {
                None
            },
            ColumnVector::Int8 { data, validity } => if i < data.len() && Self::is_valid_in_mask(validity, i) {
                Some(data[i].key())
            } else {
                None
            },
            ColumnVector::Int16 { data, validity } => if i < data.len() && Self::is_valid_in_mask(validity, i) {
                Some(data[i].key())
            } else {
                None
            },
            ColumnVector::Int32 { data, validity } => if i < data.len() && Self::is_valid_in_mask(validity, i) {
                Some(data[i].key())
            } else {
                None
            },
            ColumnVector::Int64 { data, validity } => if i < data.len() && Self::is_valid_in_mask(validity, i) {
                Some(data[i].key())
            } else {
                None
            },
            ColumnVector::UInt32 { data, validity } => if i < data.len() && Self::is_valid_in_mask(validity, i) {
                Some(data[i].key())
            } else {
                None
            },
            ColumnVector::UInt64 { data, validity } => if i < data.len() && Self::is_valid_in_mask(validity, i) {
                Some(data[i].key())
            } else {
                None
            },
            ColumnVector::Date { data, validity } => if i < data.len() && Self::is_valid_in_mask(validity, i) {
                Some(data[i].key())
            } else {
                None
            },
            ColumnVector::Time { data, validity } => if i < data.len() && Self::is_valid_in_mask(validity, i) {
                Some(data[i].key())
            } else {
                None
            },
            ColumnVector::Datetime { data, validity, .. } => if i < data.len() && Self::is_valid_in_mask(validity, i) {
                Some(data[i].key())
            } else {
                None
            },
            ColumnVector::Duration { data, validity, .. } => if i < data.len() && Self::is_valid_in_mask(validity, i) {
                Some(data[i].key())
            } else {
                None
            },
            ColumnVector::Float32 { data, validity } => if i < data.len() && Self::is_valid_in_mask(validity, i)
                && !is_nan_f32_bits(data[i]) {
                let b = data[i];
                if b & 0x7FFF_FFFFu32 == 0u32 { Some(0i128) } else { Some(b as i128) }
            } else {
                None
            },
            ColumnVector::Float64 { data, validity } => if i < data.len() && Self::is_valid_in_mask(validity, i)
                && !is_nan_f64_bits(data[i]) {
                let b = data[i];
                if b & 0x7FFF_FFFF_FFFF_FFFFu64 == 0u64 { Some(0i128) } else { Some(b as i128) }
            } else {
                None
            },
            _ => None,
        }
    }

    /// Returns the numeric content of row `row`, or `None` when the row is out
    /// of range, null, NaN, or holds text. Booleans read as 0/1 and temporal
    /// columns as their raw ticks; floats are returned as bit patterns.
    pub fn numeric_value(&self, row: usize) -> (r: Option<NumericValue>)
        ensures
            r == self.numeric_at(row as int),
    {
        match self {
            ColumnVector::Boolean { data, validity } => if row < data.len() && Self::is_valid_in_mask(validity, row) {
                Some(NumericValue::Int(if data[row] { 1 } else { 0 }))
            } else {
                None
            },
            ColumnVector::Int8 { data, validity } => if row < data.len() && Self::is_valid_in_mask(validity, row) {
                Some(NumericValue::Int(data[row] as i64))
            } else {
                None
            },
            ColumnVector::Int16 { data, validity } => if row < data.len() && Self::is_valid_in_mask(validity, row) {
                Some(NumericValue::Int(data[row] as i64))
            } else {
                None
            },
            ColumnVector::Int32 { data, validity } => if row < data.len() && Self::is_valid_in_mask(validity, row) {
                Some(NumericValue::Int(data[row] as i64))
            } else {
                None
            },
            ColumnVector::Int64 { data, validity } => if row < data.len() && Self::is_valid_in_mask(validity, row) {
                Some(NumericValue::Int(data[row]))
            } else {
                None
            },
            ColumnVector::UInt32 { data, validity } => if row < data.len() && Self::is_valid_in_mask(validity, row) {
                Some(NumericValue::UInt(data[row] as u64))
            } else {
                None
            },
            ColumnVector::UInt64 { data, validity } => if row < data.len() && Self::is_valid_in_mask(validity, row) {
                Some(NumericValue::UInt(data[row]))
            } else {
                None
            },
            ColumnVector::Float32 { data, validity } => if row < data.len() && Self::is_valid_in_mask(validity, row)
                && !is_nan_f32_bits(data[row]) {
                Some(NumericValue::Float32Bits(data[row]))
            } else {
                None
            },
            ColumnVector::Float64 { data, validity } => if row < data.len() && Self::is_valid_in_mask(validity, row)
                && !is_nan_f64_bits(data[row]) {
                Some(NumericValue::Float64Bits(data[row]))
            } else {
                None
            },
            ColumnVector::Date { data, validity } => if row < data.len() && Self::is_valid_in_mask(validity, row) {
                Some(NumericValue::Int(data[row] as i64))
            } else {
                None
            },
            ColumnVector::Datetime { data, validity, .. } => if row < data.len() && Self::is_valid_in_mask(validity, row) {
                Some(NumericValue::Int(data[row]))
            } else {
                None
            },
            ColumnVector::Duration { data, validity, .. } => if row < data.len() && Self::is_valid_in_mask(validity, row) {
                Some(NumericValue::Int(data[row]))
            } else {
                None
            },
            ColumnVector::Time { data, validity } => if row < data.len() && Self::is_valid_in_mask(validity, row) {
                Some(NumericValue::Int(data[row]))
            } else {
                None
            },
            ColumnVector::String { .. } | ColumnVector::Categorical { .. } => None,
        }
    }

    /// Returns the value of row `row` as a string, for grouping keys and
    /// labels. Integers and temporal ticks are written in decimal, booleans as
    /// "true"/"false", categorical rows as their dictionary entry, and floats
    /// by `float_text`. Null, NaN and out-of-range rows give `None`.
    pub fn get_str<F: Fn(FloatBits) -> String>(&self, row: usize, float_text: &F) -> (r: Option<String>)
        requires
            forall|b: FloatBits| #[trigger] float_text.requires((b,)),
        ensures
            self.str_result(row as int, *float_text, r),
    {
        match self {
            ColumnVector::Boolean { data, validity } => if row < data.len() && Self::is_valid_in_mask(validity, row) {
                Some(data[row].label_text())
            } else {
                None
            },
            ColumnVector::Int8 { data, validity } => if row < data.len() && Self::is_valid_in_mask(validity, row) {
                Some(data[row].label_text())
            } else {
                None
            },
            ColumnVector::Int16 { data, validity } => if row < data.len() && Self::is_valid_in_mask(validity, row) {
                Some(data[row].label_text())
            } else {
                None
            },
            ColumnVector::Int32 { data, validity } => if row < data.len() && Self::is_valid_in_mask(validity, row) {
                Some(data[row].label_text())
            } else {
                None
            },
            ColumnVector::Int64 { data, validity } => if row < data.len() && Self::is_valid_in_mask(validity, row) {
                Some(data[row].label_text())
            } else {
                None
            },
            ColumnVector::UInt32 { data, validity } => if row < data.len() && Self::is_valid_in_mask(validity, row) {
                Some(data[row].label_text())
            } else {
                None
            },
            ColumnVector::UInt64 { data, validity } => if row < data.len() && Self::is_valid_in_mask(validity, row) {
                Some(data[row].label_text())
            } else {
                None
            },
            ColumnVector::Date { data, validity } => if row < data.len() && Self::is_valid_in_mask(validity, row) {
                Some(data[row].label_text())
            } else {
                None
            },
            ColumnVector::Time { data, validity } => if row < data.len() && Self::is_valid_in_mask(validity, row) {
                Some(data[row].label_text())
            } else {
                None
            },
            ColumnVector::Datetime { data, validity, .. } => if row < data.len() && Self::is_valid_in_mask(validity, row) {
                Some(data[row].label_text())
            } else {
                None
            },
            ColumnVector::Duration { data, validity, .. } => if row < data.len() && Self::is_valid_in_mask(validity, row) {
                Some(data[row].label_text())
            } else {
                None
            },
            ColumnVector::String { data, validity } => if row < data.len() && Self::is_valid_in_mask(validity, row) {
                Some(data[row].clone())
            } else {
                None
            },
            ColumnVector::Categorical { keys, values, validity } => if row < keys.len()
                && Self::is_valid_in_mask(validity, row) {
                let key = keys[row] as usize;
                if key < values.len() {
                    Some(values[key].clone())
                } else {
                    None
                }
            } else {
                None
            },
            ColumnVector::Float32 { data, validity } => if row < data.len() && Self::is_valid_in_mask(validity, row)
                && !is_nan_f32_bits(data[row]) {
                Some(float_text(FloatBits::F32(data[row])))
            } else {
                None
            },
            ColumnVector::Float64 { data, validity } => if row < data.len() && Self::is_valid_in_mask(validity, row)
                && !is_nan_f64_bits(data[row]) {
                Some(float_text(FloatBits::F64(data[row])))
            } else {
                None
            },
        }
    }

    /// String retrieval with a fallback: `default` whenever `get_str` gives `None`.
    pub fn get_str_or<F: Fn(FloatBits) -> String>(&self, row: usize, default: &str, float_text: &F) -> (r: String)
        requires
            forall|b: FloatBits| #[trigger] float_text.requires((b,)),
        ensures
            exists|o: Option<String>| self.str_result(row as int, *float_text, o) && r@ == (match o {
                Some(s) => s@,
                None => default@,
            }),
    {
        let o = self.get_str(row, float_text);
        match o {
            Some(s) => s,
            None => String::from_str(default),
        }
    }
}

impl ColumnVector {
    proof fn lemma_seen_nums_step(&self, i: int)
        requires
            0 <= i,
        ensures
            self.seen_nums(i + 1) == (match self.num_key(i) {
                Some(k) => self.seen_nums(i).insert(k),
                None => self.seen_nums(i),
            }),
            self.num_key(i) matches Some(k) ==> (self.is_first(i) <==> !self.seen_nums(i).contains(k)),
            !self.is_text() ==> (self.num_key(i) is None ==> !self.is_first(i)),
    {
        match self.num_key(i) {
            Some(k) => {
                assert(self.seen_nums(i + 1) =~= self.seen_nums(i).insert(k)) by {
                    assert forall|x: int| self.seen_nums(i + 1).contains(x) implies self.seen_nums(i).insert(k).contains(x) by {
                        let j = choose|j: int| 0 <= j < i + 1 && #[trigger] self.num_key(j) == Some(x);
                        if j < i {
                            assert(self.seen_nums(i).contains(x));
                        }
                    }
                    assert forall|x: int| self.seen_nums(i).insert(k).contains(x) implies self.seen_nums(i + 1).contains(x) by {
                        if x == k {
                            assert(self.num_key(i) == Some(x));
                        } else {
                            let j = choose|j: int| 0 <= j < i && #[trigger] self.num_key(j) == Some(x);
                            assert(self.num_key(j) == Some(x));
                        }
                    }
                }
                if !self.seen_nums(i).contains(k) {
                    assert forall|j: int| 0 <= j < i implies #[trigger] self.num_key(j) != self.num_key(i) by {
                        if self.num_key(j) == Some(k) {
                            assert(self.seen_nums(i).contains(k));
                        }
                    }
                } else {
                    let j = choose|j: int| 0 <= j < i && #[trigger] self.num_key(j) == Some(k);
                    assert(self.num_key(j) == self.num_key(i));
                }
            },
            None => {
                assert(self.seen_nums(i + 1) =~= self.seen_nums(i)) by {
                    assert forall|x: int| self.seen_nums(i + 1).contains(x) implies self.seen_nums(i).contains(x) by {
                        let j = choose|j: int| 0 <= j < i + 1 && #[trigger] self.num_key(j) == Some(x);
                        assert(j != i);
                    }
                    assert forall|x: int| self.seen_nums(i).contains(x) implies self.seen_nums(i + 1).contains(x) by {
                        let j = choose|j: int| 0 <= j < i && #[trigger] self.num_key(j) == Some(x);
                        assert(self.num_key(j) == Some(x));
                    }
                }
            },
        }
    }

    proof fn lemma_seen_texts_step(&self, i: int)
        requires
            0 <= i,
        ensures
            self.seen_texts(i + 1) == (match self.text_key(i) {
                Some(t) => self.seen_texts(i).insert(t),
                None => self.seen_texts(i),
            }),
            self.is_text() ==> (self.text_key(i) matches Some(t) ==> (self.is_first(i) <==> !self.seen_texts(i).contains(t))),
            self.is_text() ==> (self.text_key(i) is None ==> !self.is_first(i)),
    {
        match self.text_key(i) {
            Some(k) => {
                assert(self.seen_texts(i + 1) =~= self.seen_texts(i).insert(k)) by {
                    assert forall|x: Seq<char>| self.seen_texts(i + 1).contains(x) implies self.seen_texts(i).insert(k).contains(x) by {
                        let j = choose|j: int| 0 <= j < i + 1 && #[trigger] self.text_key(j) == Some(x);
                        if j < i {
                            assert(self.seen_texts(i).contains(x));
                        }
                    }
                    assert forall|x: Seq<char>| self.seen_texts(i).insert(k).contains(x) implies self.seen_texts(i + 1).contains(x) by {
                        if x == k {
                            assert(self.text_key(i) == Some(x));
                        } else {
                            let j = choose|j: int| 0 <= j < i && #[trigger] self.text_key(j) == Some(x);
                            assert(self.text_key(j) == Some(x));
                        }
                    }
                }
                if !self.seen_texts(i).contains(k) {
                    assert forall|j: int| 0 <= j < i implies #[trigger] self.text_key(j) != self.text_key(i) by {
                        if self.text_key(j) == Some(k) {
                            assert(self.seen_texts(i).contains(k));
                        }
                    }
                } else {
                    let j = choose|j: int| 0 <= j < i && #[trigger] self.text_key(j) == Some(k);
                    assert(self.text_key(j) == self.text_key(i));
                }
            },
            None => {
                assert(self.seen_texts(i + 1) =~= self.seen_texts(i)) by {
                    assert forall|x: Seq<char>| self.seen_texts(i + 1).contains(x) implies self.seen_texts(i).contains(x) by {
                        let j = choose|j: int| 0 <= j < i + 1 && #[trigger] self.text_key(j) == Some(x);
                        assert(j != i);
                    }
                    assert forall|x: Seq<char>| self.seen_texts(i).contains(x) implies self.seen_texts(i + 1).contains(x) by {
                        let j = choose|j: int| 0 <= j < i && #[trigger] self.text_key(j) == Some(x);
                        assert(self.text_key(j) == Some(x));
                    }
                }
            },
        }
    }

    /// One more row adds its numeric key (if any) to the distinct keys seen,
    /// and the row is a first appearance exactly when that key was new.
    pub proof fn lemma_seen_nums_grow(&self, i: int)
        requires
            0 <= i,
        ensures
            self.seen_nums(i + 1) == (match self.num_key(i) {
                Some(k) => self.seen_nums(i).insert(k),
                None => self.seen_nums(i),
            }),
            !self.is_text() ==> (self.num_key(i) matches Some(k) ==> (self.is_first(i) <==> !self.seen_nums(i).contains(k))),
            !self.is_text() ==> (self.num_key(i) is None ==> !self.is_first(i)),
    {
        self.lemma_seen_nums_step(i);
    }

    /// One more row adds its text (if any) to the distinct texts seen, and the
    /// row is a first appearance exactly when that text was new.
    pub proof fn lemma_seen_texts_grow(&self, i: int)
        requires
            0 <= i,
        ensures
            self.seen_texts(i + 1) == (match self.text_key(i) {
                Some(t) => self.seen_texts(i).insert(t),
                None => self.seen_texts(i),
            }),
            self.is_text() ==> (self.text_key(i) matches Some(t) ==> (self.is_first(i) <==> !self.seen_texts(i).contains(t))),
            self.is_text() ==> (self.text_key(i) is None ==> !self.is_first(i)),
    {
        self.lemma_seen_texts_step(i);
    }

    proof fn lemma_seen_empty(&self)
        ensures
            self.seen_nums(0) == Set::<int>::empty(),
            self.seen_texts(0) == Set::<Seq<char>>::empty(),
    {
        assert(self.seen_nums(0) =~= Set::<int>::empty());
        assert(self.seen_texts(0) =~= Set::<Seq<char>>::empty());
    }

    /// Returns the number of distinct non-null values. NaN and null rows are
    /// skipped, and `-0.0` counts as `0.0`. Categorical rows count by their
    /// label; a row whose key lies outside the dictionary has no value.
    pub fn n_unique(&self) -> (r: usize)
        ensures
            r == self.distinct_count(),
    {
        proof { self.lemma_seen_empty(); }
        match self {
            ColumnVector::Categorical { keys, values, validity } => {
                let mut seen = text_set_new();
                let mut i: usize = 0;
                while i < keys.len()
                    invariant
                        i <= keys@.len(),
                        self == (ColumnVector::Categorical { keys: *keys, values: *values, validity: *validity }),
                        text_set_contents(seen) == self.seen_texts(i as int),
                    decreases keys@.len() - i,
                {
                    proof { self.lemma_seen_texts_step(i as int); }
                    if Self::is_valid_in_mask(validity, i) && (keys[i] as usize) < values.len() {
                        text_set_insert(&mut seen, values[keys[i] as usize].clone());
                    }
                    i = i + 1;
                }
                text_set_len(&seen)
            },
            ColumnVector::String { data, validity } => {
                let mut seen = text_set_new();
                let mut i: usize = 0;
                while i < data.len()
                    invariant
                        i <= data@.len(),
                        self == (ColumnVector::String { data: *data, validity: *validity }),
                        text_set_contents(seen) == self.seen_texts(i as int),
                    decreases data@.len() - i,
                {
                    proof { self.lemma_seen_texts_step(i as int); }
                    if Self::is_valid_in_mask(validity, i) {
                        text_set_insert(&mut seen, data[i].clone());
                    }
                    i = i + 1;
                }
                text_set_len(&seen)
            },
            _ => {
                let n = self.len();
                let mut seen = int_set_new();
                let mut i: usize = 0;
                while i < n
                    invariant
                        i <= n,
                        n == self.spec_len(),
                        int_set_contents(seen) == self.seen_nums(i as int),
                    decreases n - i,
                {
                    proof { self.lemma_seen_nums_step(i as int); }
                    match self.num_key_at(i) {
                        Some(k) => {
                            int_set_insert(&mut seen, k);
                        },
                        None => {},
                    }
                    i = i + 1;
                }
                int_set_len(&seen)
            },
        }
    }
}

impl ColumnVector {
    /// `s` is the label of row `i`: its text for non-float columns, or a
    /// string that `float_text` returned for its bit pattern.
    pub open spec fn label_ok<F: Fn(FloatBits) -> String>(&self, i: int, s: String, float_text: F) -> bool {
        if self.is_float() {
            call_ensures(float_text, (self.float_at(i),), s)
        } else {
            self.label_at(i) == Some(s@)
        }
    }

    /// `float_text` never renders two different bit patterns as the same text.
    pub open spec fn injective_text<F: Fn(FloatBits) -> String>(float_text: F) -> bool {
        forall|a: FloatBits, b: FloatBits, s: String, t: String|
            #[trigger] call_ensures(float_text, (a,), s) && #[trigger] call_ensures(float_text, (b,), t) && s@ == t@
                ==> a == b
    }

    /// `float_text` renders a bit pattern as one text, whichever call it is.
    pub open spec fn deterministic_text<F: Fn(FloatBits) -> String>(float_text: F) -> bool {
        forall|b: FloatBits, s: String, t: String|
            #[trigger] call_ensures(float_text, (b,), s) && #[trigger] call_ensures(float_text, (b,), t) ==> s@ == t@
    }

    /// Whether a bit pattern is the negative zero of its format.
    pub open spec fn is_negative_zero(b: FloatBits) -> bool {
        match b {
            FloatBits::F64(x) => x == 0x8000_0000_0000_0000u64,
            FloatBits::F32(x) => x == 0x8000_0000u32,
        }
    }

    /// Some row of the column holds a negative zero.
    pub open spec fn has_negative_zero(&self) -> bool {
        exists|i: int| self.has_value(i) && Self::is_negative_zero(#[trigger] self.float_at(i))
    }

    fn row_label<F: Fn(FloatBits) -> String>(&self, i: usize, float_text: &F) -> (s: String)
        requires
            self.has_value(i as int),
            !(self is Categorical),
            forall|b: FloatBits| #[trigger] float_text.requires((b,)),
        ensures
            self.label_ok(i as int, s, *float_text),
    {
        match self.get_str(i, float_text) {
            Some(s) => s,
            None => String::new(),
        }
    }

    /// Returns the distinct non-null values as strings, in order of first
    /// appearance (NaN and null rows are skipped; `-0.0` and `0.0` count as one
    /// value, labelled by whichever comes first). Categorical rows give their
    /// dictionary entries; keys outside the dictionary are skipped.
    pub fn unique_values<F: Fn(FloatBits) -> String>(&self, float_text: &F) -> (r: Vec<String>)
        requires
            forall|b: FloatBits| #[trigger] float_text.requires((b,)),
        ensures
            r@.len() == self.first_rows(self.spec_len() as int).len(),
            forall|k: int| 0 <= k < r@.len() ==> self.label_ok(
                self.first_rows(self.spec_len() as int)[k],
                #[trigger] r@[k],
                *float_text,
            ),
            r@.len() == self.distinct_count(),
            (!self.is_float() || Self::injective_text(*float_text)) ==> forall|k: int, l: int|
                0 <= k < l < r@.len() ==> #[trigger] r@[k]@ != #[trigger] r@[l]@,
            !self.is_float() ==> forall|i: int| 0 <= i < self.spec_len() && #[trigger] self.label_at(i) is Some
                ==> exists|k: int| 0 <= k < r@.len() && Some(#[trigger] r@[k]@) == self.label_at(i),
            (self.is_float() && Self::deterministic_text(*float_text) && !self.has_negative_zero()) ==> forall|i: int, t: String|
                self.has_value(i) && #[trigger] call_ensures(*float_text, (self.float_at(i),), t) ==> exists|k: int|
                    0 <= k < r@.len() && #[trigger] r@[k]@ == t@,
    {
        proof { self.lemma_seen_empty(); }
        let mut result: Vec<String> = Vec::new();
        match self {
            ColumnVector::Categorical { keys, values, validity } => {
                let mut seen = text_set_new();
                let mut i: usize = 0;
                while i < keys.len()
                    invariant
                        i <= keys@.len(),
                        self == (ColumnVector::Categorical { keys: *keys, values: *values, validity: *validity }),
                        text_set_contents(seen) == self.seen_texts(i as int),
                        text_set_contents(seen).finite(),
                        result@.len() == self.first_rows(i as int).len(),
                        result@.len() == text_set_contents(seen).len(),
                        forall|k: int| 0 <= k < result@.len() ==> self.label_ok(
                            self.first_rows(i as int)[k],
                            #[trigger] result@[k],
                            *float_text,
                        ),
                    decreases keys@.len() - i,
                {
                    proof { self.lemma_seen_texts_step(i as int); }
                    if Self::is_valid_in_mask(validity, i) && (keys[i] as usize) < values.len() {
                        let label = values[keys[i] as usize].clone();
                        let fresh = text_set_insert(&mut seen, label.clone());
                        if fresh {
                            result.push(label);
                        }
                    }
                    proof {
                        if self.is_first(i as int) {
                            assert(self.first_rows(i + 1) == self.first_rows(i as int).push(i as int));
                        } else {
                            assert(self.first_rows(i + 1) == self.first_rows(i as int));
                        }
                    }
                    i = i + 1;
                }
            },
            ColumnVector::String { data, validity } => {
                let mut seen = text_set_new();
                let mut i: usize = 0;
                while i < data.len()
                    invariant
                        i <= data@.len(),
                        self == (ColumnVector::String { data: *data, validity: *validity }),
                        text_set_contents(seen) == self.seen_texts(i as int),
                        text_set_contents(seen).finite(),
                        result@.len() == self.first_rows(i as int).len(),
                        result@.len() == text_set_contents(seen).len(),
                        forall|k: int| 0 <= k < result@.len() ==> self.label_ok(
                            self.first_rows(i as int)[k],
                            #[trigger] result@[k],
                            *float_text,
                        ),
                    decreases data@.len() - i,
                {
                    proof { self.lemma_seen_texts_step(i as int); }
                    let ghost before = result@;
                    if Self::is_valid_in_mask(validity, i) {
                        let fresh = text_set_insert(&mut seen, data[i].clone());
                        if fresh {
                            result.push(data[i].clone());
                        }
                    }
                    proof {
                        if self.is_first(i as int) {
                            assert(self.first_rows(i + 1) == self.first_rows(i as int).push(i as int));
                        } else {
                            assert(self.first_rows(i + 1) == self.first_rows(i as int));
                        }
                    }
                    i = i + 1;
                }
            },
            _ => {
                let n = self.len();
                let mut seen = int_set_new();
                let mut i: usize = 0;
                while i < n
                    invariant
                        i <= n,
                        n == self.spec_len(),
                        !(self is String),
                        !(self is Categorical),
                        forall|b: FloatBits| #[trigger] float_text.requires((b,)),
                        int_set_contents(seen) == self.seen_nums(i as int),
                        int_set_contents(seen).finite(),
                        result@.len() == self.first_rows(i as int).len(),
                        result@.len() == int_set_contents(seen).len(),
                        forall|k: int| 0 <= k < result@.len() ==> self.label_ok(
                            self.first_rows(i as int)[k],
                            #[trigger] result@[k],
                            *float_text,
                        ),
                    decreases n - i,
                {
                    proof { self.lemma_seen_nums_step(i as int); }
                    match self.num_key_at(i) {
                        Some(k) => {
                            let fresh = int_set_insert(&mut seen, k);
                            if fresh {
                                let label = self.row_label(i, float_text);
                                result.push(label);
                            }
                        },
                        None => {},
                    }
                    proof {
                        if self.is_first(i as int) {
                            assert(self.first_rows(i + 1) == self.first_rows(i as int).push(i as int));
                        } else {
                            assert(self.first_rows(i + 1) == self.first_rows(i as int));
                        }
                    }
                    i = i + 1;
                }
            },
        }
        proof { crate::laws::law_unique_values(*self, result@, *float_text); }
        result
    }
}

impl ColumnVector {
    /// The validity mask of the column.
    pub(crate) fn validity_ref(&self) -> (r: &Option<Vec<u8>>)
        ensures
            *r == self.mask(),
    {
        match self {
            ColumnVector::Boolean { validity, .. } => validity,
            ColumnVector::Int8 { validity, .. } => validity,
            ColumnVector::Int16 { validity, .. } => validity,
            ColumnVector::Int32 { validity, .. } => validity,
            ColumnVector::Int64 { validity, .. } => validity,
            ColumnVector::UInt32 { validity, .. } => validity,
            ColumnVector::UInt64 { validity, .. } => validity,
            ColumnVector::Float32 { validity, .. } => validity,
            ColumnVector::Float64 { validity, .. } => validity,
            ColumnVector::String { validity, .. } => validity,
            ColumnVector::Categorical { validity, .. } => validity,
            ColumnVector::Date { validity, .. } => validity,
            ColumnVector::Datetime { validity, .. } => validity,
            ColumnVector::Duration { validity, .. } => validity,
            ColumnVector::Time { validity, .. } => validity,
        }
    }
}

} // verus!
