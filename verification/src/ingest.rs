//! Building a column from the slots of an Arrow array.
//!
//! The caller reads the array slot by slot (a null slot as `None`) into an
//! `ArrowValues`, tagged by the array's data type; this module decides the
//! column type, the null filler and the time unit.

use vstd::prelude::*;
use crate::bitmask::{collect_with_validity, mask_valid, bytes_for};
use crate::column::{ColumnVector, TimeUnit};
use crate::convert::{options_layout, scaled_millis, seconds_to_milliseconds};

verus! {

/// Tick resolution of Arrow timestamps and durations.
#[derive(Clone, Copy, Debug, PartialEq, Eq, Structural)]
pub enum SourceUnit {
    Second,
    Millisecond,
    Microsecond,
    Nanosecond,
}

/// The slots of an Arrow array of a supported data type, `None` for a null
/// slot. Floats are carried as their bit patterns.
pub enum ArrowValues {
    Float64(Vec<Option<u64>>),
    Float32(Vec<Option<u32>>),
    Int64(Vec<Option<i64>>),
    Int32(Vec<Option<i32>>),
    Int16(Vec<Option<i16>>),
    Int8(Vec<Option<i8>>),
    UInt64(Vec<Option<u64>>),
    UInt32(Vec<Option<u32>>),
    Boolean(Vec<Option<bool>>),
    /// `Utf8` and `LargeUtf8` arrays.
    Utf8(Vec<Option<String>>),
    /// Days since the UNIX epoch.
    Date32(Vec<Option<i32>>),
    Timestamp(Vec<Option<i64>>, SourceUnit),
    Duration(Vec<Option<i64>>, SourceUnit),
    /// `Time32` and `Time64` arrays: ticks of the unit since midnight,
    /// widened to 64 bits.
    Time(Vec<Option<i64>>, SourceUnit),
}

/// The column unit for a source unit: seconds are kept as milliseconds.
pub open spec fn kept_unit(unit: SourceUnit) -> TimeUnit {
    match unit {
        SourceUnit::Second => TimeUnit::Milliseconds,
        SourceUnit::Millisecond => TimeUnit::Milliseconds,
        SourceUnit::Microsecond => TimeUnit::Microseconds,
        SourceUnit::Nanosecond => TimeUnit::Nanoseconds,
    }
}

/// The ticks as stored: second ticks rescaled to milliseconds (null when
/// they overflow), other units unchanged.
pub open spec fn kept_ticks(items: Seq<Option<i64>>, unit: SourceUnit) -> Seq<Option<i64>> {
    if unit == SourceUnit::Second {
        items.map_values(|t: Option<i64>| scaled_millis(t))
    } else {
        items
    }
}

/// Nanoseconds per tick of `unit`.
pub open spec fn source_tick_nanos(unit: SourceUnit) -> int {
    match unit {
        SourceUnit::Second => 1_000_000_000,
        SourceUnit::Millisecond => 1_000_000,
        SourceUnit::Microsecond => 1_000,
        SourceUnit::Nanosecond => 1,
    }
}

/// A tick of `unit` as nanoseconds; `None` when the product overflows `i64`
/// (and for a null tick).
pub open spec fn tick_nanos(tick: Option<i64>, unit: SourceUnit) -> Option<i64> {
    match tick {
        Some(t) => if i64::MIN <= t * source_tick_nanos(unit) <= i64::MAX {
            Some((t * source_tick_nanos(unit)) as i64)
        } else {
            None
        },
        None => None,
    }
}

/// `data` and `validity` lay out optional strings: present strings in
/// place, "" in null slots, and a mask only when some slot is null.
pub open spec fn text_layout(data: Seq<String>, validity: Option<Vec<u8>>, items: Seq<Option<String>>) -> bool {
    &&& data.len() == items.len()
    &&& forall|i: int| #![trigger data[i]] 0 <= i < items.len() ==> match items[i] {
        Some(s) => data[i] == s,
        None => data[i]@ == Seq::<char>::empty(),
    }
    &&& (validity is Some <==> exists|i: int| 0 <= i < items.len() && items[i] is None)
    &&& forall|i: int| 0 <= i < items.len() ==> (mask_valid(validity, i) <==> items[i] is Some)
    &&& (validity matches Some(m) ==> m@.len() == bytes_for(items.len() as int))
}

/// The quiet NaN that fills null slots of binary64 columns.
pub const NAN_F64_BITS: u64 = 0x7FF8_0000_0000_0000u64;

/// The quiet NaN that fills null slots of binary32 columns.
pub const NAN_F32_BITS: u32 = 0x7FC0_0000u32;

/// `col` is the column built from `values`: the column type that matches the
/// Arrow type; null slots filled with NaN in float columns, and with zero,
/// `false` or "" in the others; timestamps as `Datetime` and durations as
/// `Duration` in `kept_unit`; times of day as nanoseconds since midnight
/// (null where the conversion overflows).
pub open spec fn arrow_column(values: ArrowValues, col: ColumnVector) -> bool {
    match values {
        ArrowValues::Float64(items) => col matches ColumnVector::Float64 { data, validity }
            && options_layout(data@, validity, items@, NAN_F64_BITS),
        ArrowValues::Float32(items) => col matches ColumnVector::Float32 { data, validity }
            && options_layout(data@, validity, items@, NAN_F32_BITS),
        ArrowValues::Int64(items) => col matches ColumnVector::Int64 { data, validity }
            && options_layout(data@, validity, items@, 0i64),
        ArrowValues::Int32(items) => col matches ColumnVector::Int32 { data, validity }
            && options_layout(data@, validity, items@, 0i32),
        ArrowValues::Int16(items) => col matches ColumnVector::Int16 { data, validity }
            && options_layout(data@, validity, items@, 0i16),
        ArrowValues::Int8(items) => col matches ColumnVector::Int8 { data, validity }
            && options_layout(data@, validity, items@, 0i8),
        ArrowValues::UInt64(items) => col matches ColumnVector::UInt64 { data, validity }
            && options_layout(data@, validity, items@, 0u64),
        ArrowValues::UInt32(items) => col matches ColumnVector::UInt32 { data, validity }
            && options_layout(data@, validity, items@, 0u32),
        ArrowValues::Boolean(items) => col matches ColumnVector::Boolean { data, validity }
            && options_layout(data@, validity, items@, false),
        ArrowValues::Utf8(items) => col matches ColumnVector::String { data, validity }
            && text_layout(data@, validity, items@),
        ArrowValues::Date32(items) => col matches ColumnVector::Date { data, validity }
            && options_layout(data@, validity, items@, 0i32),
        ArrowValues::Timestamp(items, unit) => col matches ColumnVector::Datetime { data, validity, unit: u }
            && u == kept_unit(unit) && options_layout(data@, validity, kept_ticks(items@, unit), 0i64),
        ArrowValues::Duration(items, unit) => col matches ColumnVector::Duration { data, validity, unit: u }
            && u == kept_unit(unit) && options_layout(data@, validity, kept_ticks(items@, unit), 0i64),
        ArrowValues::Time(items, unit) => col matches ColumnVector::Time { data, validity }
            && options_layout(data@, validity, items@.map_values(|t: Option<i64>| tick_nanos(t, unit)), 0i64),
    }
}

fn column_unit(unit: SourceUnit) -> (r: TimeUnit)
    ensures
        r == kept_unit(unit),
{
    match unit {
        SourceUnit::Second => TimeUnit::Milliseconds,
        SourceUnit::Millisecond => TimeUnit::Milliseconds,
        SourceUnit::Microsecond => TimeUnit::Microseconds,
        SourceUnit::Nanosecond => TimeUnit::Nanoseconds,
    }
}

fn stored_ticks(items: Vec<Option<i64>>, unit: SourceUnit) -> (r: Vec<Option<i64>>)
    ensures
        r@ == kept_ticks(items@, unit),
{
    match unit {
        SourceUnit::Second => seconds_to_milliseconds(items),
        _ => items,
    }
}

/// Converts ticks of `unit` to nanoseconds (null where the product overflows).
fn ticks_to_nanos(items: Vec<Option<i64>>, unit: SourceUnit) -> (r: Vec<Option<i64>>)
    ensures
        r@ == items@.map_values(|t: Option<i64>| tick_nanos(t, unit)),
{
    let factor: i64 = match unit {
        SourceUnit::Second => 1_000_000_000,
        SourceUnit::Millisecond => 1_000_000,
        SourceUnit::Microsecond => 1_000,
        SourceUnit::Nanosecond => 1,
    };
    let mut r: Vec<Option<i64>> = Vec::new();
    let mut i: usize = 0;
    while i < items.len()
        invariant
            i <= items@.len(),
            r@.len() == i,
            factor == source_tick_nanos(unit),
            forall|k: int| 0 <= k < i ==> #[trigger] r@[k] == tick_nanos(items@[k], unit),
        decreases items@.len() - i,
    {
        match items[i] {
            Some(t) => r.push(t.checked_mul(factor)),
            None => r.push(None),
        }
        i = i + 1;
    }
    assert(r@ =~= items@.map_values(|t: Option<i64>| tick_nanos(t, unit)));
    r
}

impl ColumnVector {
    /// Builds the column for the slots of an Arrow array (see `arrow_column`).
    pub fn from_arrow_values(values: ArrowValues) -> (r: ColumnVector)
        ensures
            arrow_column(values, r),
    {
        match values {
            ArrowValues::Float64(items) => {
                let (data, validity) = collect_with_validity(items, NAN_F64_BITS);
                ColumnVector::Float64 { data, validity }
            },
            ArrowValues::Float32(items) => {
                let (data, validity) = collect_with_validity(items, NAN_F32_BITS);
                ColumnVector::Float32 { data, validity }
            },
            ArrowValues::Int64(items) => {
                let (data, validity) = collect_with_validity(items, 0i64);
                ColumnVector::Int64 { data, validity }
            },
            ArrowValues::Int32(items) => {
                let (data, validity) = collect_with_validity(items, 0i32);
                ColumnVector::Int32 { data, validity }
            },
            ArrowValues::Int16(items) => {
                let (data, validity) = collect_with_validity(items, 0i16);
                ColumnVector::Int16 { data, validity }
            },
            ArrowValues::Int8(items) => {
                let (data, validity) = collect_with_validity(items, 0i8);
                ColumnVector::Int8 { data, validity }
            },
            ArrowValues::UInt64(items) => {
                let (data, validity) = collect_with_validity(items, 0u64);
                ColumnVector::UInt64 { data, validity }
            },
            ArrowValues::UInt32(items) => {
                let (data, validity) = collect_with_validity(items, 0u32);
                ColumnVector::UInt32 { data, validity }
            },
            ArrowValues::Boolean(items) => {
                let (data, validity) = collect_with_validity(items, false);
                ColumnVector::Boolean { data, validity }
            },
            ArrowValues::Utf8(items) => ColumnVector::from(items),
            ArrowValues::Date32(items) => {
                let (data, validity) = collect_with_validity(items, 0i32);
                ColumnVector::Date { data, validity }
            },
            ArrowValues::Timestamp(items, unit) => {
                let (data, validity) = collect_with_validity(stored_ticks(items, unit), 0i64);
                ColumnVector::Datetime { data, validity, unit: column_unit(unit) }
            },
            ArrowValues::Duration(items, unit) => {
                let (data, validity) = collect_with_validity(stored_ticks(items, unit), 0i64);
                ColumnVector::Duration { data, validity, unit: column_unit(unit) }
            },
            ArrowValues::Time(items, unit) => {
                let (data, validity) = collect_with_validity(ticks_to_nanos(items, unit), 0i64);
                ColumnVector::Time { data, validity }
            },
        }
    }
}

} // verus!
