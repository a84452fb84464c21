//! Building columns from plain vectors.

use vstd::prelude::*;
use vstd::string::*;
use vstd::std_specs::convert::IntoSpec;
use crate::bitmask::{collect_with_validity, mask_bit, mask_valid, bytes_for};
use crate::column::{ColumnVector, TimeUnit};

verus! {

/// `data` and `validity` lay out `items`: present values in place, `default`
/// in the null slots, and a mask (only when some item is null) whose bits
/// mark the present items.
pub open spec fn options_layout<T>(data: Seq<T>, validity: Option<Vec<u8>>, items: Seq<Option<T>>, default: T) -> bool {
    &&& data.len() == items.len()
    &&& forall|i: int| #![trigger data[i]] 0 <= i < items.len() ==> match items[i] {
        Some(v) => data[i] == v,
        None => data[i] == default,
    }
    &&& (validity is Some <==> exists|i: int| 0 <= i < items.len() && items[i] is None)
    &&& (validity matches Some(m) ==> m@.len() == bytes_for(items.len() as int))
    &&& forall|i: int| 0 <= i < items.len() ==> (mask_valid(validity, i) <==> items[i] is Some)
    &&& (validity matches Some(m) ==> forall|i: int| #[trigger] mask_bit(m@, i) <==> (0 <= i < items.len() && items[i] is Some))
}

/// Converts each optional string slice to an optional owned string.
fn owned_options(v: Vec<Option<&str>>) -> (r: Vec<Option<String>>)
    ensures
        r@.len() == v@.len(),
        forall|i: int| 0 <= i < v@.len() ==> match (v@[i], #[trigger] r@[i]) {
            (Some(a), Some(b)) => b@ == a@,
            (None, None) => true,
            _ => false,
        },
{
    let mut r: Vec<Option<String>> = Vec::new();
    let mut i: usize = 0;
    while i < v.len()
        invariant
            i <= v@.len(),
            r@.len() == i,
            forall|k: int| 0 <= k < i ==> match (v@[k], #[trigger] r@[k]) {
                (Some(a), Some(b)) => b@ == a@,
                (None, None) => true,
                _ => false,
            },
        decreases v@.len() - i,
    {
        match v[i] {
            Some(s) => r.push(Some(String::from_str(s))),
            None => r.push(None),
        }
        i = i + 1;
    }
    r
}

/// Converts string slices to owned strings.
fn owned_strings(v: Vec<&str>) -> (r: Vec<String>)
    ensures
        r@.len() == v@.len(),
        forall|i: int| 0 <= i < v@.len() ==> #[trigger] r@[i]@ == v@[i]@,
{
    let mut r: Vec<String> = Vec::new();
    let mut i: usize = 0;
    while i < v.len()
        invariant
            i <= v@.len(),
            r@.len() == i,
            forall|k: int| 0 <= k < i ==> #[trigger] r@[k]@ == v@[k]@,
        decreases v@.len() - i,
    {
        r.push(String::from_str(v[i]));
        i = i + 1;
    }
    r
}

impl From<Vec<Option<i64>>> for ColumnVector {
    /// An `Int64` column; `None` entries become null rows holding 0.
    fn from(v: Vec<Option<i64>>) -> (r: Self)
        ensures
            match r {
                ColumnVector::Int64 { data, validity } => options_layout(data@, validity, v@, 0i64),
                _ => false,
            },
    {
        let (data, validity) = collect_with_validity(v, 0i64);
        ColumnVector::Int64 { data, validity }
    }
}

impl vstd::std_specs::convert::FromSpecImpl<Vec<Option<i64>>> for ColumnVector {
    open spec fn obeys_from_spec() -> bool {
        false
    }

    open spec fn from_spec(v: Vec<Option<i64>>) -> ColumnVector {
        vstd::pervasive::arbitrary()
    }
}

impl From<Vec<i64>> for ColumnVector {
    /// An `Int64` column with every row valid.
    fn from(data: Vec<i64>) -> (r: Self)
        ensures
            r == (ColumnVector::Int64 { data: data, validity: None }),
    {
        ColumnVector::Int64 { data, validity: None }
    }
}

impl vstd::std_specs::convert::FromSpecImpl<Vec<i64>> for ColumnVector {
    open spec fn obeys_from_spec() -> bool {
        true
    }

    open spec fn from_spec(v: Vec<i64>) -> ColumnVector {
        ColumnVector::Int64 { data: v, validity: None }
    }
}

impl From<Vec<Option<i32>>> for ColumnVector {
    /// An `Int32` column; `None` entries become null rows holding 0.
    fn from(v: Vec<Option<i32>>) -> (r: Self)
        ensures
            match r {
                ColumnVector::Int32 { data, validity } => options_layout(data@, validity, v@, 0i32),
                _ => false,
            },
    {
        let (data, validity) = collect_with_validity(v, 0i32);
        ColumnVector::Int32 { data, validity }
    }
}

impl vstd::std_specs::convert::FromSpecImpl<Vec<Option<i32>>> for ColumnVector {
    open spec fn obeys_from_spec() -> bool {
        false
    }

    open spec fn from_spec(v: Vec<Option<i32>>) -> ColumnVector {
        vstd::pervasive::arbitrary()
    }
}

impl From<Vec<i32>> for ColumnVector {
    /// An `Int32` column with every row valid.
    fn from(data: Vec<i32>) -> (r: Self)
        ensures
            r == (ColumnVector::Int32 { data: data, validity: None }),
    {
        ColumnVector::Int32 { data, validity: None }
    }
}

impl vstd::std_specs::convert::FromSpecImpl<Vec<i32>> for ColumnVector {
    open spec fn obeys_from_spec() -> bool {
        true
    }

    open spec fn from_spec(v: Vec<i32>) -> ColumnVector {
        ColumnVector::Int32 { data: v, validity: None }
    }
}

impl From<Vec<Option<u32>>> for ColumnVector {
    /// An `UInt32` column; `None` entries become null rows holding 0.
    fn from(v: Vec<Option<u32>>) -> (r: Self)
        ensures
            match r {
                ColumnVector::UInt32 { data, validity } => options_layout(data@, validity, v@, 0u32),
                _ => false,
            },
    {
        let (data, validity) = collect_with_validity(v, 0u32);
        ColumnVector::UInt32 { data, validity }
    }
}

impl vstd::std_specs::convert::FromSpecImpl<Vec<Option<u32>>> for ColumnVector {
    open spec fn obeys_from_spec() -> bool {
        false
    }

    open spec fn from_spec(v: Vec<Option<u32>>) -> ColumnVector {
        vstd::pervasive::arbitrary()
    }
}

impl From<Vec<u32>> for ColumnVector {
    /// An `UInt32` column with every row valid.
    fn from(data: Vec<u32>) -> (r: Self)
        ensures
            r == (ColumnVector::UInt32 { data: data, validity: None }),
    {
        ColumnVector::UInt32 { data, validity: None }
    }
}

impl vstd::std_specs::convert::FromSpecImpl<Vec<u32>> for ColumnVector {
    open spec fn obeys_from_spec() -> bool {
        true
    }

    open spec fn from_spec(v: Vec<u32>) -> ColumnVector {
        ColumnVector::UInt32 { data: v, validity: None }
    }
}

impl From<Vec<Option<String>>> for ColumnVector {
    /// A `String` column; `None` entries become null rows holding "".
    fn from(v: Vec<Option<String>>) -> (r: Self)
        ensures
            match r {
                ColumnVector::String { data, validity } => {
                    &&& data@.len() == v@.len()
                    &&& forall|i: int| #![trigger data@[i]] 0 <= i < v@.len() ==> match v@[i] {
                        Some(s) => data@[i] == s,
                        None => data@[i]@ == Seq::<char>::empty(),
                    }
                    &&& (validity is Some <==> exists|i: int| 0 <= i < v@.len() && v@[i] is None)
                    &&& forall|i: int| 0 <= i < v@.len() ==> (mask_valid(validity, i) <==> v@[i] is Some)
                    &&& (validity matches Some(m) ==> m@.len() == bytes_for(v@.len() as int))
                },
                _ => false,
            },
    {
        let (data, validity) = collect_with_validity(v, String::new());
        ColumnVector::String { data, validity }
    }
}

impl vstd::std_specs::convert::FromSpecImpl<Vec<Option<String>>> for ColumnVector {
    open spec fn obeys_from_spec() -> bool {
        false
    }

    open spec fn from_spec(v: Vec<Option<String>>) -> ColumnVector {
        vstd::pervasive::arbitrary()
    }
}

impl<'a> From<Vec<Option<&'a str>>> for ColumnVector {
    /// A `String` column; `None` entries become null rows holding "".
    fn from(v: Vec<Option<&'a str>>) -> (r: Self)
        ensures
            match r {
                ColumnVector::String { data, validity } => {
                    &&& data@.len() == v@.len()
                    &&& forall|i: int| #![trigger data@[i]] 0 <= i < v@.len() ==> match v@[i] {
                        Some(s) => data@[i]@ == s@,
                        None => data@[i]@ == Seq::<char>::empty(),
                    }
                    &&& (validity is Some <==> exists|i: int| 0 <= i < v@.len() && v@[i] is None)
                    &&& forall|i: int| 0 <= i < v@.len() ==> (mask_valid(validity, i) <==> v@[i] is Some)
                    &&& (validity matches Some(m) ==> m@.len() == bytes_for(v@.len() as int))
                },
                _ => false,
            },
    {
        let ghost src = v@;
        let owned = owned_options(v);
        let (data, validity) = collect_with_validity(owned, String::new());
        proof {
            assert forall|i: int| 0 <= i < src.len() && src[i] is None implies owned@[i] is None by {}
            assert forall|i: int| 0 <= i < src.len() && owned@[i] is None implies src[i] is None by {}
        }
        ColumnVector::String { data, validity }
    }
}

impl<'a> vstd::std_specs::convert::FromSpecImpl<Vec<Option<&'a str>>> for ColumnVector {
    open spec fn obeys_from_spec() -> bool {
        false
    }

    open spec fn from_spec(v: Vec<Option<&'a str>>) -> ColumnVector {
        vstd::pervasive::arbitrary()
    }
}

impl From<Vec<String>> for ColumnVector {
    /// A `String` column with every row valid.
    fn from(data: Vec<String>) -> (r: Self)
        ensures
            r == (ColumnVector::String { data: data, validity: None }),
    {
        ColumnVector::String { data, validity: None }
    }
}

impl vstd::std_specs::convert::FromSpecImpl<Vec<String>> for ColumnVector {
    open spec fn obeys_from_spec() -> bool {
        true
    }

    open spec fn from_spec(v: Vec<String>) -> ColumnVector {
        ColumnVector::String { data: v, validity: None }
    }
}

impl<'a> From<Vec<&'a str>> for ColumnVector {
    /// A `String` column with every row valid.
    fn from(v: Vec<&'a str>) -> (r: Self)
        ensures
            match r {
                ColumnVector::String { data, validity } => validity is None && data@.len() == v@.len()
                    && forall|i: int| 0 <= i < v@.len() ==> #[trigger] data@[i]@ == v@[i]@,
                _ => false,
            },
    {
        ColumnVector::String { data: owned_strings(v), validity: None }
    }
}

impl<'a> vstd::std_specs::convert::FromSpecImpl<Vec<&'a str>> for ColumnVector {
    open spec fn obeys_from_spec() -> bool {
        false
    }

    open spec fn from_spec(v: Vec<&'a str>) -> ColumnVector {
        vstd::pervasive::arbitrary()
    }
}

/// A tick count in seconds as milliseconds; `None` when the product
/// overflows `i64` (and for a null tick).
pub open spec fn scaled_millis(tick: Option<i64>) -> Option<i64> {
    match tick {
        Some(s) => if i64::MIN <= s * 1000 <= i64::MAX { Some((s * 1000) as i64) } else { None },
        None => None,
    }
}

/// Rescales second ticks to milliseconds (`TimeUnit` has no seconds); a tick
/// whose product overflows `i64` becomes null.
pub fn seconds_to_milliseconds(v: Vec<Option<i64>>) -> (r: Vec<Option<i64>>)
    ensures
        r@ == v@.map_values(|t: Option<i64>| scaled_millis(t)),
{
    let mut r: Vec<Option<i64>> = Vec::new();
    let mut i: usize = 0;
    while i < v.len()
        invariant
            i <= v@.len(),
            r@.len() == i,
            forall|k: int| 0 <= k < i ==> #[trigger] r@[k] == scaled_millis(v@[k]),
        decreases v@.len() - i,
    {
        match v[i] {
            Some(s) => r.push(s.checked_mul(1000)),
            None => r.push(None),
        }
        i = i + 1;
    }
    assert(r@ =~= v@.map_values(|t: Option<i64>| scaled_millis(t)));
    r
}

/// An instant given in nanoseconds since the UNIX epoch, as whole
/// microseconds (rounded down); `None` when that does not fit in `i64`
/// (and for a missing instant).
pub open spec fn nanos_as_micros(nanos: Option<i128>) -> Option<i64> {
    match nanos {
        Some(n) => if i64::MIN <= (n as int) / 1000 <= i64::MAX { Some(((n as int) / 1000) as i64) } else { None },
        None => None,
    }
}

proof fn lemma_floor_negative(n: int, a: int, q: int)
    by (nonlinear_arith)
    requires
        n < 0,
        a == -(n + 1),
        q == a / 1000,
    ensures
        -q - 1 == n / 1000,
{
}

fn floor_micros(n: i128) -> (r: Option<i64>)
    ensures
        r == nanos_as_micros(Some(n)),
{
    let f: i128 = if n >= 0 {
        let q: u128 = (n as u128) / 1000;
        q as i128
    } else {
        let a: u128 = (-(n + 1)) as u128;
        let q: u128 = a / 1000;
        proof { lemma_floor_negative(n as int, a as int, q as int); }
        -(q as i128) - 1
    };
    if -0x8000_0000_0000_0000i128 <= f && f <= 0x7FFF_FFFF_FFFF_FFFFi128 { Some(f as i64) } else { None }
}

/// A `Datetime` column in microseconds from instants given in nanoseconds
/// since the UNIX epoch (as `time::OffsetDateTime::unix_timestamp_nanos`
/// gives them). Missing instants, and instants outside the `i64` range of
/// microseconds, become null rows holding the epoch (0).
pub fn datetime_from_nanos(nanos: Vec<Option<i128>>) -> (r: ColumnVector)
    ensures
        r matches ColumnVector::Datetime { data, validity, unit } && unit == TimeUnit::Microseconds
            && options_layout(data@, validity, nanos@.map_values(|n: Option<i128>| nanos_as_micros(n)), 0i64),
{
    let mut micros: Vec<Option<i64>> = Vec::new();
    let mut i: usize = 0;
    while i < nanos.len()
        invariant
            i <= nanos@.len(),
            micros@.len() == i,
            forall|k: int| 0 <= k < i ==> #[trigger] micros@[k] == nanos_as_micros(nanos@[k]),
        decreases nanos@.len() - i,
    {
        match nanos[i] {
            Some(n) => micros.push(floor_micros(n)),
            None => micros.push(None),
        }
        i = i + 1;
    }
    assert(micros@ =~= nanos@.map_values(|n: Option<i128>| nanos_as_micros(n)));
    let (data, validity) = collect_with_validity(micros, 0i64);
    ColumnVector::Datetime { data, validity, unit: TimeUnit::Microseconds }
}

/// `v` holds clones of `items`, in order.
pub open spec fn clones_of<T: Clone>(v: Seq<T>, items: Seq<T>) -> bool {
    &&& v.len() == items.len()
    &&& forall|i: int| 0 <= i < items.len() ==> cloned(items[i], #[trigger] v[i])
}

/// Clones the items of a slice into a vector.
fn cloned_items<T: Clone>(items: &[T]) -> (r: Vec<T>)
    ensures
        clones_of(r@, items@),
{
    let mut r: Vec<T> = Vec::new();
    let mut i: usize = 0;
    while i < items.len()
        invariant
            i <= items@.len(),
            r@.len() == i,
            forall|k: int| 0 <= k < i ==> cloned(items@[k], #[trigger] r@[k]),
        decreases items@.len() - i,
    {
        r.push(items[i].clone());
        i = i + 1;
    }
    r
}

/// `r` is what converting some vector of clones of `items` gives.
pub open spec fn converted_clones<T: Clone>(r: ColumnVector, items: Seq<T>) -> bool where Vec<T>: Into<ColumnVector> {
    exists|v: Vec<T>| clones_of(v@, items) && (<Vec<T> as IntoSpec<ColumnVector>>::obeys_into_spec() ==> r
        == v.into_spec())
}

fn convert_clones<T: Clone>(items: &[T]) -> (r: ColumnVector) where Vec<T>: Into<ColumnVector>
    ensures
        converted_clones(r, items@),
{
    let v = cloned_items(items);
    let ghost vv = v;
    let r: ColumnVector = v.into();
    assert(clones_of(vv@, items@) && (<Vec<T> as IntoSpec<ColumnVector>>::obeys_into_spec() ==> r == vv.into_spec()));
    r
}

impl<T: Clone, const N: usize> From<[T; N]> for ColumnVector where Vec<T>: Into<ColumnVector> {
    /// Converts the items as the conversion of a `Vec` of them does.
    fn from(arr: [T; N]) -> (r: Self)
        ensures
            converted_clones(r, arr@),
    {
        convert_clones(arr.as_slice())
    }
}

impl<T: Clone, const N: usize> vstd::std_specs::convert::FromSpecImpl<[T; N]> for ColumnVector where Vec<T>: Into<ColumnVector> {
    open spec fn obeys_from_spec() -> bool {
        false
    }

    open spec fn from_spec(v: [T; N]) -> ColumnVector {
        vstd::pervasive::arbitrary()
    }
}

impl<'a, T: Clone, const N: usize> From<&'a [T; N]> for ColumnVector where Vec<T>: Into<ColumnVector> {
    /// Converts clones of the items as the conversion of a `Vec` does.
    fn from(arr: &'a [T; N]) -> (r: Self)
        ensures
            converted_clones(r, arr@),
    {
        convert_clones(arr.as_slice())
    }
}

impl<'a, T: Clone, const N: usize> vstd::std_specs::convert::FromSpecImpl<&'a [T; N]> for ColumnVector where Vec<T>: Into<ColumnVector> {
    open spec fn obeys_from_spec() -> bool {
        false
    }

    open spec fn from_spec(v: &'a [T; N]) -> ColumnVector {
        vstd::pervasive::arbitrary()
    }
}

impl<'a, T: Clone> From<&'a [T]> for ColumnVector where Vec<T>: Into<ColumnVector> {
    /// Converts clones of the items as the conversion of a `Vec` does.
    fn from(items: &'a [T]) -> (r: Self)
        ensures
            converted_clones(r, items@),
    {
        convert_clones(items)
    }
}

impl<'a, T: Clone> vstd::std_specs::convert::FromSpecImpl<&'a [T]> for ColumnVector where Vec<T>: Into<ColumnVector> {
    open spec fn obeys_from_spec() -> bool {
        false
    }

    open spec fn from_spec(v: &'a [T]) -> ColumnVector {
        vstd::pervasive::arbitrary()
    }
}

impl<'a, T: Clone> From<&'a Vec<T>> for ColumnVector where Vec<T>: Into<ColumnVector> {
    /// Converts clones of the items as the conversion of a `Vec` does.
    fn from(items: &'a Vec<T>) -> (r: Self)
        ensures
            converted_clones(r, items@),
    {
        convert_clones(items.as_slice())
    }
}

impl<'a, T: Clone> vstd::std_specs::convert::FromSpecImpl<&'a Vec<T>> for ColumnVector where Vec<T>: Into<ColumnVector> {
    open spec fn obeys_from_spec() -> bool {
        false
    }

    open spec fn from_spec(v: &'a Vec<T>) -> ColumnVector {
        vstd::pervasive::arbitrary()
    }
}

/// Conversion into a column, for any value that converts into one.
pub trait IntoColumn {
    /// Consumes the value and converts it into a `ColumnVector`.
    fn into_column(self) -> ColumnVector;
}

impl<T: Into<ColumnVector>> IntoColumn for T {
    fn into_column(self) -> (r: ColumnVector)
        ensures
            <T as IntoSpec<ColumnVector>>::obeys_into_spec() ==> r == self.into_spec(),
    {
        self.into()
    }
}

} // verus!
