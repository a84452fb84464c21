//! Properties that relate several operations of the library.

use vstd::prelude::*;
use crate::bitmask::{mask_valid, mask_bit};
use crate::column::{ColumnVector, FloatBits, IntCell, NumericValue, RawCell, TimeUnit};
use crate::dataset::{combined_bit, null_at};
use crate::ingest::{arrow_column, kept_unit, kept_ticks, source_tick_nanos, tick_nanos, ArrowValues, SourceUnit};
use crate::convert::{options_layout, scaled_millis};
use crate::timefmt::nanos_per_tick;
use crate::text::lemma_decimal_text_injective;
use crate::dataset::Dataset;
use crate::error::ChartonError;
use crate::group::{grouping, find_group, lemma_find_group_range};

verus! {

/// Reordering rows keeps each row's content and null state: when `taken` holds
/// the rows `indices` of `src` (as `take`, `slice`, `head`, `tail` and
/// `take_rows` produce), row `j` of `taken` reads exactly like row
/// `indices[j]` of `src`: same validity, same label, same numeric value, same
/// distinct-value key.
pub proof fn law_take_keeps_rows(taken: ColumnVector, src: ColumnVector, indices: Seq<usize>, j: int)
    requires
        taken.is_take_of(&src, indices),
        0 <= j < indices.len(),
        indices[j] < src.spec_len(),
    ensures
        mask_valid(taken.mask(), j) == mask_valid(src.mask(), indices[j] as int),
        taken.has_value(j) == src.has_value(indices[j] as int),
        taken.label_at(j) == src.label_at(indices[j] as int),
        taken.numeric_at(j) == src.numeric_at(indices[j] as int),
        taken.num_key(j) == src.num_key(indices[j] as int),
        taken.text_key(j) == src.text_key(indices[j] as int),
        taken.is_float() ==> taken.float_at(j) == src.float_at(indices[j] as int),
{
    let i = indices[j] as int;
    assert(taken.raw(j) == src.raw(i));
    match taken.mask() {
        Some(m) => {
            assert(crate::bitmask::mask_bit(m@, j) <==> mask_valid(src.mask(), i));
        },
        None => {},
    }
    match src {
        ColumnVector::Boolean { .. } => {},
        ColumnVector::Int8 { .. } => {},
        ColumnVector::Int16 { .. } => {},
        ColumnVector::Int32 { .. } => {},
        ColumnVector::Int64 { .. } => {},
        ColumnVector::UInt32 { .. } => {},
        ColumnVector::UInt64 { .. } => {},
        ColumnVector::Float32 { .. } => {},
        ColumnVector::Float64 { .. } => {},
        ColumnVector::String { .. } => {},
        ColumnVector::Categorical { .. } => {},
        ColumnVector::Date { .. } => {},
        ColumnVector::Datetime { .. } => {},
        ColumnVector::Duration { .. } => {},
        ColumnVector::Time { .. } => {},
    }
}

/// The index list of taking `inner` from the result of taking `outer`:
/// position `j` reads row `outer[inner[j]]` of the source.
pub open spec fn composed_indices(outer: Seq<usize>, inner: Seq<usize>) -> Seq<usize> {
    inner.map_values(|k: usize| outer[k as int])
}

/// Taking twice is taking once through the composed index list: when `t1`
/// holds the rows `outer` of `src` and `t2` the rows `inner` of `t1`, then
/// `t2` holds the rows `composed_indices(outer, inner)` of `src`, validity
/// included.
pub proof fn law_take_composes(t2: ColumnVector, t1: ColumnVector, src: ColumnVector, outer: Seq<usize>, inner: Seq<usize>)
    requires
        t1.is_take_of(&src, outer),
        t2.is_take_of(&t1, inner),
        forall|j: int| 0 <= j < inner.len() ==> #[trigger] inner[j] < outer.len(),
    ensures
        t2.is_take_of(&src, composed_indices(outer, inner)),
{
    let c = composed_indices(outer, inner);
    assert forall|j: int| 0 <= j < c.len() implies #[trigger] t2.raw(j) == src.raw(c[j] as int) by {
        assert(t2.raw(j) == t1.raw(inner[j] as int));
        assert(t1.raw(inner[j] as int) == src.raw(outer[inner[j] as int] as int));
    }
    match t2.mask() {
        Some(m2) => {
            let m1 = t1.mask()->0;
            assert forall|j: int| #[trigger] mask_bit(m2@, j) <==> (0 <= j < c.len() && mask_valid(src.mask(), c[j] as int)) by {
                if 0 <= j < c.len() {
                    assert(mask_bit(m2@, j) <==> mask_valid(t1.mask(), inner[j] as int));
                    assert(mask_bit(m1@, inner[j] as int) <==> mask_valid(src.mask(), outer[inner[j] as int] as int));
                }
            }
        },
        None => {},
    }
}

/// Slicing twice is one slice at the summed offset: when `t1` holds rows
/// `a..a + n` of `src` and `t2` rows `b..b + m` of `t1` (with
/// `b + m <= n`), then `t2` holds rows `a + b..a + b + m` of `src`, validity
/// included.
pub proof fn law_slice_composes(t2: ColumnVector, t1: ColumnVector, src: ColumnVector, a: int, n: int, b: int, m: int)
    requires
        0 <= a,
        0 <= b,
        0 <= m,
        b + m <= n,
        a + n <= usize::MAX,
        t1.is_take_of(&src, ColumnVector::range_indices(a, n)),
        t2.is_take_of(&t1, ColumnVector::range_indices(b, m)),
    ensures
        t2.is_take_of(&src, ColumnVector::range_indices(a + b, m)),
{
    let outer = ColumnVector::range_indices(a, n);
    let inner = ColumnVector::range_indices(b, m);
    law_take_composes(t2, t1, src, outer, inner);
    assert(composed_indices(outer, inner) =~= ColumnVector::range_indices(a + b, m));
}

proof fn lemma_first_rows_count(col: ColumnVector, n: int)
    requires
        0 <= n,
    ensures
        col.is_text() ==> col.seen_texts(n).finite() && col.first_rows(n).len() == col.seen_texts(n).len(),
        !col.is_text() ==> col.seen_nums(n).finite() && col.first_rows(n).len() == col.seen_nums(n).len(),
    decreases n,
{
    if n == 0 {
        assert(col.seen_nums(0) =~= Set::<int>::empty());
        assert(col.seen_texts(0) =~= Set::<Seq<char>>::empty());
    } else {
        lemma_first_rows_count(col, n - 1);
        col.lemma_seen_nums_grow(n - 1);
        col.lemma_seen_texts_grow(n - 1);
    }
}

/// The number of distinct values counted by `n_unique` equals the number of
/// labels listed by `unique_values`: one label per first appearance.
pub proof fn law_unique_count(col: ColumnVector)
    ensures
        col.first_rows(col.spec_len() as int).len() == col.distinct_count(),
{
    lemma_first_rows_count(col, col.spec_len() as int);
}

/// Row `i` is listed by some group of `gs`.
pub open spec fn row_in_some_group(gs: Seq<(Option<Seq<char>>, Seq<usize>)>, i: int) -> bool {
    exists|g: int, a: int| 0 <= g < gs.len() && 0 <= a < gs[g].1.len() && #[trigger] gs[g].1[a] == i
}

/// `gs` partitions rows `0..keys.len()` by key: every group is non-empty,
/// lists its rows in increasing order, and holds exactly the rows whose key is
/// the group's key; keys of different groups differ; and groups are ordered by
/// their first row (first appearance of the key).
pub open spec fn is_partition_by_key(gs: Seq<(Option<Seq<char>>, Seq<usize>)>, keys: Seq<Option<Seq<char>>>) -> bool {
    &&& forall|g: int| 0 <= g < gs.len() ==> #[trigger] gs[g].1.len() > 0
    &&& forall|g: int, a: int, b: int| 0 <= g < gs.len() && 0 <= a < b < gs[g].1.len() ==> #[trigger] gs[g].1[a]
        < #[trigger] gs[g].1[b]
    &&& forall|g: int, a: int| 0 <= g < gs.len() && 0 <= a < gs[g].1.len() ==> #[trigger] gs[g].1[a] < keys.len()
        && keys[gs[g].1[a] as int] == gs[g].0
    &&& forall|i: int| 0 <= i < keys.len() ==> #[trigger] row_in_some_group(gs, i)
    &&& forall|g1: int, g2: int| 0 <= g1 < gs.len() && 0 <= g2 < gs.len() && g1 != g2 ==> #[trigger] gs[g1].0
        != #[trigger] gs[g2].0
    &&& forall|g1: int, g2: int| 0 <= g1 < g2 < gs.len() ==> #[trigger] gs[g1].1[0] < #[trigger] gs[g2].1[0]
}

/// Grouping partitions the rows by key in order of first appearance (see
/// `is_partition_by_key`); `group_by` returns this grouping of its column's
/// string values.
pub proof fn law_grouping_partitions(keys: Seq<Option<Seq<char>>>)
    requires
        keys.len() <= usize::MAX,
    ensures
        is_partition_by_key(grouping(keys), keys),
    decreases keys.len(),
{
    if keys.len() > 0 {
        let ks = keys.drop_last();
        law_grouping_partitions(ks);
        let prev = grouping(ks);
        let n = ks.len() as int;
        let k = keys.last();
        let g = find_group(prev, k);
        lemma_find_group_range(prev, k);
        let gs = grouping(keys);
        assert forall|q: int| 0 <= q < ks.len() implies keys[q] == #[trigger] ks[q] by {}
        if g >= 0 {
            assert(gs == prev.update(g, (prev[g].0, prev[g].1.push(n as usize))));
            assert forall|q: int| 0 <= q < gs.len() implies #[trigger] gs[q].1.len() > 0 by {
                assert(prev[q].1.len() > 0);
            }
            assert forall|q: int, a: int| 0 <= q < gs.len() && 0 <= a < gs[q].1.len() implies #[trigger] gs[q].1[a] < keys.len()
                && keys[gs[q].1[a] as int] == gs[q].0 by {
                if q == g && a == prev[g].1.len() {
                } else {
                    assert(gs[q].1[a] == prev[q].1[a]);
                }
            }
            assert forall|q: int, a: int, b: int| 0 <= q < gs.len() && 0 <= a < b < gs[q].1.len() implies #[trigger] gs[q].1[a]
                < #[trigger] gs[q].1[b] by {
                if q == g && b == prev[g].1.len() {
                    assert(prev[q].1[a] < n);
                } else {
                    assert(gs[q].1[a] == prev[q].1[a]);
                    assert(gs[q].1[b] == prev[q].1[b]);
                }
            }
            assert forall|i: int| 0 <= i < keys.len() implies #[trigger] row_in_some_group(gs, i) by {
                if i == n {
                    assert(gs[g].1[prev[g].1.len() as int] == i);
                } else {
                    assert(row_in_some_group(prev, i));
                    let (q, a) = choose|q: int, a: int| 0 <= q < prev.len() && 0 <= a < prev[q].1.len()
                        && #[trigger] prev[q].1[a] == i;
                    assert(gs[q].1[a] == i);
                }
            }
            assert forall|g1: int, g2: int| 0 <= g1 < g2 < gs.len() implies #[trigger] gs[g1].1[0] < #[trigger] gs[g2].1[0] by {
                assert(gs[g1].1[0] == prev[g1].1[0]);
                assert(gs[g2].1[0] == prev[g2].1[0]);
            }
            assert forall|g1: int, g2: int| 0 <= g1 < gs.len() && 0 <= g2 < gs.len() && g1 != g2 implies #[trigger] gs[g1].0
                != #[trigger] gs[g2].0 by {
                assert(gs[g1].0 == prev[g1].0);
                assert(gs[g2].0 == prev[g2].0);
            }
        } else {
            assert(gs == prev.push((k, seq![n as usize])));
            assert forall|q: int| 0 <= q < gs.len() implies #[trigger] gs[q].1.len() > 0 by {
                if q < prev.len() {
                    assert(prev[q].1.len() > 0);
                }
            }
            assert forall|q: int, a: int| 0 <= q < gs.len() && 0 <= a < gs[q].1.len() implies #[trigger] gs[q].1[a] < keys.len()
                && keys[gs[q].1[a] as int] == gs[q].0 by {
                if q < prev.len() {
                    assert(gs[q].1[a] == prev[q].1[a]);
                }
            }
            assert forall|q: int, a: int, b: int| 0 <= q < gs.len() && 0 <= a < b < gs[q].1.len() implies #[trigger] gs[q].1[a]
                < #[trigger] gs[q].1[b] by {
                assert(gs[q].1[a] == prev[q].1[a]);
                assert(gs[q].1[b] == prev[q].1[b]);
            }
            assert forall|i: int| 0 <= i < keys.len() implies #[trigger] row_in_some_group(gs, i) by {
                if i == n {
                    assert(gs[prev.len() as int].1[0] == i);
                } else {
                    assert(row_in_some_group(prev, i));
                    let (q, a) = choose|q: int, a: int| 0 <= q < prev.len() && 0 <= a < prev[q].1.len()
                        && #[trigger] prev[q].1[a] == i;
                    assert(gs[q].1[a] == i);
                }
            }
            assert forall|g1: int, g2: int| 0 <= g1 < g2 < gs.len() implies #[trigger] gs[g1].1[0] < #[trigger] gs[g2].1[0] by {
                assert(gs[g1].1[0] == prev[g1].1[0]);
                if g2 < prev.len() {
                    assert(gs[g2].1[0] == prev[g2].1[0]);
                } else {
                    assert(prev[g1].1[0] < n);
                }
            }
            assert forall|g1: int, g2: int| 0 <= g1 < gs.len() && 0 <= g2 < gs.len() && g1 != g2 implies #[trigger] gs[g1].0
                != #[trigger] gs[g2].0 by {
                if g1 < prev.len() && g2 < prev.len() {
                    assert(gs[g1].0 == prev[g1].0);
                    assert(gs[g2].0 == prev[g2].0);
                } else if g1 < prev.len() {
                    assert(prev[g1].0 != k);
                } else {
                    assert(prev[g2].0 != k);
                }
            }
        }
    }
}

/// Reading a column back after adding it gives what was added, and every
/// other column stays as it was (an existing column of the same name is the
/// only one replaced); the width grows by one exactly when the name is new.
pub proof fn law_add_then_read(new: Dataset, old: Dataset, name: Seq<char>, col: ColumnVector)
    requires
        old.wf(),
        Dataset::added(new, old, name, col, Ok::<(), ChartonError>(())),
    ensures
        new.has_column(name),
        new.col(name) == col,
        forall|m: Seq<char>| m != name ==> (#[trigger] new.has_column(m) <==> old.has_column(m)),
        forall|m: Seq<char>| m != name && #[trigger] old.has_column(m) ==> new.col(m) == old.col(m),
        new.spec_width() == old.spec_width() + (if old.has_column(name) { 0int } else { 1int }),
{
    if old.has_column(name) {
        assert((old.schema_map()[name] as int) < old.cols().len());
        assert(new.col(name) == col);
        assert forall|m: Seq<char>| m != name && #[trigger] old.has_column(m) implies new.col(m) == old.col(m) by {
            assert(old.schema_map()[m] != old.schema_map()[name]);
        }
    } else {
        old.lemma_width_bound();
        assert(new.schema_map()[name] == old.spec_width());
        assert(new.col(name) == col);
        assert forall|m: Seq<char>| m != name && #[trigger] old.has_column(m) implies new.col(m) == old.col(m) by {
            assert((old.schema_map()[m] as int) < old.cols().len());
        }
    }
}

/// Shape of the first-appearance rows among the first `n`: they lie below
/// `n`, increase, and every row with a value shares its value with some
/// first-appearance row at or before it.
proof fn lemma_first_rows_shape(col: ColumnVector, n: int)
    requires
        0 <= n,
    ensures
        forall|k: int| 0 <= k < col.first_rows(n).len() ==> 0 <= #[trigger] col.first_rows(n)[k] < n
            && col.is_first(col.first_rows(n)[k]),
        forall|k: int, l: int| 0 <= k < l < col.first_rows(n).len() ==> #[trigger] col.first_rows(n)[k]
            < #[trigger] col.first_rows(n)[l],
        col.is_text() ==> forall|i: int| 0 <= i < n && #[trigger] col.text_key(i) is Some ==> exists|k: int|
            0 <= k < col.first_rows(n).len() && col.text_key(#[trigger] col.first_rows(n)[k]) == col.text_key(i)
                && col.first_rows(n)[k] <= i,
        !col.is_text() ==> forall|i: int| 0 <= i < n && #[trigger] col.num_key(i) is Some ==> exists|k: int|
            0 <= k < col.first_rows(n).len() && col.num_key(#[trigger] col.first_rows(n)[k]) == col.num_key(i)
                && col.first_rows(n)[k] <= i,
    decreases n,
{
    if n > 0 {
        lemma_first_rows_shape(col, n - 1);
        let prev = col.first_rows(n - 1);
        let cur = col.first_rows(n);
        if col.is_first(n - 1) {
            assert(cur == prev.push(n - 1));
            assert forall|k: int| 0 <= k < cur.len() implies 0 <= #[trigger] cur[k] < n && col.is_first(cur[k]) by {
                if k < prev.len() {
                    assert(cur[k] == prev[k]);
                }
            }
            assert forall|k: int, l: int| 0 <= k < l < cur.len() implies #[trigger] cur[k] < #[trigger] cur[l] by {
                assert(cur[k] == prev[k]);
                if l < prev.len() {
                    assert(cur[l] == prev[l]);
                }
            }
            if col.is_text() {
                assert forall|i: int| 0 <= i < n && #[trigger] col.text_key(i) is Some implies exists|k: int|
                    0 <= k < cur.len() && col.text_key(#[trigger] cur[k]) == col.text_key(i) && cur[k] <= i by {
                    if i == n - 1 {
                        assert(cur[prev.len() as int] == i);
                    } else {
                        let k = choose|k: int| 0 <= k < prev.len() && col.text_key(#[trigger] prev[k]) == col.text_key(i)
                            && prev[k] <= i;
                        assert(cur[k] == prev[k]);
                    }
                }
            } else {
                assert forall|i: int| 0 <= i < n && #[trigger] col.num_key(i) is Some implies exists|k: int|
                    0 <= k < cur.len() && col.num_key(#[trigger] cur[k]) == col.num_key(i) && cur[k] <= i by {
                    if i == n - 1 {
                        assert(cur[prev.len() as int] == i);
                    } else {
                        let k = choose|k: int| 0 <= k < prev.len() && col.num_key(#[trigger] prev[k]) == col.num_key(i)
                            && prev[k] <= i;
                        assert(cur[k] == prev[k]);
                    }
                }
            }
        } else {
            assert(cur == prev);
            if col.is_text() {
                assert forall|i: int| 0 <= i < n && #[trigger] col.text_key(i) is Some implies exists|k: int|
                    0 <= k < cur.len() && col.text_key(#[trigger] cur[k]) == col.text_key(i) && cur[k] <= i by {
                    if i == n - 1 {
                        let j = choose|j: int| 0 <= j < i && #[trigger] col.text_key(j) == col.text_key(i);
                        let k = choose|k: int| 0 <= k < prev.len() && col.text_key(#[trigger] prev[k]) == col.text_key(j)
                            && prev[k] <= j;
                        assert(cur[k] == prev[k]);
                    }
                }
            } else {
                assert forall|i: int| 0 <= i < n && #[trigger] col.num_key(i) is Some implies exists|k: int|
                    0 <= k < cur.len() && col.num_key(#[trigger] cur[k]) == col.num_key(i) && cur[k] <= i by {
                    if i == n - 1 {
                        let j = choose|j: int| 0 <= j < i && #[trigger] col.num_key(j) == col.num_key(i);
                        let k = choose|k: int| 0 <= k < prev.len() && col.num_key(#[trigger] prev[k]) == col.num_key(i)
                            && prev[k] <= j;
                        assert(cur[k] == prev[k]);
                    }
                }
            }
        }
    }
}

/// For a column that is neither text nor float, two rows with values have
/// the same label exactly when they have the same value.
proof fn lemma_num_label(col: ColumnVector, i: int, j: int)
    requires
        !col.is_text(),
        !col.is_float(),
        col.has_value(i),
        col.has_value(j),
    ensures
        col.num_key(i) is Some,
        col.label_at(i) is Some,
        (col.num_key(i) == col.num_key(j)) <==> (col.label_at(i) == col.label_at(j)),
{
    match col {
        ColumnVector::Boolean { data, .. } => {
            reveal_strlit("true");
            reveal_strlit("false");
            assert("true"@[0] != "false"@[0]);
        },
        ColumnVector::Int8 { data, .. } => {
            if col.label_at(i) == col.label_at(j) {
                lemma_decimal_text_injective(data@[i] as int, data@[j] as int);
            }
        },
        ColumnVector::Int16 { data, .. } => {
            if col.label_at(i) == col.label_at(j) {
                lemma_decimal_text_injective(data@[i] as int, data@[j] as int);
            }
        },
        ColumnVector::Int32 { data, .. } => {
            if col.label_at(i) == col.label_at(j) {
                lemma_decimal_text_injective(data@[i] as int, data@[j] as int);
            }
        },
        ColumnVector::Int64 { data, .. } => {
            if col.label_at(i) == col.label_at(j) {
                lemma_decimal_text_injective(data@[i] as int, data@[j] as int);
            }
        },
        ColumnVector::UInt32 { data, .. } => {
            if col.label_at(i) == col.label_at(j) {
                lemma_decimal_text_injective(data@[i] as int, data@[j] as int);
            }
        },
        ColumnVector::UInt64 { data, .. } => {
            if col.label_at(i) == col.label_at(j) {
                lemma_decimal_text_injective(data@[i] as int, data@[j] as int);
            }
        },
        ColumnVector::Date { data, .. } => {
            if col.label_at(i) == col.label_at(j) {
                lemma_decimal_text_injective(data@[i] as int, data@[j] as int);
            }
        },
        ColumnVector::Datetime { data, .. } => {
            if col.label_at(i) == col.label_at(j) {
                lemma_decimal_text_injective(data@[i] as int, data@[j] as int);
            }
        },
        ColumnVector::Duration { data, .. } => {
            if col.label_at(i) == col.label_at(j) {
                lemma_decimal_text_injective(data@[i] as int, data@[j] as int);
            }
        },
        ColumnVector::Time { data, .. } => {
            if col.label_at(i) == col.label_at(j) {
                lemma_decimal_text_injective(data@[i] as int, data@[j] as int);
            }
        },
        _ => {},
    }
}

/// For a text column, the distinct-value key of a row is its label.
proof fn lemma_text_label(col: ColumnVector, i: int)
    requires
        col.is_text(),
    ensures
        col.text_key(i) == col.label_at(i),
{
}

proof fn lemma_f64_key_zero(b: u64)
    ensures
        (b & 0x7FFF_FFFF_FFFF_FFFFu64 == 0u64) <==> (b == 0u64 || b == 0x8000_0000_0000_0000u64),
{
    assert((b & 0x7FFF_FFFF_FFFF_FFFFu64 == 0u64) <==> (b == 0u64 || b == 0x8000_0000_0000_0000u64)) by (bit_vector);
}

proof fn lemma_f32_key_zero(b: u32)
    ensures
        (b & 0x7FFF_FFFFu32 == 0u32) <==> (b == 0u32 || b == 0x8000_0000u32),
{
    assert((b & 0x7FFF_FFFFu32 == 0u32) <==> (b == 0u32 || b == 0x8000_0000u32)) by (bit_vector);
}

/// Two rows of a float column with the same distinct-value key hold the same
/// bit pattern, unless one of them is a negative zero.
proof fn lemma_float_key_bits(col: ColumnVector, i: int, j: int)
    requires
        col.is_float(),
        col.has_value(i),
        col.has_value(j),
        col.num_key(i) == col.num_key(j),
        !ColumnVector::is_negative_zero(col.float_at(i)),
        !ColumnVector::is_negative_zero(col.float_at(j)),
    ensures
        col.float_at(i) == col.float_at(j),
{
    match col {
        ColumnVector::Float64 { data, .. } => {
            lemma_f64_key_zero(data@[i]);
            lemma_f64_key_zero(data@[j]);
        },
        ColumnVector::Float32 { data, .. } => {
            lemma_f32_key_zero(data@[i]);
            lemma_f32_key_zero(data@[j]);
        },
        _ => {},
    }
}

/// What `unique_values` lists (`labels`, the labels of the first-appearance
/// rows in order, as its contract states) is the set of values of the column
/// without repetition, in order of first appearance:
/// - the first-appearance rows increase;
/// - the labels are pairwise distinct, for floats provided the formatter
///   never renders two different bit patterns alike;
/// - for non-float columns, every row's label is listed, at a position whose
///   row is not after it, and no earlier row carries a listed label before
///   its first-appearance row;
/// - for float columns, every row with a value shares its value (up to the
///   sign of zero) with a listed row not after it.
#[verifier::spinoff_prover]
#[verifier::rlimit(40)]
pub proof fn law_unique_values<F: Fn(FloatBits) -> String>(col: ColumnVector, labels: Seq<String>, float_text: F)
    requires
        labels.len() == col.first_rows(col.spec_len() as int).len(),
        forall|k: int| 0 <= k < labels.len() ==> col.label_ok(
            col.first_rows(col.spec_len() as int)[k],
            #[trigger] labels[k],
            float_text,
        ),
    ensures
        forall|k: int, l: int| 0 <= k < l < labels.len() ==> #[trigger] col.first_rows(col.spec_len() as int)[k]
            < #[trigger] col.first_rows(col.spec_len() as int)[l],
        (!col.is_float() || ColumnVector::injective_text(float_text)) ==> forall|k: int, l: int|
            0 <= k < l < labels.len() ==> #[trigger] labels[k]@ != #[trigger] labels[l]@,
        !col.is_float() ==> forall|i: int| 0 <= i < col.spec_len() && #[trigger] col.label_at(i) is Some ==> exists|k: int|
            0 <= k < labels.len() && Some(#[trigger] labels[k]@) == col.label_at(i)
                && col.first_rows(col.spec_len() as int)[k] <= i,
        !col.is_float() ==> forall|k: int, j: int| 0 <= k < labels.len() && 0 <= j < col.first_rows(
            col.spec_len() as int,
        )[k] ==> #[trigger] col.label_at(j) != Some(#[trigger] labels[k]@),
        col.is_float() ==> forall|i: int| 0 <= i < col.spec_len() && #[trigger] col.has_value(i) ==> exists|k: int|
            0 <= k < labels.len() && col.num_key(#[trigger] col.first_rows(col.spec_len() as int)[k])
                == col.num_key(i) && col.first_rows(col.spec_len() as int)[k] <= i,
        (col.is_float() && ColumnVector::deterministic_text(float_text) && !col.has_negative_zero()) ==> forall|i: int, t: String|
            col.has_value(i) && #[trigger] call_ensures(float_text, (col.float_at(i),), t) ==> exists|k: int|
                0 <= k < labels.len() && #[trigger] labels[k]@ == t@,
{
    let n = col.spec_len() as int;
    let fr = col.first_rows(n);
    lemma_first_rows_shape(col, n);
    // labels of first-appearance rows, for non-float columns
    assert forall|k: int| 0 <= k < labels.len() && !col.is_float() implies col.label_at(fr[k]) == Some(
        #[trigger] labels[k]@,
    ) by {
        assert(col.label_ok(fr[k], labels[k], float_text));
    }
    // distinct values at first-appearance rows
    assert forall|k: int, l: int| 0 <= k < l < labels.len() implies (if col.is_text() {
        col.text_key(#[trigger] fr[k]) != col.text_key(#[trigger] fr[l]) && col.text_key(fr[l]) is Some
    } else {
        col.num_key(fr[k]) != col.num_key(fr[l]) && col.num_key(fr[l]) is Some
    }) by {
        assert(col.is_first(fr[l]));
        assert(fr[k] < fr[l]);
        if col.is_text() {
            assert(col.text_key(fr[k]) != col.text_key(fr[l]));
        } else {
            assert(col.num_key(fr[k]) != col.num_key(fr[l]));
        }
    }
    if !col.is_float() {
        assert forall|k: int, l: int| 0 <= k < l < labels.len() implies #[trigger] labels[k]@ != #[trigger] labels[l]@ by {
            assert(col.label_at(fr[k]) == Some(labels[k]@));
            assert(col.label_at(fr[l]) == Some(labels[l]@));
            assert(col.is_first(fr[k]));
            if col.is_text() {
                lemma_text_label(col, fr[k]);
                lemma_text_label(col, fr[l]);
                assert(col.text_key(fr[k]) != col.text_key(fr[l]));
            } else {
                assert(col.num_key(fr[k]) is Some);
                lemma_num_label(col, fr[k], fr[l]);
                assert(col.num_key(fr[k]) != col.num_key(fr[l]));
            }
        }
        assert forall|i: int| 0 <= i < n && #[trigger] col.label_at(i) is Some implies exists|k: int|
            0 <= k < labels.len() && Some(#[trigger] labels[k]@) == col.label_at(i) && fr[k] <= i by {
            if col.is_text() {
                lemma_text_label(col, i);
                assert(col.text_key(i) is Some);
                let k = choose|k: int| 0 <= k < fr.len() && col.text_key(#[trigger] fr[k]) == col.text_key(i) && fr[k] <= i;
                lemma_text_label(col, fr[k]);
                assert(Some(labels[k]@) == col.label_at(i));
            } else {
                assert(col.has_value(i));
                lemma_num_label(col, i, i);
                assert(col.num_key(i) is Some);
                let k = choose|k: int| 0 <= k < fr.len() && col.num_key(#[trigger] fr[k]) == col.num_key(i) && fr[k] <= i;
                assert(col.is_first(fr[k]));
                lemma_num_label(col, fr[k], i);
                assert(Some(labels[k]@) == col.label_at(i));
            }
        }
        assert forall|k: int, j: int| 0 <= k < labels.len() && 0 <= j < fr[k] implies #[trigger] col.label_at(j) != Some(
            #[trigger] labels[k]@,
        ) by {
            assert(col.is_first(fr[k]));
            assert(col.label_at(fr[k]) == Some(labels[k]@));
            if col.is_text() {
                lemma_text_label(col, j);
                lemma_text_label(col, fr[k]);
                assert(col.text_key(j) != col.text_key(fr[k]));
            } else {
                assert(col.num_key(j) != col.num_key(fr[k]));
                if col.label_at(j) is Some {
                    assert(col.has_value(j));
                    lemma_num_label(col, j, fr[k]);
                }
            }
        }
    } else {
        if ColumnVector::injective_text(float_text) {
            assert forall|k: int, l: int| 0 <= k < l < labels.len() implies #[trigger] labels[k]@ != #[trigger] labels[l]@ by {
                assert(col.label_ok(fr[k], labels[k], float_text));
                assert(col.label_ok(fr[l], labels[l], float_text));
                assert(col.num_key(fr[k]) != col.num_key(fr[l]));
                assert(col.is_first(fr[k]));
                assert(col.float_at(fr[k]) != col.float_at(fr[l]));
                if labels[k]@ == labels[l]@ {
                    assert(call_ensures(float_text, (col.float_at(fr[k]),), labels[k]));
                    assert(call_ensures(float_text, (col.float_at(fr[l]),), labels[l]));
                }
            }
        }
        assert forall|i: int| 0 <= i < n && #[trigger] col.has_value(i) implies exists|k: int|
            0 <= k < labels.len() && col.num_key(#[trigger] fr[k]) == col.num_key(i) && fr[k] <= i by {
            assert(col.num_key(i) is Some);
        }
        if ColumnVector::deterministic_text(float_text) && !col.has_negative_zero() {
            assert forall|i: int, t: String| col.has_value(i) && #[trigger] call_ensures(float_text, (col.float_at(i),), t)
                implies exists|k: int| 0 <= k < labels.len() && #[trigger] labels[k]@ == t@ by {
                assert(col.num_key(i) is Some);
                let k = choose|k: int| 0 <= k < labels.len() && col.num_key(#[trigger] fr[k]) == col.num_key(i) && fr[k] <= i;
                assert(col.is_first(fr[k]));
                assert(col.has_value(fr[k]));
                assert(!ColumnVector::is_negative_zero(col.float_at(i)));
                assert(!ColumnVector::is_negative_zero(col.float_at(fr[k])));
                lemma_float_key_bits(col, fr[k], i);
                assert(col.label_ok(fr[k], labels[k], float_text));
                assert(call_ensures(float_text, (col.float_at(fr[k]),), labels[k]));
            }
        }
    }
}

/// Nanoseconds in one tick of a column's time unit.
pub open spec fn column_tick(unit: TimeUnit) -> int {
    match unit {
        TimeUnit::Milliseconds => 1_000_000,
        TimeUnit::Microseconds => 1_000,
        TimeUnit::Nanoseconds => 1,
    }
}

/// Nanoseconds in one tick of an Arrow time unit.
pub open spec fn arrow_tick(unit: SourceUnit) -> int {
    match unit {
        SourceUnit::Second => 1_000_000_000,
        SourceUnit::Millisecond => 1_000_000,
        SourceUnit::Microsecond => 1_000,
        SourceUnit::Nanosecond => 1,
    }
}

/// Every tick length used by the library, in nanoseconds.
pub proof fn law_tick_lengths(unit: TimeUnit, source: SourceUnit)
    ensures
        nanos_per_tick(unit) == column_tick(unit),
        source_tick_nanos(source) == arrow_tick(source),
        nanos_per_tick(TimeUnit::Nanoseconds) == 1,
        nanos_per_tick(TimeUnit::Microseconds) == 1_000,
        nanos_per_tick(TimeUnit::Milliseconds) == 1_000_000,
{
}

/// `data` (in ticks of `unit`) holds the same instants or spans as the
/// Arrow slots `items` (in ticks of `source`): a present slot whose value
/// fits is a valid row denoting the same number of nanoseconds, any other
/// slot is a null row.
pub open spec fn same_instants(
    items: Seq<Option<i64>>,
    source: SourceUnit,
    data: Seq<i64>,
    validity: Option<Vec<u8>>,
    unit: TimeUnit,
) -> bool {
    &&& data.len() == items.len()
    &&& column_tick(unit) <= arrow_tick(source)
    &&& forall|i: int| 0 <= i < items.len() ==> match #[trigger] items[i] {
        Some(t) => if i64::MIN <= t * (arrow_tick(source) / column_tick(unit)) <= i64::MAX {
            mask_valid(validity, i) && data[i] * column_tick(unit) == t * arrow_tick(source)
        } else {
            !mask_valid(validity, i)
        },
        None => !mask_valid(validity, i),
    }
}

proof fn lemma_rescaled_slots(items: Seq<Option<i64>>, source: SourceUnit, data: Seq<i64>, validity: Option<Vec<u8>>, unit: TimeUnit, kept: Seq<Option<i64>>)
    requires
        options_layout(data, validity, kept, 0i64),
        kept.len() == items.len(),
        column_tick(unit) <= arrow_tick(source),
        arrow_tick(source) % column_tick(unit) == 0,
        forall|i: int| 0 <= i < items.len() ==> #[trigger] kept[i] == match items[i] {
            Some(t) => if i64::MIN <= t * (arrow_tick(source) / column_tick(unit)) <= i64::MAX {
                Some((t * (arrow_tick(source) / column_tick(unit))) as i64)
            } else {
                None
            },
            None => None,
        },
    ensures
        same_instants(items, source, data, validity, unit),
{
    let f = arrow_tick(source) / column_tick(unit);
    assert(f * column_tick(unit) == arrow_tick(source)) by (nonlinear_arith)
        requires
            f == arrow_tick(source) / column_tick(unit),
            arrow_tick(source) % column_tick(unit) == 0,
            column_tick(unit) > 0,
    {}
    assert forall|i: int| 0 <= i < items.len() implies match #[trigger] items[i] {
        Some(t) => if i64::MIN <= t * f <= i64::MAX {
            mask_valid(validity, i) && data[i] * column_tick(unit) == t * arrow_tick(source)
        } else {
            !mask_valid(validity, i)
        },
        None => !mask_valid(validity, i),
    } by {
        assert(kept[i] == match items[i] {
            Some(t) => if i64::MIN <= t * f <= i64::MAX { Some((t * f) as i64) } else { None },
            None => None,
        });
        match items[i] {
            Some(t) => {
                if i64::MIN <= t * f <= i64::MAX {
                    assert(data[i] == t * f);
                    assert((t * f) * column_tick(unit) == t * (f * column_tick(unit))) by (nonlinear_arith);
                }
            },
            None => {},
        }
    }
}

/// Ingesting Arrow timestamps, durations and times of day keeps what every
/// slot denotes: each stored tick, read in the column's unit, is the same
/// number of nanoseconds as the Arrow tick in the Arrow unit (times of day
/// are stored in nanoseconds). Only second ticks change their tick length,
/// to milliseconds; a value that then overflows becomes a null row.
pub proof fn law_arrow_ticks_keep_instants(values: ArrowValues, col: ColumnVector)
    requires
        arrow_column(values, col),
    ensures
        values matches ArrowValues::Timestamp(items, source) ==> (col matches ColumnVector::Datetime { data, validity, unit }
            && (source != SourceUnit::Second ==> column_tick(unit) == arrow_tick(source))
            && same_instants(items@, source, data@, validity, unit)),
        values matches ArrowValues::Duration(items, source) ==> (col matches ColumnVector::Duration { data, validity, unit }
            && (source != SourceUnit::Second ==> column_tick(unit) == arrow_tick(source))
            && same_instants(items@, source, data@, validity, unit)),
        values matches ArrowValues::Time(items, source) ==> (col matches ColumnVector::Time { data, validity }
            && same_instants(items@, source, data@, validity, TimeUnit::Nanoseconds)),
{
    match values {
        ArrowValues::Timestamp(items, source) => {
            match col {
                ColumnVector::Datetime { data, validity, unit } => {
                    assert(unit == kept_unit(source));
                    let kept = kept_ticks(items@, source);
                    assert forall|i: int| 0 <= i < items@.len() implies #[trigger] kept[i] == match items@[i] {
                        Some(t) => if i64::MIN <= t * (arrow_tick(source) / column_tick(unit)) <= i64::MAX {
                            Some((t * (arrow_tick(source) / column_tick(unit))) as i64)
                        } else {
                            None
                        },
                        None => None,
                    } by {
                        let f = arrow_tick(source) / column_tick(unit);
                        if source == SourceUnit::Second {
                            assert(f == 1000);
                            assert(kept[i] == scaled_millis(items@[i]));
                        } else {
                            assert(column_tick(unit) == arrow_tick(source)) by {
                                match source {
                                    SourceUnit::Millisecond => {},
                                    SourceUnit::Microsecond => {},
                                    _ => {},
                                }
                            }
                            let c = column_tick(unit);
                            assert(c > 0);
                            assert(f == 1) by (nonlinear_arith)
                                requires
                                    f == arrow_tick(source) / c,
                                    c == arrow_tick(source),
                                    c > 0,
                            {}
                            assert(kept[i] == items@[i]);
                            match items@[i] {
                                Some(t) => { assert(t * f == t); },
                                None => {},
                            }
                        }
                    }
                    lemma_rescaled_slots(items@, source, data@, validity, unit, kept);
                },
                _ => {},
            }
        },
        ArrowValues::Duration(items, source) => {
            match col {
                ColumnVector::Duration { data, validity, unit } => {
                    assert(unit == kept_unit(source));
                    let kept = kept_ticks(items@, source);
                    assert forall|i: int| 0 <= i < items@.len() implies #[trigger] kept[i] == match items@[i] {
                        Some(t) => if i64::MIN <= t * (arrow_tick(source) / column_tick(unit)) <= i64::MAX {
                            Some((t * (arrow_tick(source) / column_tick(unit))) as i64)
                        } else {
                            None
                        },
                        None => None,
                    } by {
                        let f = arrow_tick(source) / column_tick(unit);
                        if source == SourceUnit::Second {
                            assert(f == 1000);
                            assert(kept[i] == scaled_millis(items@[i]));
                        } else {
                            assert(column_tick(unit) == arrow_tick(source)) by {
                                match source {
                                    SourceUnit::Millisecond => {},
                                    SourceUnit::Microsecond => {},
                                    _ => {},
                                }
                            }
                            let c = column_tick(unit);
                            assert(c > 0);
                            assert(f == 1) by (nonlinear_arith)
                                requires
                                    f == arrow_tick(source) / c,
                                    c == arrow_tick(source),
                                    c > 0,
                            {}
                            assert(kept[i] == items@[i]);
                            match items@[i] {
                                Some(t) => { assert(t * f == t); },
                                None => {},
                            }
                        }
                    }
                    lemma_rescaled_slots(items@, source, data@, validity, unit, kept);
                },
                _ => {},
            }
        },
        ArrowValues::Time(items, source) => {
            match col {
                ColumnVector::Time { data, validity } => {
                    let kept = items@.map_values(|t: Option<i64>| tick_nanos(t, source));
                    assert forall|i: int| 0 <= i < items@.len() implies #[trigger] kept[i] == match items@[i] {
                        Some(t) => if i64::MIN <= t * (arrow_tick(source) / column_tick(TimeUnit::Nanoseconds)) <= i64::MAX {
                            Some((t * (arrow_tick(source) / column_tick(TimeUnit::Nanoseconds))) as i64)
                        } else {
                            None
                        },
                        None => None,
                    } by {
                        assert(kept[i] == tick_nanos(items@[i], source));
                        assert(arrow_tick(source) / column_tick(TimeUnit::Nanoseconds) == source_tick_nanos(source));
                    }
                    lemma_rescaled_slots(items@, source, data@, validity, TimeUnit::Nanoseconds, kept);
                },
                _ => {},
            }
        },
        _ => {},
    }
}

/// A row is null (as `is_null` reports) exactly when it holds no value:
/// marked invalid, or NaN in a float column of either width.
pub proof fn law_null_is_no_value(col: ColumnVector, row: int)
    requires
        0 <= row < col.spec_len(),
    ensures
        null_at(col, row) == !col.has_value(row),
        col.is_float() && col.nan_at(row) ==> null_at(col, row),
{
}

/// A column's mask covers its rows.
pub open spec fn mask_covers(col: ColumnVector) -> bool {
    col.mask() matches Some(v) ==> col.spec_len() <= 8 * v@.len()
}

/// A row survives in a combined mask only if it is not NaN, and, when the
/// column's mask covers its rows, exactly when the row holds a value.
pub proof fn law_combined_bit_is_value(col: ColumnVector, i: int)
    requires
        0 <= i < col.spec_len(),
    ensures
        combined_bit(col, i) ==> !col.nan_at(i),
        mask_covers(col) ==> (combined_bit(col, i) == col.has_value(i)),
{
}

/// The integer a numeric reading carries.
pub open spec fn reading_value(n: NumericValue) -> int {
    match n {
        NumericValue::Int(x) => x as int,
        NumericValue::UInt(x) => x as int,
        NumericValue::Float64Bits(x) => x as int,
        NumericValue::Float32Bits(x) => x as int,
    }
}

/// The numeric reading of a row (`numeric_value`) exists exactly when a
/// non-text row holds a value, and carries what the row stores: its integer
/// (unsigned columns as `UInt`, the others as `Int`), 1 or 0 for a boolean,
/// or its bit pattern for a float (in the float's width).
pub proof fn law_numeric_value_reads_the_cell(col: ColumnVector, i: int)
    ensures
        !col.is_text() ==> (col.numeric_at(i) is Some <==> col.has_value(i)),
        col.is_text() ==> col.numeric_at(i) is None,
        col.has_value(i) ==> match col.raw(i) {
            RawCell::Int(v) => col.numeric_at(i) matches Some(n) && reading_value(n) == v
                && (n is UInt <==> (col is UInt32 || col is UInt64)) && !(n is Float64Bits) && !(n is Float32Bits),
            RawCell::Bool(b) => col.numeric_at(i) == Some(NumericValue::Int(if b { 1 } else { 0 })),
            RawCell::Bits(v) => col.numeric_at(i) matches Some(n) && reading_value(n) == v
                && (n is Float64Bits <==> col is Float64) && (n is Float32Bits <==> col is Float32),
            _ => col.numeric_at(i) is None,
        },
{
}

} // verus!
