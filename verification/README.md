# charton

Columnar data containers for charting, verified with Verus.

A `ColumnVector` is one typed column (booleans, integers, floats, strings,
dictionary-encoded categories, dates, datetimes, durations, times of day) with
an optional packed validity bitmask. A `Dataset` is a set of equally long
columns reached by name. The library offers construction, lookup, slicing,
row selection, distinct-value counting, grouping by a key column, combined
validity masks and a text table rendering, each with a contract proved by
Verus.

## Layout

- `src/` — the verified library.
  - `bitmask.rs` packed validity masks and `collect_with_validity`.
  - `column.rs` `ColumnVector`: lengths, type names, value access, `take`,
    `slice`, `n_unique`, `unique_values`.
  - `dataset.rs` `Dataset`, `DatasetView`, `RowAccessor`, `ToDataset`.
  - `group.rs` grouping of rows by key in order of first appearance.
  - `convert.rs`, `ingest.rs` building columns from plain vectors and from the
    slots of an Arrow array.
  - `display.rs`, `text.rs`, `timefmt.rs` table rendering, decimal text and
    RFC 3339 timestamps (through the `time` crate).
  - `hashing.rs` the `ahash` collections used, behind trusted wrappers.
  - `aggregate.rs` aggregation operators and their names.
  - `laws.rs` properties relating several operations.
- `app/` — unverified glue: floating-point access and aggregation, Arrow
  ingestion (`from_arrow`, `from_record_batches`) and `Debug` printing.
- `tests/` — tests run against the compiled library.

Floats are stored as IEEE-754 bit patterns; wherever a float must be written
as text, the caller supplies the formatter (`Fn(FloatBits) -> String`).
