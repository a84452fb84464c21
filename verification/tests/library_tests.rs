use charton::aggregate::AggregateOp as Op;
use charton::convert::{datetime_from_nanos, seconds_to_milliseconds};
use charton::ingest::{ArrowValues, SourceUnit};
use charton::timefmt::datetime_text;
use charton::{
    collect_with_validity, ChartonError, ColumnVector, Dataset, FloatBits, GroupedIndices, IntoColumn,
    NumericValue, RowAccessor, SemanticType, TimeUnit, ToDataset,
};

fn display_float(b: FloatBits) -> String {
    match b {
        FloatBits::F64(x) => f64::from_bits(x).to_string(),
        FloatBits::F32(x) => f32::from_bits(x).to_string(),
    }
}

fn fixed4(b: FloatBits) -> String {
    match b {
        FloatBits::F64(x) => format!("{:.4}", f64::from_bits(x)),
        FloatBits::F32(x) => format!("{:.4}", f32::from_bits(x)),
    }
}

fn f64_column(values: Vec<f64>) -> ColumnVector {
    ColumnVector::Float64 { data: values.iter().map(|v| v.to_bits()).collect(), validity: None }
}

fn message(e: ChartonError) -> String {
    match e {
        ChartonError::Data(s) => s,
    }
}

fn ids(n: i64) -> Dataset {
    let mut ds = Dataset::new();
    ds.add_column("id", (1..=n).collect::<Vec<i64>>().into()).unwrap();
    ds
}

fn id_at(ds: &Dataset, row: usize) -> Option<String> {
    ds.get_str("id", row, &display_float)
}

#[test]
fn slice_keeps_values_and_validity_of_the_range() {
    let col = ColumnVector::Int64 { data: vec![1, 2, 3, 4, 5], validity: Some(vec![0b10101]) };
    let s = col.slice(1, 3);
    match &s {
        ColumnVector::Int64 { data, validity } => {
            assert_eq!(data, &vec![2, 3, 4]);
            assert_eq!(validity, &Some(vec![0b010u8]));
        }
        _ => panic!("slice changed the column type"),
    }
    assert_eq!(s.numeric_value(0), None);
    assert_eq!(s.numeric_value(1), Some(NumericValue::Int(3)));
    assert_eq!(s.len(), 3);
}

#[test]
fn take_reorders_rows_and_their_validity() {
    let col = ColumnVector::Int64 { data: vec![1, 2, 3, 4, 5], validity: Some(vec![0b10101]) };
    let t = col.take(&[4, 1, 0, 4]);
    match &t {
        ColumnVector::Int64 { data, validity } => {
            assert_eq!(data, &vec![5, 2, 1, 5]);
            assert_eq!(validity, &Some(vec![0b1101u8]));
        }
        _ => panic!("take changed the column type"),
    }
    let strings: ColumnVector = vec![Some("a"), None, Some("c")].into();
    let t = strings.take(&[2, 2, 1]);
    assert_eq!(t.get_str(0, &display_float), Some("c".to_string()));
    assert_eq!(t.get_str(1, &display_float), Some("c".to_string()));
    assert_eq!(t.get_str(2, &display_float), None);
}

#[test]
fn categorical_slice_keeps_the_dictionary_entries() {
    let col = ColumnVector::Categorical {
        keys: vec![2, 0, 1],
        values: vec!["x".to_string(), "y".to_string(), "z".to_string()],
        validity: None,
    };
    let s = col.slice(1, 2);
    assert_eq!(s.get_str(0, &display_float), Some("x".to_string()));
    assert_eq!(s.get_str(1, &display_float), Some("y".to_string()));
    assert_eq!(s.n_unique(), 2);
}

#[test]
fn n_unique_matches_unique_values_for_floats() {
    let col = f64_column(vec![1.0, -0.0, 0.0, f64::NAN, 1.0, 2.5]);
    assert_eq!(col.n_unique(), 3);
    let u = col.unique_values(&display_float);
    assert_eq!(u, vec!["1".to_string(), "-0".to_string(), "2.5".to_string()]);
    assert_eq!(u.len(), col.n_unique());
}

#[test]
fn n_unique_skips_null_rows() {
    let col = ColumnVector::Int32 { data: vec![3, 1, 3, 7, 9], validity: Some(vec![0b01011]) };
    assert_eq!(col.n_unique(), 3);
    assert_eq!(col.unique_values(&display_float), vec!["3", "1", "7"]);

    let text: ColumnVector = vec![Some("x"), None, Some("y"), Some("x")].into();
    assert_eq!(text.n_unique(), 2);
    assert_eq!(text.unique_values(&display_float), vec!["x", "y"]);

    let flags = ColumnVector::Boolean { data: vec![true, false, true], validity: None };
    assert_eq!(flags.n_unique(), 2);
    assert_eq!(flags.unique_values(&display_float), vec!["true", "false"]);
}

#[test]
fn categorical_unique_values_are_the_labels_present() {
    let col = ColumnVector::Categorical {
        keys: vec![1, 1, 0],
        values: vec!["x".to_string(), "y".to_string(), "z".to_string()],
        validity: None,
    };
    assert_eq!(col.n_unique(), 2);
    assert_eq!(col.unique_values(&display_float), vec!["y", "x"]);
}

#[test]
fn categorical_n_unique_skips_null_and_dangling_rows() {
    let col = ColumnVector::Categorical {
        keys: vec![0, 0],
        values: vec!["a".to_string(), "b".to_string()],
        validity: Some(vec![0b01]),
    };
    assert_eq!(col.n_unique(), 1);
    assert_eq!(col.unique_values(&display_float), vec!["a"]);
    let dangling = ColumnVector::Categorical {
        keys: vec![7, 1, 1, 0],
        values: vec!["a".to_string(), "b".to_string()],
        validity: None,
    };
    assert_eq!(dangling.n_unique(), 2);
    assert_eq!(dangling.unique_values(&display_float), vec!["b", "a"]);
    let repeated = ColumnVector::Categorical {
        keys: vec![0, 1],
        values: vec!["same".to_string(), "same".to_string()],
        validity: None,
    };
    assert_eq!(repeated.n_unique(), 1);
    assert_eq!(repeated.unique_values(&display_float), vec!["same"]);
}

#[test]
fn unique_values_are_distinct_and_cover_every_row() {
    let col = ColumnVector::Int64 { data: vec![10, -10, 10, 1, -10, 0], validity: Some(vec![0b11_1111]) };
    let u = col.unique_values(&display_float);
    assert_eq!(u, vec!["10", "-10", "1", "0"]);
    for i in 0..col.len() {
        let label = col.get_str(i, &display_float).unwrap();
        assert!(u.contains(&label));
    }
    let mut sorted = u.clone();
    sorted.sort();
    sorted.dedup();
    assert_eq!(sorted.len(), u.len());
}

#[test]
fn get_str_renders_each_kind() {
    let ints = ColumnVector::Int64 { data: vec![42, -7], validity: None };
    assert_eq!(ints.get_str(0, &display_float), Some("42".to_string()));
    assert_eq!(ints.get_str(1, &display_float), Some("-7".to_string()));
    assert_eq!(ints.get_str(2, &display_float), None);

    let flags = ColumnVector::Boolean { data: vec![true, false], validity: Some(vec![0b01]) };
    assert_eq!(flags.get_str(0, &display_float), Some("true".to_string()));
    assert_eq!(flags.get_str(1, &display_float), None);

    let dangling = ColumnVector::Categorical { keys: vec![0, 5], values: vec!["only".to_string()], validity: None };
    assert_eq!(dangling.get_str(0, &display_float), Some("only".to_string()));
    assert_eq!(dangling.get_str(1, &display_float), None);
    assert_eq!(dangling.get_str_or(1, "Unknown", &display_float), "Unknown");

    let floats = f64_column(vec![2.5, f64::NAN]);
    assert_eq!(floats.get_str(0, &display_float), Some("2.5".to_string()));
    assert_eq!(floats.get_str(1, &display_float), None);

    let stamps = ColumnVector::Datetime { data: vec![1711872000000], validity: None, unit: TimeUnit::Milliseconds };
    assert_eq!(stamps.get_str(0, &display_float), Some("1711872000000".to_string()));
}

#[test]
fn numeric_value_reads_each_kind() {
    let flags = ColumnVector::Boolean { data: vec![true, false], validity: None };
    assert_eq!(flags.numeric_value(0), Some(NumericValue::Int(1)));
    assert_eq!(flags.numeric_value(1), Some(NumericValue::Int(0)));
    let big = ColumnVector::UInt64 { data: vec![u64::MAX], validity: None };
    assert_eq!(big.numeric_value(0), Some(NumericValue::UInt(u64::MAX)));
    let floats = f64_column(vec![1.5, f64::NAN]);
    assert_eq!(floats.numeric_value(0), Some(NumericValue::Float64Bits(1.5f64.to_bits())));
    assert_eq!(floats.numeric_value(1), None);
    let text: ColumnVector = vec!["a"].into();
    assert_eq!(text.numeric_value(0), None);
    assert_eq!(floats.numeric_value(9), None);
}

#[test]
fn type_names_and_semantics() {
    let date = ColumnVector::Date { data: vec![1], validity: None };
    assert_eq!(date.dtype_name(), "date");
    assert_eq!(date.semantic_type(), SemanticType::Temporal);
    let text: ColumnVector = vec!["a"].into();
    assert_eq!(text.dtype_name(), "str");
    assert_eq!(text.semantic_type(), SemanticType::Discrete);
    let floats = f64_column(vec![1.0]);
    assert_eq!(floats.dtype_name(), "f64");
    assert_eq!(floats.semantic_type(), SemanticType::Continuous);
    let cat = ColumnVector::Categorical { keys: vec![], values: vec![], validity: None };
    assert_eq!(cat.dtype_name(), "cat");
    assert!(cat.is_empty());
}

#[test]
fn validity_mask_lookup() {
    assert!(ColumnVector::is_valid_in_mask(&None, 100));
    let mask = Some(vec![0b0000_0001u8]);
    assert!(ColumnVector::is_valid_in_mask(&mask, 0));
    assert!(!ColumnVector::is_valid_in_mask(&mask, 1));
    assert!(!ColumnVector::is_valid_in_mask(&mask, 9));
}

#[test]
fn collect_with_validity_packs_nulls() {
    let (data, validity) = collect_with_validity(vec![Some(1i64), None, Some(3)], 0);
    assert_eq!(data, vec![1, 0, 3]);
    assert_eq!(validity, Some(vec![0b101u8]));
    let (data, validity) = collect_with_validity(vec![Some(1i64), Some(2)], 0);
    assert_eq!(data, vec![1, 2]);
    assert_eq!(validity, None);
    let nine: Vec<Option<bool>> = (0..9).map(|i| if i == 8 { None } else { Some(true) }).collect();
    let (_, validity) = collect_with_validity(nine, false);
    assert_eq!(validity, Some(vec![0xFFu8, 0x00]));
}

#[test]
fn conversions_from_plain_vectors() {
    let col: ColumnVector = vec![Some("a"), None].into();
    match &col {
        ColumnVector::String { data, validity } => {
            assert_eq!(data, &vec!["a".to_string(), String::new()]);
            assert_eq!(validity, &Some(vec![0b01u8]));
        }
        _ => panic!("expected a string column"),
    }
    let col: ColumnVector = vec![1u32, 2].into();
    match &col {
        ColumnVector::UInt32 { data, validity } => {
            assert_eq!(data, &vec![1, 2]);
            assert!(validity.is_none());
        }
        _ => panic!("expected a u32 column"),
    }
    let col = vec![Some(5i32), None].into_column();
    assert_eq!(col.numeric_value(0), Some(NumericValue::Int(5)));
    assert_eq!(col.numeric_value(1), None);
}

#[test]
fn seconds_are_rescaled_to_milliseconds() {
    assert_eq!(
        seconds_to_milliseconds(vec![Some(2), None, Some(-3)]),
        vec![Some(2000), None, Some(-3000)]
    );
    assert_eq!(seconds_to_milliseconds(vec![Some(i64::MAX)]), vec![None]);
}

#[test]
fn datetime_text_is_rfc3339() {
    assert_eq!(datetime_text(1711872000000, TimeUnit::Milliseconds), Some("2024-03-31T08:00:00Z".to_string()));
    assert_eq!(datetime_text(1711872000000000, TimeUnit::Microseconds), Some("2024-03-31T08:00:00Z".to_string()));
    assert_eq!(datetime_text(0, TimeUnit::Nanoseconds), Some("1970-01-01T00:00:00Z".to_string()));
    assert_eq!(datetime_text(i64::MAX, TimeUnit::Milliseconds), None);
}

#[test]
fn add_then_read_and_overwrite() {
    let mut ds = Dataset::new();
    ds.add_column("a", vec![1i64, 2].into()).unwrap();
    assert_eq!(ds.get_str("a", 0, &display_float), Some("1".to_string()));
    ds.add_column("a", vec![5i64, 6].into()).unwrap();
    assert_eq!(ds.width(), 1);
    assert_eq!(ds.get_str("a", 0, &display_float), Some("5".to_string()));
    assert_eq!(ds.get_str_or("zz", 0, "none", &display_float), "none");
}

#[test]
fn add_column_rejects_wrong_length() {
    let mut ds = Dataset::new();
    ds.add_column("a", vec![1i64, 2].into()).unwrap();
    let err = ds.add_column("b", vec![1i64, 2, 3].into()).unwrap_err();
    assert_eq!(message(err), "Inconsistent column length in 'b': expected 2 rows, found 3");
    assert_eq!(ds.width(), 1);
    assert_eq!(ds.height(), 2);
    let err = Dataset::new().with_column("x", vec![1i64].into()).unwrap().with_column("y", vec![1i64, 2].into());
    assert!(err.is_err());
}

#[test]
fn column_lookup_errors() {
    let ds = ids(3);
    assert_eq!(message(ds.column("zz").unwrap_err()), "Column 'zz' not found in dataset");
    assert_eq!(message(ds.get_column::<i64>("zz").unwrap_err()), "Column 'zz' not found");
    assert_eq!(
        message(ds.get_column::<String>("id").unwrap_err()),
        "Type mismatch: Column 'id' cannot be accessed as the requested type"
    );
    assert_eq!(ds.get_column::<i64>("id").unwrap(), &[1, 2, 3]);
    assert_eq!(ds.column("id").unwrap().len(), 3);
}

#[test]
fn column_names_list_every_column() {
    let ds = Dataset::new()
        .with_column("x", vec![1i64].into())
        .unwrap()
        .with_column("y", vec!["a"].into())
        .unwrap();
    let mut names = ds.get_column_names();
    names.sort();
    assert_eq!(names, vec!["x".to_string(), "y".to_string()]);
}

#[test]
fn head_tail_and_slice() {
    let ds = ids(5);
    let h = ds.head(2);
    assert_eq!(h.height(), 2);
    assert_eq!(id_at(&h, 0), Some("1".to_string()));
    assert_eq!(id_at(&h, 1), Some("2".to_string()));
    let t = ds.tail(2);
    assert_eq!(t.height(), 2);
    assert_eq!(id_at(&t, 0), Some("4".to_string()));
    assert_eq!(id_at(&t, 1), Some("5".to_string()));
    assert_eq!(ds.head(10).height(), 5);
    let empty = ds.head(0);
    assert_eq!(empty.height(), 0);
    assert_eq!(empty.width(), 0);
    let mid = ds.slice(1, 3);
    assert_eq!(id_at(&mid, 0), Some("2".to_string()));
    assert_eq!(id_at(&mid, 2), Some("4".to_string()));
}

#[test]
fn take_rows_selects_and_checks_bounds() {
    let ds = ids(5);
    let picked = ds.take_rows(&[4, 0, 4]).unwrap();
    assert_eq!(picked.height(), 3);
    assert_eq!(id_at(&picked, 0), Some("5".to_string()));
    assert_eq!(id_at(&picked, 1), Some("1".to_string()));
    assert_eq!(id_at(&picked, 2), Some("5".to_string()));
    match ds.take_rows(&[0, 7, 9]) {
        Err(e) => assert_eq!(message(e), "Index 7 is out of bounds for Dataset with height 5"),
        Ok(_) => panic!("an out-of-range index was accepted"),
    }
}

#[test]
fn group_by_orders_groups_by_first_appearance() {
    let mut ds = Dataset::new();
    ds.add_column("k", vec![Some("b"), Some("a"), Some("b"), None, Some("a")].into()).unwrap();
    let g = ds.group_by(Some("k"), &display_float);
    assert_eq!(
        g.groups,
        vec![
            (Some("b".to_string()), vec![0, 2]),
            (Some("a".to_string()), vec![1, 4]),
            (None, vec![3]),
        ]
    );
    let all = ds.group_by(None, &display_float);
    assert_eq!(all.groups, vec![(None, vec![0, 1, 2, 3, 4])]);
    let missing = ds.group_by(Some("nope"), &display_float);
    assert_eq!(missing.groups, vec![(None, vec![0, 1, 2, 3, 4])]);
}

#[test]
fn grouping_plain_keys() {
    let g = GroupedIndices::from_keys(vec![Some("x".to_string()), None, Some("x".to_string())]);
    assert_eq!(g.groups, vec![(Some("x".to_string()), vec![0, 2]), (None, vec![1])]);
    assert!(GroupedIndices::from_keys(vec![]).groups.is_empty());
}

#[test]
fn combined_mask_ands_validity_and_nan() {
    let mut ds = Dataset::new();
    ds.add_column(
        "a",
        ColumnVector::Int64 { data: (0..10).collect(), validity: Some(vec![0b1111_1110, 0b11]) },
    )
    .unwrap();
    let mut values = vec![1.0; 10];
    values[9] = f64::NAN;
    ds.add_column("b", f64_column(values)).unwrap();
    assert_eq!(ds.get_combined_mask(&["a", "b"]).unwrap(), vec![0b1111_1110, 0b01]);
    assert_eq!(ds.get_combined_mask(&[]).unwrap(), vec![0xFF, 0b11]);
    assert_eq!(message(ds.get_combined_mask(&["a", "zz"]).unwrap_err()), "Column 'zz' not found in dataset");
    assert_eq!(Dataset::new().get_combined_mask(&["zz"]).unwrap(), Vec::<u8>::new());
}

#[test]
fn is_null_cases() {
    let mut ds = Dataset::new();
    ds.add_column("v", f64_column(vec![1.0, f64::NAN])).unwrap();
    assert!(!ds.is_null("v", 0));
    assert!(ds.is_null("v", 1));
    assert!(ds.is_null("missing", 0));
}

#[test]
fn debug_text_renders_the_table() {
    let mut ds = Dataset::new();
    ds.add_column("id", vec![1i64, 2].into()).unwrap();
    ds.add_column("name", vec![Some("ab"), None].into()).unwrap();
    let expected = "Dataset View: rows 0..2 (Total 2 rows)\n\
id          | name        \n\
(i64)       | (str)       \n\
--------------------------\n\
1           | ab          \n\
2           | null        \n";
    assert_eq!(ds.debug_text(&fixed4), expected);
    let view = ds.view(1, 5);
    assert_eq!(
        view.debug_text(&fixed4),
        "Dataset View: rows 1..2 (Total 2 rows)\n\
id          | name        \n\
(i64)       | (str)       \n\
--------------------------\n\
2           | null        \n"
    );
}

#[test]
fn debug_text_mentions_remaining_rows() {
    let ds = ids(12);
    let text = ds.debug_text(&fixed4);
    assert!(text.starts_with("Dataset View: rows 0..10 (Total 12 rows)\n"));
    assert!(text.ends_with("... and 2 more rows\n"));
}

#[test]
fn debug_text_formats_datetimes() {
    let mut ds = Dataset::new();
    ds.add_column(
        "t",
        ColumnVector::Datetime { data: vec![1711872000000], validity: None, unit: TimeUnit::Milliseconds },
    )
    .unwrap();
    assert!(ds.debug_text(&fixed4).contains("2024-03-31T08:00:00Z"));
}

#[test]
fn clones_and_conversions_keep_the_data() {
    let ds = ids(3);
    let copy = ds.clone();
    assert_eq!(copy.height(), 3);
    assert_eq!(id_at(&copy, 2), Some("3".to_string()));
    let again = (&ds).to_dataset().unwrap();
    assert_eq!(again.width(), 1);
    assert_eq!(id_at(&again, 1), Some("2".to_string()));
    let moved = ds.to_dataset().unwrap();
    assert_eq!(moved.height(), 3);
    let bad = vec![("a", vec![1i64].into_column()), ("b", vec![1i64, 2].into_column())].to_dataset();
    assert!(bad.is_err());
    assert_eq!(Dataset::default().height(), 0);
}

#[test]
fn row_accessor_reads_its_row() {
    let ds = Dataset::new().with_column("name", vec!["A", "B"].into()).unwrap();
    let row = RowAccessor::new(&ds, 1);
    assert_eq!(row.index(), 1);
    assert_eq!(row.str("name", &display_float), Some("B".to_string()));
    assert_eq!(row.str("other", &display_float), None);
    assert_eq!(row.dataset().height(), 2);
}

#[test]
fn aggregate_op_parsing() {
    assert_eq!(Op::from("MEAN"), Op::Mean);
    assert_eq!(Op::from("avg"), Op::Mean);
    assert_eq!(Op::from("N"), Op::Count);
    assert_eq!(Op::from("count"), Op::Count);
    assert_eq!(Op::from("Median"), Op::Median);
    assert_eq!(Op::from("min"), Op::Min);
    assert_eq!(Op::from("MAX"), Op::Max);
    assert_eq!(Op::from("sum"), Op::Sum);
    assert_eq!(Op::from("unknown"), Op::Sum);
    assert_eq!(Op::default(), Op::Sum);
}

#[test]
fn arrow_timestamps_in_seconds_become_milliseconds() {
    let col = ColumnVector::from_arrow_values(ArrowValues::Timestamp(vec![Some(2), None, Some(i64::MAX)], SourceUnit::Second));
    match col {
        ColumnVector::Datetime { data, validity, unit } => {
            assert_eq!(data, vec![2000, 0, 0]);
            assert_eq!(validity, Some(vec![0b001u8]));
            assert_eq!(unit, TimeUnit::Milliseconds);
        }
        _ => panic!("expected a datetime column"),
    }
    let col = ColumnVector::from_arrow_values(ArrowValues::Duration(vec![Some(7)], SourceUnit::Microsecond));
    match col {
        ColumnVector::Duration { data, validity, unit } => {
            assert_eq!(data, vec![7]);
            assert!(validity.is_none());
            assert_eq!(unit, TimeUnit::Microseconds);
        }
        _ => panic!("expected a duration column"),
    }
}

#[test]
fn arrow_values_pick_the_column_type() {
    let col = ColumnVector::from_arrow_values(ArrowValues::Float64(vec![Some(1.5f64.to_bits()), None]));
    match &col {
        ColumnVector::Float64 { data, validity } => {
            assert_eq!(data, &vec![1.5f64.to_bits(), f64::NAN.to_bits()]);
            assert!(f64::from_bits(data[1]).is_nan());
            assert_eq!(validity, &Some(vec![0b01u8]));
        }
        _ => panic!("expected a float column"),
    }
    let col = ColumnVector::from_arrow_values(ArrowValues::Utf8(vec![None, Some("q".to_string())]));
    assert_eq!(col.dtype_name(), "str");
    assert_eq!(col.get_str(1, &display_float), Some("q".to_string()));
    assert_eq!(col.get_str(0, &display_float), None);
    let col = ColumnVector::from_arrow_values(ArrowValues::Date32(vec![Some(19813)]));
    assert_eq!(col.dtype_name(), "date");
    assert_eq!(col.numeric_value(0), Some(NumericValue::Int(19813)));
    let col = ColumnVector::from_arrow_values(ArrowValues::Boolean(vec![Some(true), None]));
    assert_eq!(col.get_str(0, &display_float), Some("true".to_string()));
    assert!(col.get_str(1, &display_float).is_none());
}

#[test]
fn arrow_times_become_nanoseconds_since_midnight() {
    let col = ColumnVector::from_arrow_values(ArrowValues::Time(vec![Some(1)], SourceUnit::Second));
    match col {
        ColumnVector::Time { data, validity } => {
            assert_eq!(data, vec![1_000_000_000i64]);
            assert!(validity.is_none());
        }
        _ => panic!("expected a time column"),
    }
    let col = ColumnVector::from_arrow_values(ArrowValues::Time(
        vec![Some(2), None, Some(i64::MAX)],
        SourceUnit::Microsecond,
    ));
    match col {
        ColumnVector::Time { data, validity } => {
            assert_eq!(data, vec![2000, 0, 0]);
            assert_eq!(validity, Some(vec![0b001u8]));
        }
        _ => panic!("expected a time column"),
    }
}

#[test]
fn datetimes_from_nanoseconds_are_microseconds() {
    let col = datetime_from_nanos(vec![Some(1_711_872_000_000_000_000), None, Some(-1), Some(i128::MAX)]);
    match col {
        ColumnVector::Datetime { data, validity, unit } => {
            assert_eq!(unit, TimeUnit::Microseconds);
            assert_eq!(data, vec![1_711_872_000_000_000, 0, -1, 0]);
            assert_eq!(validity, Some(vec![0b0101u8]));
        }
        _ => panic!("expected a datetime column"),
    }
}

#[test]
fn slicing_twice_is_one_slice() {
    let col = ColumnVector::Int32 { data: (0..20).collect(), validity: Some(vec![0b1010_1010, 0b0101_0101, 0b1111]) };
    let twice = col.slice(3, 12).slice(4, 6);
    let once = col.slice(7, 6);
    for j in 0..6 {
        assert_eq!(twice.numeric_value(j), once.numeric_value(j));
        assert_eq!(twice.get_str(j, &display_float), once.get_str(j, &display_float));
    }
    match (&twice, &once) {
        (ColumnVector::Int32 { data: d1, validity: v1 }, ColumnVector::Int32 { data: d2, validity: v2 }) => {
            assert_eq!(d1, d2);
            assert_eq!(v1, v2);
        }
        _ => panic!("slicing changed the column type"),
    }
}

#[test]
fn taking_twice_is_one_take_through_composed_indices() {
    let col: ColumnVector = vec![Some("a"), None, Some("c"), Some("d")].into();
    let outer = [3usize, 1, 0, 2];
    let inner = [2usize, 2, 1, 3];
    let twice = col.take(&outer).take(&inner);
    let composed: Vec<usize> = inner.iter().map(|&k| outer[k]).collect();
    let once = col.take(&composed);
    match (&twice, &once) {
        (ColumnVector::String { data: d1, validity: v1 }, ColumnVector::String { data: d2, validity: v2 }) => {
            assert_eq!(d1, d2);
            assert_eq!(v1, v2);
        }
        _ => panic!("take changed the column type"),
    }
    assert_eq!(twice.get_str(0, &display_float), Some("a".to_string()));
    assert_eq!(twice.get_str(2, &display_float), None);
}

#[test]
fn dataset_slice_slices_every_named_column() {
    let ds = Dataset::new()
        .with_column("n", vec![1i64, 2, 3, 4].into())
        .unwrap()
        .with_column("s", vec![Some("w"), None, Some("y"), Some("z")].into())
        .unwrap();
    let part = ds.slice(1, 2);
    assert_eq!(part.height(), 2);
    assert_eq!(part.width(), 2);
    for name in ["n", "s"] {
        let expected = ds.column(name).unwrap().slice(1, 2);
        for j in 0..2 {
            assert_eq!(part.get_str(name, j, &display_float), expected.get_str(j, &display_float));
        }
    }
    let empty = ds.slice(1, 0);
    assert_eq!(empty.height(), 0);
    assert_eq!(empty.width(), 0);
}

#[test]
fn arrays_slices_and_borrowed_vectors_convert() {
    let from_array: ColumnVector = [1i64, 2, 3].into();
    let from_array_ref: ColumnVector = (&[1i64, 2, 3]).into();
    let items = vec![1i64, 2, 3];
    let from_slice: ColumnVector = items.as_slice().into();
    let from_vec_ref: ColumnVector = (&items).into();
    for col in [from_array, from_array_ref, from_slice, from_vec_ref] {
        match col {
            ColumnVector::Int64 { data, validity } => {
                assert_eq!(data, vec![1, 2, 3]);
                assert!(validity.is_none());
            }
            _ => panic!("expected an i64 column"),
        }
    }
    let strings: ColumnVector = [Some("a"), None].into();
    assert_eq!(strings.get_str(0, &display_float), Some("a".to_string()));
    assert_eq!(strings.get_str(1, &display_float), None);
}

#[test]
fn unique_float_labels_cover_every_row() {
    let col = f64_column(vec![2.5, 1.0, 2.5, 0.0, 1.0]);
    let u = col.unique_values(&display_float);
    assert_eq!(u, vec!["2.5", "1", "0"]);
    for i in 0..col.len() {
        assert!(u.contains(&col.get_str(i, &display_float).unwrap()));
    }
}
