use charton::{
    collect_with_validity, ColumnVector, Dataset, FloatBits, IntoColumn, NumericValue, TimeUnit, ToDataset,
};

fn display_float(b: FloatBits) -> String {
    match b {
        FloatBits::F64(x) => f64::from_bits(x).to_string(),
        FloatBits::F32(x) => f32::from_bits(x).to_string(),
    }
}

fn fixed4(b: FloatBits) -> String {
    match b {
        FloatBits::F64(x) => format!("{:.4}", f64::from_bits(x)),
        FloatBits::F32(x) => format!("{:.4}", f32::from_bits(x)),
    }
}

fn f64_column(values: Vec<f64>) -> ColumnVector {
    ColumnVector::Float64 { data: values.iter().map(|v| v.to_bits()).collect(), validity: None }
}

fn f32_column(values: Vec<f32>) -> ColumnVector {
    ColumnVector::Float32 { data: values.iter().map(|v| v.to_bits()).collect(), validity: None }
}

fn f64_option_column(values: Vec<Option<f64>>) -> ColumnVector {
    let bits: Vec<Option<u64>> = values.iter().map(|o| o.map(|v| v.to_bits())).collect();
    let (data, validity) = collect_with_validity(bits, f64::NAN.to_bits());
    ColumnVector::Float64 { data, validity }
}

fn as_f64(v: NumericValue) -> f64 {
    match v {
        NumericValue::Int(i) => i as f64,
        NumericValue::UInt(u) => u as f64,
        NumericValue::Float64Bits(b) => f64::from_bits(b),
        NumericValue::Float32Bits(b) => f32::from_bits(b) as f64,
    }
}

fn get_f64(ds: &Dataset, name: &str, row: usize) -> Option<f64> {
    ds.column(name).ok().and_then(|col| col.numeric_value(row)).map(as_f64)
}

#[test]
fn test_dataset_construction_methods() {
    // --- Method 1: imperative construction ---
    let mut ds_manual = Dataset::new();
    ds_manual.add_column("id", vec![1i64, 2, 3].into()).unwrap();
    ds_manual.add_column("value", f64_option_column(vec![Some(10.1), None, Some(30.3)])).unwrap();

    assert_eq!(ds_manual.height(), 3);
    assert!(ds_manual.is_null("value", 1));

    // --- Method 2: from (name, column) pairs ---
    let raw_data = vec![
        ("name", vec![Some("A".to_string()), Some("B".to_string())].into_column()),
        ("score", vec![100i64, 200i64].into_column()),
    ];
    let ds_from_tuples = raw_data.to_dataset().expect("Should convert from tuples successfully");
    assert_eq!(ds_from_tuples.height(), 2);
    assert_eq!(ds_from_tuples.get_str("name", 0, &display_float).unwrap(), "A");

    // --- Method 3: mixed types (timestamps of 2026-03-30 and 2026-03-31 UTC in milliseconds) ---
    let complex_data = vec![
        (
            "timestamp",
            ColumnVector::Datetime {
                data: vec![1774828800000, 1774915200000],
                validity: None,
                unit: TimeUnit::Milliseconds,
            },
        ),
        ("f32_val", f32_column(vec![1.1f32, 2.2f32])),
        ("tags", vec![Some("heavy".to_string()), None].into_column()),
    ];
    let ds_complex = complex_data.to_dataset().expect("Should handle heterogeneous types");
    assert_eq!(ds_complex.height(), 2);
    assert!(!ds_complex.is_null("timestamp", 0));
    assert!(ds_complex.is_null("tags", 1));
    println!("\n--- Construction Method 3 Output ---");
    println!("{}", ds_complex.debug_text(&fixed4));

    // --- Method 4: fluent construction ---
    let ds_fluent = Dataset::new()
        .with_column("x", f64_column(vec![10.0, 20.0, 30.0]))
        .unwrap()
        .with_column("y", vec![Some(100i64), None, Some(300i64)].into())
        .unwrap()
        .with_column("category", vec!["A", "B", "C"].into())
        .unwrap();
    assert_eq!(ds_fluent.height(), 3);
    assert_eq!(ds_fluent.width(), 3);
    assert!(ds_fluent.is_null("y", 1));
    assert!(!ds_fluent.is_null("x", 1));
    println!("\n--- Construction Method 4 (Fluent) Output ---");
    println!("{}", ds_fluent.debug_text(&fixed4));
}

#[test]
fn test_get_column_and_nan_handling() {
    let mut ds = Dataset::new();
    // Ingest data with a NaN value
    let prices = vec![10.5, f64::NAN, 30.2];
    ds.add_column("price", f64_column(prices)).unwrap();

    // Retrieve the stored binary64 patterns
    let col = ds.get_column::<u64>("price").expect("Column should exist");
    assert_eq!(col.len(), 3);
    assert_eq!(f64::from_bits(col[0]), 10.5);
    assert!(f64::from_bits(col[1]).is_nan()); // Verify NaN is preserved

    // Verify type safety: requesting as i64 should fail
    let wrong_type = ds.get_column::<i64>("price");
    assert!(wrong_type.is_err());
}

#[test]
fn test_get_value_with_bitmaps() {
    let mut ds = Dataset::new();
    let ids = vec![Some(100), None, Some(300)];
    ds.add_column("id", ids.into()).unwrap();

    assert_eq!(get_f64(&ds, "id", 0).unwrap(), 100.0);
    assert!(!ds.is_null("id", 0));
    assert!(ds.is_null("id", 1));
    assert_eq!(get_f64(&ds, "id", 2).unwrap(), 300.0);
    assert!(ds.is_null("non_existent", 0));
}

#[test]
fn test_dataset_display_and_truncation() {
    let mut ds = Dataset::new();
    ds.add_column("id", vec![Some(1), Some(2)].into()).unwrap();
    ds.add_column("city", vec![Some("San Francisco"), None].into()).unwrap();
    ds.add_column("value", f64_column(vec![1.234567, 8.9])).unwrap();

    let text = ds.debug_text(&fixed4);
    println!("\n--- Dataset Debug Output ---");
    println!("{}", text);
    println!("----------------------------");

    assert_eq!(ds.height(), 2);
    assert!(text.contains("San Fra..."));
    assert!(text.contains("null"));
    assert!(text.contains("1.2346"));
}
