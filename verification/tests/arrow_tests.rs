use arrow::array::{Array, Float64Array, Int64Array, StringArray, Time32SecondArray, TimestampMillisecondArray};
use charton::ingest::{ArrowValues, SourceUnit};
use charton::timefmt::datetime_text;
use charton::ColumnVector;

fn slots<A: Array, T>(arr: &A, value: impl Fn(&A, usize) -> T) -> Vec<Option<T>> {
    (0..arr.len()).map(|i| if arr.is_valid(i) { Some(value(arr, i)) } else { None }).collect()
}

#[test]
fn test_arrow_ingestion() {
    // 1. Float64 with nulls: null slots hold NaN.
    let f64_array = Float64Array::from(vec![Some(1.1), None, Some(3.3)]);
    let col_f64 = ColumnVector::from_arrow_values(ArrowValues::Float64(slots(&f64_array, |a, i| a.value(i).to_bits())));
    match col_f64 {
        ColumnVector::Float64 { data, .. } => {
            println!("F64 Data (converted): {:?}", data);
            assert_eq!(f64::from_bits(data[0]), 1.1);
            assert!(f64::from_bits(data[1]).is_nan());
            assert_eq!(f64::from_bits(data[2]), 3.3);
        }
        _ => panic!("F64 ingestion failed"),
    }

    // 2. Int64 with nulls: the validity bitmask marks rows 0 and 2.
    let i64_array = Int64Array::from(vec![Some(10), None, Some(30)]);
    let col_i64 = ColumnVector::from_arrow_values(ArrowValues::Int64(slots(&i64_array, |a, i| a.value(i))));
    match col_i64 {
        ColumnVector::Int64 { data, validity } => {
            println!("I64 Data: {:?}, Validity Mask: {:?}", data, validity);
            assert_eq!(data, vec![10, 0, 30]);
            assert!(validity.is_some());
            assert_eq!(validity.unwrap()[0], 0b101);
        }
        _ => panic!("I64 ingestion failed"),
    }

    // 3. Strings: null slots hold "".
    let str_array = StringArray::from(vec![Some("Charton"), None, Some("Rust")]);
    let col_str = ColumnVector::from_arrow_values(ArrowValues::Utf8(slots(&str_array, |a, i| a.value(i).to_string())));
    match col_str {
        ColumnVector::String { data, validity } => {
            println!("String Data: {:?}, Validity Mask: {:?}", data, validity);
            assert_eq!(data[0], "Charton");
            assert_eq!(data[1], "");
            assert_eq!(data[2], "Rust");
            assert!(validity.is_some());
        }
        _ => panic!("String ingestion failed"),
    }

    // 4. Millisecond timestamps: 1711872000000 ms is 2024-03-31T08:00:00Z; a null is the epoch.
    let ts_array = TimestampMillisecondArray::from(vec![Some(1711872000000), None]);
    let col_ts = ColumnVector::from_arrow_values(ArrowValues::Timestamp(slots(&ts_array, |a, i| a.value(i)), SourceUnit::Millisecond));
    match col_ts {
        ColumnVector::Datetime { data, validity, unit } => {
            println!("DateTime Data: {:?}, Validity Mask: {:?}", data, validity);
            let first = datetime_text(data[0], unit).unwrap();
            assert!(first.starts_with("2024-03"));
            let second = datetime_text(data[1], unit).unwrap();
            assert!(second.starts_with("1970"));
            assert!(validity.is_some());
        }
        _ => panic!("Timestamp ingestion failed"),
    }
}

#[test]
fn arrow_time_of_day_in_seconds() {
    let array = Time32SecondArray::from(vec![1]);
    let col = ColumnVector::from_arrow_values(ArrowValues::Time(slots(&array, |a, i| a.value(i) as i64), SourceUnit::Second));
    match col {
        ColumnVector::Time { data, validity } => {
            assert_eq!(data, vec![1_000_000_000i64]);
            assert!(validity.is_none());
        }
        _ => panic!("Time ingestion failed"),
    }
}
