//! Tables, stacking, and the remaining error paths.
use polars::csv::infer_file_schema;
use polars::datatypes::{DataType, Field, Schema};
use polars::error::PolarsError;
use polars::frame::{DataFrame, accumulate_dataframes};
use polars::named_from::NamedFrom;
use polars::series::Series;

#[test]
fn vstack_and_accumulate() {
    let a = DataFrame::new_no_checks(vec![Series::new("x", &[1i64, 2][..])]);
    let b = DataFrame::new_no_checks(vec![Series::new("x", &[3i64][..])]);
    let out = accumulate_dataframes(vec![a, b]).unwrap();
    assert_eq!(out.height(), 3);
    assert_eq!(
        out.get_columns()[0].i64().unwrap().to_vec(),
        vec![Some(1), Some(2), Some(3)]
    );

    let empty: Vec<DataFrame> = Vec::new();
    assert!(matches!(
        accumulate_dataframes(empty),
        Err(PolarsError::EmptyAccumulate)
    ));

    let mut wide = DataFrame::new_no_checks(vec![
        Series::new("x", &[1i64][..]),
        Series::new("y", &[2i64][..]),
    ]);
    let narrow = DataFrame::new_no_checks(vec![Series::new("x", &[1i64][..])]);
    assert!(matches!(
        wide.vstack(&narrow),
        Err(PolarsError::ShapeMisMatch)
    ));
}

#[test]
fn unsupported_schema_type_is_fatal() {
    let schema = Schema::new(vec![Field::new("d", DataType::Date32, true)]);
    let err = polars::csv::read_csv(
        b"1\n".to_vec(),
        None,
        0,
        None,
        8,
        None,
        None,
        false,
        true,
        Some(schema),
        false,
        None,
    )
    .unwrap_err();
    assert!(matches!(err, PolarsError::UnsupportedType));
}

#[test]
fn header_must_be_text() {
    let data = vec![0xffu8, 0xfe, b'\n', b'1', b'\n'];
    let err = infer_file_schema(&data, b',', None, true).unwrap_err();
    assert!(matches!(err, PolarsError::BadHeader));
}

#[test]
fn time_of_day_parts() {
    // 1970-01-02 03:04:05.678, and one timestamp before the epoch.
    let ms: i64 = 86400000 + 3 * 3600000 + 4 * 60000 + 5 * 1000 + 678;
    let s = Series::Date64(polars::chunked::ChunkedArray::new_from_opt_slice(
        "t",
        &[Some(ms), None, Some(-1)],
    ));
    assert_eq!(
        s.hour().unwrap().u32().unwrap().to_vec(),
        vec![Some(3), None, Some(23)]
    );
    assert_eq!(
        s.minute().unwrap().u32().unwrap().to_vec(),
        vec![Some(4), None, Some(59)]
    );
    assert_eq!(
        s.second().unwrap().u32().unwrap().to_vec(),
        vec![Some(5), None, Some(59)]
    );
    assert_eq!(
        s.nanosecond().unwrap().u32().unwrap().to_vec(),
        vec![Some(678000000), None, Some(999000000)]
    );
    assert!(Series::new("n", &[1i32][..]).hour().is_err());
}

#[test]
fn filter_zip_and_reductions() {
    let s = Series::new("v", &[Some(1i64), None, Some(3), Some(4)][..]);
    let mask = polars::chunked::ChunkedArray::new_from_slice("m", &[true, true, false, true]);
    let kept = s.filter(&mask).unwrap();
    assert_eq!(kept.i64().unwrap().to_vec(), vec![Some(1), None, Some(4)]);

    assert_eq!(
        s.drop_nulls().i64().unwrap().to_vec(),
        vec![Some(1), Some(3), Some(4)]
    );

    let other = Series::new("w", &[10i64, 20, 30, 40][..]);
    let zipped = s.zip_with(&mask, &other).unwrap();
    assert_eq!(
        zipped.i64().unwrap().to_vec(),
        vec![Some(1), None, Some(30), Some(4)]
    );

    assert_eq!(
        s.sum_as_series().unwrap().i64().unwrap().to_vec(),
        vec![Some(8)]
    );
    assert_eq!(
        s.max_as_series().unwrap().i64().unwrap().to_vec(),
        vec![Some(4)]
    );
    assert_eq!(
        s.min_as_series().unwrap().i64().unwrap().to_vec(),
        vec![Some(1)]
    );

    let flags = Series::new("f", &[Some(true), Some(false), None][..]);
    let hits = flags.arg_true().unwrap();
    assert_eq!(hits.to_vec(), vec![Some(0u32)]);
}
