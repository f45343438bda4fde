//! The CSV ingestion engine, exercised end to end.
use polars::csv::{build_csv_reader, infer_file_schema, read_csv};
use polars::datatypes::{DataType, Field, Schema};
use polars::error::PolarsError;
use polars::floatval::FloatValue;
use polars::frame::DataFrame;

fn float_of(v: &FloatValue) -> f64 {
    match v {
        FloatValue::NaN => f64::NAN,
        FloatValue::Inf { negative } => {
            if *negative {
                f64::NEG_INFINITY
            } else {
                f64::INFINITY
            }
        }
        FloatValue::Num { negative, mantissa, exponent } => {
            let m = *mantissa as f64;
            let mag = if *exponent >= 0 {
                m * 10f64.powi(*exponent)
            } else {
                m / 10f64.powi(-*exponent)
            };
            if *negative {
                -mag
            } else {
                mag
            }
        }
    }
}

fn read_all(
    data: &str,
    has_header: bool,
    skip_rows: usize,
    n_rows: Option<usize>,
    projection: Option<Vec<usize>>,
    tolerant: bool,
    schema: Option<Schema>,
    file_backed: bool,
    n_threads: Option<usize>,
) -> Result<DataFrame, PolarsError> {
    read_csv(
        data.as_bytes().to_vec(),
        n_rows,
        skip_rows,
        projection,
        64,
        None,
        None,
        has_header,
        tolerant,
        schema,
        file_backed,
        n_threads,
    )
}

#[test]
fn inferred_schema_and_values() {
    let data = "a,b,c\n1,2.5,x\n,3,y\n";
    let (schema, count) =
        infer_file_schema(&data.as_bytes().to_vec(), b',', None, true).unwrap();
    assert_eq!(count, 2);
    let fields = schema.fields();
    assert_eq!(fields.len(), 3);
    assert_eq!(fields[0].name(), "a");
    assert_eq!(fields[0].data_type(), DataType::Int64);
    assert!(fields[0].is_nullable());
    assert_eq!(fields[1].name(), "b");
    assert_eq!(fields[1].data_type(), DataType::Float64);
    assert!(!fields[1].is_nullable());
    assert_eq!(fields[2].name(), "c");
    assert_eq!(fields[2].data_type(), DataType::Utf8);

    let df = read_all(data, true, 0, None, None, false, None, true, Some(2)).unwrap();
    assert_eq!(df.width(), 3);
    assert_eq!(df.height(), 2);
    let cols = df.get_columns();
    assert_eq!(cols[0].i64().unwrap().to_vec(), vec![Some(1), None]);
    let b: Vec<Option<f64>> = cols[1]
        .float64()
        .unwrap()
        .to_vec()
        .iter()
        .map(|o| o.as_ref().map(float_of))
        .collect();
    assert_eq!(b, vec![Some(2.5), Some(3.0)]);
    assert_eq!(
        cols[2].utf8().unwrap().to_vec(),
        vec![Some("x".to_string()), Some("y".to_string())]
    );
}

#[test]
fn projection_selects_columns() {
    let data = "a,b,c\n1,2.5,x\n,3,y\n";
    let df = read_all(data, true, 0, None, Some(vec![0, 2]), false, None, true, None).unwrap();
    assert_eq!(df.width(), 2);
    let cols = df.get_columns();
    assert_eq!(cols[0].name(), "a");
    assert_eq!(cols[0].i64().unwrap().to_vec(), vec![Some(1), None]);
    assert_eq!(
        cols[1].utf8().unwrap().to_vec(),
        vec![Some("x".to_string()), Some("y".to_string())]
    );
}

#[test]
fn parallel_reads_all_rows_in_order() {
    let mut data = String::new();
    for i in 0..10000 {
        data.push_str(&format!("{}\n", i));
    }
    let df = read_all(&data, false, 10, None, None, false, None, true, Some(4)).unwrap();
    assert_eq!(df.height(), 9990);
    let vals = df.get_columns()[0].i64().unwrap().to_vec();
    for (k, v) in vals.iter().enumerate() {
        assert_eq!(*v, Some(10 + k as i64));
    }
}

#[test]
fn parallel_equals_sequential() {
    let mut data = String::from("h\n");
    for i in 0..257 {
        data.push_str(&format!("{}\n", i * 3));
    }
    for threads in [1usize, 2, 3, 7] {
        let par =
            read_all(&data, true, 1, None, None, false, None, true, Some(threads)).unwrap();
        let seq = read_all(&data, true, 1, None, None, false, None, false, None).unwrap();
        assert_eq!(par.width(), seq.width());
        assert_eq!(par.height(), seq.height());
        assert_eq!(
            par.get_columns()[0].i64().unwrap().to_vec(),
            seq.get_columns()[0].i64().unwrap().to_vec()
        );
    }
}

#[test]
fn tolerant_mode_stores_null_strict_mode_reports() {
    let schema = Schema::new(vec![Field::new("a", DataType::Int64, true)]);
    let data = "zz\n7\n";
    let df = read_all(data, false, 0, None, None, true, Some(schema.clone()), false, None)
        .unwrap();
    assert_eq!(df.get_columns()[0].i64().unwrap().to_vec(), vec![None, Some(7)]);

    let err =
        read_all(data, false, 0, None, None, false, Some(schema), false, None).unwrap_err();
    match err {
        PolarsError::ParseError { column, line, value } => {
            assert_eq!(column, 0);
            assert_eq!(line, 1);
            assert_eq!(value, b"zz".to_vec());
        }
        other => panic!("unexpected error {:?}", other),
    }
}

#[test]
fn malformed_record_is_skipped_or_reported() {
    let schema = Schema::new(vec![
        Field::new("a", DataType::Int64, true),
        Field::new("b", DataType::Int64, true),
    ]);
    let data = "1,2\n3\n4,5\n";
    let df = read_all(data, false, 0, None, None, true, Some(schema.clone()), false, None)
        .unwrap();
    assert_eq!(
        df.get_columns()[0].i64().unwrap().to_vec(),
        vec![Some(1), Some(4)]
    );
    let err =
        read_all(data, false, 0, None, None, false, Some(schema), false, None).unwrap_err();
    match err {
        PolarsError::MalformedRecord { line } => assert_eq!(line, 2),
        other => panic!("unexpected error {:?}", other),
    }
}

#[test]
fn row_limit_and_skip() {
    let data = "x\n1\n2\n3\n4\n5\n";
    let df = read_all(data, true, 1, Some(2), None, false, None, false, None).unwrap();
    assert_eq!(df.get_columns()[0].i64().unwrap().to_vec(), vec![Some(2), Some(3)]);
}

#[test]
fn inference_widens_and_falls_back() {
    let data = "i,m\n1,true\n2.5,3\n";
    let (schema, _) = infer_file_schema(&data.as_bytes().to_vec(), b',', None, true).unwrap();
    // integers and decimals widen to floats; booleans and integers mix
    // down to text.
    assert_eq!(schema.fields()[0].data_type(), DataType::Float64);
    assert_eq!(schema.fields()[1].data_type(), DataType::Utf8);
}

#[test]
fn inference_without_header_names_columns() {
    let data = "10,20\n30,40\n";
    let (schema, count) =
        infer_file_schema(&data.as_bytes().to_vec(), b',', Some(1), false).unwrap();
    assert_eq!(count, 1);
    assert_eq!(schema.fields()[0].name(), "column_1");
    assert_eq!(schema.fields()[1].name(), "column_2");
    assert_eq!(schema.fields()[0].data_type(), DataType::Int64);
}

#[test]
fn empty_input_infers_empty_schema() {
    let (schema, count) = infer_file_schema(&Vec::new(), b',', None, true).unwrap();
    assert_eq!(schema.len(), 0);
    assert_eq!(count, 0);
}

#[test]
fn boolean_and_quoted_fields() {
    let data = "f,t\ntrue,\"x,y\"\nFALSE,z\n";
    let df = read_all(data, true, 0, None, None, false, None, true, None).unwrap();
    let cols = df.get_columns();
    assert_eq!(cols[0].bool().unwrap().to_vec(), vec![Some(true), Some(false)]);
    assert_eq!(
        cols[1].utf8().unwrap().to_vec(),
        vec![Some("x,y".to_string()), Some("z".to_string())]
    );
}

#[test]
fn build_reader_paths() {
    let data = "a\n1\n".as_bytes().to_vec();
    let par = build_csv_reader(
        data.clone(),
        None,
        0,
        None,
        8,
        None,
        None,
        true,
        false,
        None,
        true,
        None,
    )
    .unwrap();
    assert!(matches!(par, polars::csv::CsvReader::Parallel(_)));
    let seq = build_csv_reader(
        data,
        Some(1),
        0,
        None,
        8,
        None,
        None,
        true,
        false,
        None,
        true,
        None,
    )
    .unwrap();
    assert!(matches!(seq, polars::csv::CsvReader::Sequential(_)));
}

#[test]
fn float_forms_parse_exactly() {
    let data = "v\n-2.5\n1e3\n.5\ninf\n4\n";
    let schema = Schema::new(vec![Field::new("v", DataType::Float64, true)]);
    let df = read_all(data, true, 0, None, None, false, Some(schema), false, None).unwrap();
    let vals: Vec<Option<f64>> = df.get_columns()[0]
        .float64()
        .unwrap()
        .to_vec()
        .iter()
        .map(|o| o.as_ref().map(float_of))
        .collect();
    assert_eq!(
        vals,
        vec![Some(-2.5), Some(1000.0), Some(0.5), Some(f64::INFINITY), Some(4.0)]
    );
}

#[test]
fn inference_is_deterministic() {
    let data = "a,b\n1,x\n2.5,\ntrue,z\n";
    let bytes = data.as_bytes().to_vec();
    let (s1, c1) = infer_file_schema(&bytes, b',', Some(2), true).unwrap();
    let (s2, c2) = infer_file_schema(&bytes, b',', Some(2), true).unwrap();
    assert_eq!(c1, c2);
    assert_eq!(s1.len(), s2.len());
    for i in 0..s1.len() {
        let f1 = &s1.fields()[i];
        let f2 = &s2.fields()[i];
        assert_eq!(f1.name(), f2.name());
        assert_eq!(f1.data_type(), f2.data_type());
        assert_eq!(f1.is_nullable(), f2.is_nullable());
    }
}
