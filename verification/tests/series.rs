//! The series operations, exercised from outside.
use polars::casting::{Float32Type, Int64Type};
use polars::chunked::{ChunkedArray, Int32Chunked};
use polars::floatval::FloatValue;
use polars::named_from::NamedFrom;
use polars::series::Series;

#[test]
fn test_arithmetic_series() {
    // Series +-/* Series
    let s: Series = Series::new("", &[1i32, 2, 3][..]);
    assert_eq!(
        s.multiply(&s).unwrap().i32().unwrap().to_vec(),
        vec![Some(1), Some(4), Some(9)]
    );
    assert_eq!(
        s.divide(&s).unwrap().i32().unwrap().to_vec(),
        vec![Some(1), Some(1), Some(1)]
    );
    assert_eq!(
        s.subtract(&s).unwrap().i32().unwrap().to_vec(),
        vec![Some(0), Some(0), Some(0)]
    );
    assert_eq!(
        s.add_to(&s).unwrap().i32().unwrap().to_vec(),
        vec![Some(2), Some(4), Some(6)]
    );
    // Series +-/* Number
    assert_eq!(
        s.add_number(1).unwrap().i32().unwrap().to_vec(),
        vec![Some(2), Some(3), Some(4)]
    );
    assert_eq!(
        s.subtract_number(1).unwrap().i32().unwrap().to_vec(),
        vec![Some(0), Some(1), Some(2)]
    );
    assert_eq!(
        s.multiply_number(2).unwrap().i32().unwrap().to_vec(),
        vec![Some(2), Some(4), Some(6)]
    );
    assert_eq!(
        s.divide_number(2).unwrap().i32().unwrap().to_vec(),
        vec![Some(0), Some(1), Some(1)]
    );
    // Lhs operations
    assert_eq!(
        s.lhs_add_number(1).unwrap().i32().unwrap().to_vec(),
        vec![Some(2), Some(3), Some(4)]
    );
    assert_eq!(
        s.lhs_subtract_number(1).unwrap().i32().unwrap().to_vec(),
        vec![Some(0), Some(-1), Some(-2)]
    );
    assert_eq!(
        s.lhs_divide_number(1).unwrap().i32().unwrap().to_vec(),
        vec![Some(1), Some(0), Some(0)]
    );
    assert_eq!(
        s.lhs_multiply_number(1).unwrap().i32().unwrap().to_vec(),
        vec![Some(1), Some(2), Some(3)]
    );
}

#[test]
fn test_iter() {
    let a = Series::new("age", &[23i32, 71, 9][..]);
    let _b: Vec<Option<i32>> = a
        .i32()
        .unwrap()
        .to_vec()
        .into_iter()
        .map(|opt_v| opt_v.map(|v| v * 2))
        .collect();
}

#[test]
fn cast() {
    let ar = ChunkedArray::<i32>::new_from_slice("a", &[1, 2]);
    let s = Series::Int32(ar);
    let s2 = s.cast::<Int64Type>().unwrap();
    match s2 {
        Series::Int64(_) => assert!(true),
        _ => assert!(false),
    }
    let s2 = s.cast::<Float32Type>().unwrap();
    match s2 {
        Series::Float32(_) => assert!(true),
        _ => assert!(false),
    }
}

#[test]
fn new_series() {
    Series::new("boolean series", &vec![true, false, true][..]);
    Series::new("int series", &[1i32, 2, 3][..]);
    let ca = Int32Chunked::new_from_slice("a", &[1, 2, 3]);
    ca.into_series();
}

#[test]
fn series_append() {
    let mut s1 = Series::new("a", &[1i32, 2][..]);
    let s2 = Series::new("b", &[3i32][..]);
    s1.append(&s2).unwrap();
    assert_eq!(s1.len(), 3);

    // add wrong type
    let s2 = Series::new(
        "b",
        &[FloatValue::Num { negative: false, mantissa: 3, exponent: 0 }][..],
    );
    assert!(s1.append(&s2).is_err());
}

#[test]
fn cast_values_carry_over() {
    let s = Series::new("a", &[1i32, -5, 300][..]);
    let t = s.cast::<Int64Type>().unwrap();
    assert_eq!(t.i64().unwrap().to_vec(), vec![Some(1), Some(-5), Some(300)]);
    let u = s.cast::<polars::casting::UInt8Type>().unwrap();
    // -5 and 300 do not fit u8 and become nulls.
    assert_eq!(u.u8().unwrap().to_vec(), vec![Some(1), None, None]);
}

#[test]
fn slice_head_tail_reverse() {
    let s = Series::new("n", &[10i32, 20, 30, 40][..]);
    assert_eq!(
        s.slice(1, 2).unwrap().i32().unwrap().to_vec(),
        vec![Some(20), Some(30)]
    );
    assert!(s.slice(3, 2).is_err());
    assert_eq!(s.head(Some(2)).i32().unwrap().to_vec(), vec![Some(10), Some(20)]);
    assert_eq!(s.tail(Some(1)).i32().unwrap().to_vec(), vec![Some(40)]);
    assert_eq!(
        s.reverse().i32().unwrap().to_vec(),
        vec![Some(40), Some(30), Some(20), Some(10)]
    );
    assert_eq!(s.limit(10).unwrap().len(), 4);
}

#[test]
fn shift_and_nulls() {
    let s = Series::new("series", &[1i32, 2, 3][..]);
    let shifted = s.shift(1).unwrap();
    assert_eq!(shifted.i32().unwrap().to_vec(), vec![None, Some(1), Some(2)]);
    let shifted = s.shift(-1).unwrap();
    assert_eq!(shifted.i32().unwrap().to_vec(), vec![Some(2), Some(3), None]);
    let shifted = s.shift(2).unwrap();
    assert_eq!(shifted.i32().unwrap().to_vec(), vec![None, None, Some(1)]);

    let with_nulls = Series::new("m", &[Some(1i32), None, Some(2)][..]);
    assert_eq!(with_nulls.null_count(), 1);
    assert_eq!(with_nulls.is_null().to_vec(), vec![Some(false), Some(true), Some(false)]);
    assert_eq!(
        with_nulls.is_not_null().to_vec(),
        vec![Some(true), Some(false), Some(true)]
    );
}

#[test]
fn take_and_expand() {
    let s = Series::new("a", &[0i32, 1, 8][..]);
    let expanded = s.expand_at_index(2, 4);
    assert_eq!(
        expanded.i32().unwrap().to_vec(),
        vec![Some(8), Some(8), Some(8), Some(8)]
    );
    let taken = s.take(&vec![2usize, 0, 9]);
    assert_eq!(taken.i32().unwrap().to_vec(), vec![Some(8), Some(0), None]);
}
