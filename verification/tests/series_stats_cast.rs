use explorer::error::ErrorKind;
use explorer::series::Series;
use explorer::value::{Dtype, TypedValue};

fn ints(name: &str, items: Vec<Option<i64>>) -> Series {
    Series::new_i64(String::from(name), &items)
}

#[test]
fn distinct_keeps_first_occurrence_order() {
    let s = ints("a", vec![Some(2), Some(1), Some(2), None, Some(1), None]);
    let d = s.distinct();
    assert!(d.series_equal(&ints("a", vec![Some(2), Some(1), None])));
}

#[test]
fn distinct_twice_equals_distinct_once() {
    let s = ints("a", vec![Some(3), Some(3), Some(1), None, Some(3), None, Some(7)]);
    let once = s.distinct();
    let twice = once.distinct();
    assert!(once.series_equal(&twice));
}

#[test]
fn unordered_distinct_and_n_unique() {
    let s = ints("a", vec![Some(5), Some(5), None, Some(6)]);
    let u = s.unordered_distinct();
    assert_eq!(u.len(), 3);
    assert_eq!(s.n_unique(), 3);
}

#[test]
fn min_max_skip_nulls() {
    let s = ints("a", vec![None, Some(4), Some(-2), Some(9), None]);
    let mn = s.min().unwrap().unwrap();
    let mx = s.max().unwrap().unwrap();
    assert!(matches!(mn, TypedValue::Int64(-2)));
    assert!(matches!(mx, TypedValue::Int64(9)));
    let empty = ints("a", vec![None, None]);
    assert!(empty.min().unwrap().is_none());
}

#[test]
fn min_needs_ordered_dtype() {
    let s = Series::new_utf8(String::from("a"), &vec![Some(String::from("x"))]);
    let e = s.min().unwrap_err();
    assert_eq!(e.kind(), ErrorKind::InvalidArgument);
}

#[test]
fn sum_adds_non_null_cells() {
    let s = ints("a", vec![Some(1), None, Some(2), Some(4)]);
    assert_eq!(s.sum().unwrap(), 7);
    let empty = ints("a", vec![]);
    assert_eq!(empty.sum().unwrap(), 0);
}

#[test]
fn sum_overflow_is_computation_failure() {
    let s = ints("a", vec![Some(i64::MAX), Some(1)]);
    let e = s.sum().unwrap_err();
    assert_eq!(e.kind(), ErrorKind::ComputationFailure);
}

#[test]
fn series_equal_is_structural() {
    let a = ints("x", vec![Some(1), None]);
    let b = ints("y", vec![Some(1), None]);
    // Names are not compared; values and null positions are.
    assert!(a.series_equal(&b));
    let c = ints("x", vec![Some(1), Some(0)]);
    assert!(!a.series_equal(&c));
}

#[test]
fn coalesce_takes_other_where_null() {
    let a = ints("a", vec![Some(1), None, None]);
    let b = ints("b", vec![Some(9), Some(8), None]);
    let r = a.coalesce(&b).unwrap();
    assert!(r.series_equal(&ints("a", vec![Some(1), Some(8), None])));
}

#[test]
fn cast_string_to_int_fails_naming_the_element() {
    let s = Series::new_utf8(
        String::from("a"),
        &vec![
            Some(String::from("1")),
            Some(String::from("2")),
            Some(String::from("x")),
        ],
    );
    let e = s.cast(Dtype::Int64).unwrap_err();
    assert_eq!(e.kind(), ErrorKind::InvalidArgument);
    assert!(e.message().contains("x"));
}

#[test]
fn cast_string_to_int_parses_each_element() {
    let s = Series::new_utf8(
        String::from("a"),
        &vec![
            Some(String::from("1")),
            None,
            Some(String::from("-42")),
        ],
    );
    let r = s.cast(Dtype::Int64).unwrap();
    assert!(r.series_equal(&ints("a", vec![Some(1), None, Some(-42)])));
}

#[test]
fn cast_int_to_string_renders_decimals() {
    let s = ints("a", vec![Some(0), Some(-7), None, Some(i64::MIN)]);
    let r = s.cast(Dtype::Utf8).unwrap();
    let expect = Series::new_utf8(
        String::from("a"),
        &vec![
            Some(String::from("0")),
            Some(String::from("-7")),
            None,
            Some(String::from("-9223372036854775808")),
        ],
    );
    assert!(r.series_equal(&expect));
}

#[test]
fn cast_int_bool_and_datetime() {
    let s = ints("a", vec![Some(0), Some(5), None]);
    let b = s.cast(Dtype::Boolean).unwrap();
    assert!(b.series_equal(
        &Series::new_bool(String::from("a"), &vec![Some(false), Some(true), None])
    ));
    let back = b.cast(Dtype::Int64).unwrap();
    assert!(back.series_equal(&ints("a", vec![Some(0), Some(1), None])));
    let dt = s.cast(Dtype::Datetime).unwrap();
    assert_eq!(dt.dtype(), Dtype::Datetime);
    let widened = dt.cast(Dtype::Int64).unwrap();
    assert!(widened.series_equal(&s));
}

#[test]
fn cast_unsupported_pair_is_invalid() {
    let s = Series::new_bool(String::from("a"), &vec![Some(true)]);
    let e = s.cast(Dtype::Utf8).unwrap_err();
    assert_eq!(e.kind(), ErrorKind::InvalidArgument);
}

#[test]
fn to_list_hands_out_cells() {
    let s = ints("a", vec![Some(1), None]);
    let cells = s.to_list();
    assert_eq!(cells.len(), 2);
    assert!(matches!(cells[0], TypedValue::Int64(1)));
    assert!(matches!(cells[1], TypedValue::Null));
}

#[test]
fn string_round_trip_through_casts() {
    let s = ints("a", vec![Some(123), Some(-456), None]);
    let there = s.cast(Dtype::Utf8).unwrap();
    let back = there.cast(Dtype::Int64).unwrap();
    assert!(back.series_equal(&s));
}
