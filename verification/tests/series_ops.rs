use explorer::error::ErrorKind;
use explorer::series::Series;
use explorer::series_arith::{ArithOp, BoolOp, CmpOp};
use explorer::value::{values_equal, Dtype, TypedValue};

fn ints(name: &str, items: Vec<Option<i64>>) -> Series {
    Series::new_i64(String::from(name), &items)
}

#[test]
fn take_then_get_matches_direct_access() {
    let s = ints("a", vec![Some(10), Some(20), None, Some(40)]);
    for i in 0..4usize {
        let direct = s.get(i).unwrap();
        let taken = s.take(&vec![i]).unwrap();
        assert_eq!(taken.len(), 1);
        let via_take = taken.get(0).unwrap();
        assert!(values_equal(&direct, &via_take));
    }
}

#[test]
fn take_out_of_bounds_fails() {
    let s = ints("a", vec![Some(1), Some(2)]);
    let e = s.take(&vec![0, 5]).unwrap_err();
    assert_eq!(e.kind(), ErrorKind::IndexOutOfBounds);
    let e2 = s.get(2).unwrap_err();
    assert_eq!(e2.kind(), ErrorKind::IndexOutOfBounds);
}

#[test]
fn fill_none_with_int_fills_only_nulls() {
    let s = ints("a", vec![Some(1), Some(2), None, Some(4)]);
    let f = s.fill_none_with_int(0).unwrap();
    let expect = ints("a", vec![Some(1), Some(2), Some(0), Some(4)]);
    assert!(f.series_equal(&expect));
}

#[test]
fn fill_none_with_int_needs_int_series() {
    let s = Series::new_bool(String::from("b"), &vec![Some(true), None]);
    let e = s.fill_none_with_int(0).unwrap_err();
    assert_eq!(e.kind(), ErrorKind::SchemaMismatch);
}

#[test]
fn filter_mask_length_mismatch_is_schema_mismatch() {
    let s = ints("a", vec![Some(1), Some(2), Some(3)]);
    let mask = Series::new_bool(String::from("m"), &vec![Some(true), Some(false)]);
    let e = s.filter(&mask).unwrap_err();
    assert_eq!(e.kind(), ErrorKind::SchemaMismatch);
}

#[test]
fn filter_needs_boolean_mask() {
    let s = ints("a", vec![Some(1), Some(2)]);
    let mask = ints("m", vec![Some(1), Some(0)]);
    let e = s.filter(&mask).unwrap_err();
    assert_eq!(e.kind(), ErrorKind::InvalidArgument);
}

#[test]
fn filter_keeps_true_rows_and_drops_null_mask_rows() {
    let s = ints("a", vec![Some(1), Some(2), Some(3), Some(4)]);
    let mask = Series::new_bool(
        String::from("m"),
        &vec![Some(true), Some(false), None, Some(true)],
    );
    let f = s.filter(&mask).unwrap();
    assert!(f.series_equal(&ints("a", vec![Some(1), Some(4)])));
}

#[test]
fn add_propagates_null() {
    let a = ints("a", vec![Some(1), None, Some(3)]);
    let b = ints("b", vec![Some(10), Some(20), None]);
    let r = a.add(&b).unwrap();
    assert!(r.series_equal(&ints("a", vec![Some(11), None, None])));
}

#[test]
fn sub_mul_div_compute_elementwise() {
    let a = ints("a", vec![Some(10), Some(9), Some(-7)]);
    let b = ints("b", vec![Some(4), Some(3), Some(2)]);
    assert!(a.sub(&b).unwrap().series_equal(&ints("a", vec![Some(6), Some(6), Some(-9)])));
    assert!(a.mul(&b).unwrap().series_equal(&ints("a", vec![Some(40), Some(27), Some(-14)])));
    // Integer division truncates toward zero.
    assert!(a.div(&b).unwrap().series_equal(&ints("a", vec![Some(2), Some(3), Some(-3)])));
}

#[test]
fn add_overflow_is_computation_failure() {
    let a = ints("a", vec![Some(i64::MAX)]);
    let b = ints("b", vec![Some(1)]);
    let e = a.add(&b).unwrap_err();
    assert_eq!(e.kind(), ErrorKind::ComputationFailure);
}

#[test]
fn div_by_zero_is_computation_failure() {
    let a = ints("a", vec![Some(1)]);
    let b = ints("b", vec![Some(0)]);
    let e = a.div(&b).unwrap_err();
    assert_eq!(e.kind(), ErrorKind::ComputationFailure);
}

#[test]
fn compare_propagates_null() {
    let a = ints("a", vec![Some(1), None, Some(3)]);
    let b = ints("b", vec![Some(1), Some(2), Some(2)]);
    let eq = a.compare(&b, CmpOp::Eq).unwrap();
    let expect = Series::new_bool(String::from("a"), &vec![Some(true), None, Some(false)]);
    assert!(eq.series_equal(&expect));
    let gt = a.compare(&b, CmpOp::Gt).unwrap();
    let expect_gt = Series::new_bool(String::from("a"), &vec![Some(false), None, Some(true)]);
    assert!(gt.series_equal(&expect_gt));
}

#[test]
fn ordering_comparison_on_strings_is_invalid() {
    let a = Series::new_utf8(String::from("a"), &vec![Some(String::from("x"))]);
    let b = Series::new_utf8(String::from("b"), &vec![Some(String::from("y"))]);
    let e = a.compare(&b, CmpOp::Lt).unwrap_err();
    assert_eq!(e.kind(), ErrorKind::InvalidArgument);
    // Equality is fine on every dtype.
    let eq = a.compare(&b, CmpOp::Eq).unwrap();
    let expect = Series::new_bool(String::from("a"), &vec![Some(false)]);
    assert!(eq.series_equal(&expect));
}

#[test]
fn bool_logic_needs_boolean_series() {
    let a = ints("a", vec![Some(1)]);
    let b = ints("b", vec![Some(1)]);
    let e = a.bool_logic(&b, BoolOp::And).unwrap_err();
    assert_eq!(e.kind(), ErrorKind::InvalidArgument);
}

#[test]
fn bool_logic_computes_and_or() {
    let a = Series::new_bool(String::from("a"), &vec![Some(true), Some(false), None]);
    let b = Series::new_bool(String::from("b"), &vec![Some(true), Some(true), Some(true)]);
    let and = a.bool_logic(&b, BoolOp::And).unwrap();
    assert!(and.series_equal(
        &Series::new_bool(String::from("a"), &vec![Some(true), Some(false), None])
    ));
    let or = a.bool_logic(&b, BoolOp::Or).unwrap();
    assert!(or.series_equal(
        &Series::new_bool(String::from("a"), &vec![Some(true), Some(true), None])
    ));
}

#[test]
fn arith_via_generic_entry_point() {
    let a = ints("a", vec![Some(2)]);
    let b = ints("b", vec![Some(5)]);
    let r = a.arith(&b, ArithOp::Mul).unwrap();
    assert!(r.series_equal(&ints("a", vec![Some(10)])));
}

#[test]
fn append_concatenates_and_checks_dtype() {
    let a = ints("a", vec![Some(1)]);
    let b = ints("b", vec![Some(2), None]);
    let r = a.append(&b).unwrap();
    assert!(r.series_equal(&ints("a", vec![Some(1), Some(2), None])));
    assert_eq!(r.name(), String::from("a"));
    let c = Series::new_bool(String::from("c"), &vec![Some(true)]);
    let e = a.append(&c).unwrap_err();
    assert_eq!(e.kind(), ErrorKind::SchemaMismatch);
}

#[test]
fn slicing_head_tail_reverse() {
    let s = ints("a", vec![Some(1), Some(2), Some(3), Some(4), Some(5)]);
    assert!(s.slice(1, 2).series_equal(&ints("a", vec![Some(2), Some(3)])));
    assert!(s.slice(4, 10).series_equal(&ints("a", vec![Some(5)])));
    assert!(s.head(2).series_equal(&ints("a", vec![Some(1), Some(2)])));
    assert!(s.tail(2).series_equal(&ints("a", vec![Some(4), Some(5)])));
    assert!(s.head(9).series_equal(&s));
    assert!(
        s.reverse().series_equal(&ints("a", vec![Some(5), Some(4), Some(3), Some(2), Some(1)]))
    );
}

#[test]
fn null_masks() {
    let s = ints("a", vec![Some(1), None, Some(3)]);
    let isn = s.is_null();
    assert!(isn.series_equal(
        &Series::new_bool(String::from("a"), &vec![Some(false), Some(true), Some(false)])
    ));
    let notn = s.is_not_null();
    assert!(notn.series_equal(
        &Series::new_bool(String::from("a"), &vec![Some(true), Some(false), Some(true)])
    ));
}

#[test]
fn rename_and_metadata() {
    let s = ints("a", vec![Some(1), None]);
    assert_eq!(s.len(), 2);
    assert_eq!(s.dtype(), Dtype::Int64);
    let r = s.rename(String::from("b"));
    assert_eq!(r.name(), String::from("b"));
    assert_eq!(s.name(), String::from("a"));
}

#[test]
fn from_values_checks_cells() {
    let ok = Series::from_values(
        String::from("a"),
        Dtype::Int64,
        vec![TypedValue::Int64(1), TypedValue::Null],
    );
    assert!(ok.is_ok());
    let bad = Series::from_values(
        String::from("a"),
        Dtype::Int64,
        vec![TypedValue::Boolean(true)],
    );
    assert_eq!(bad.unwrap_err().kind(), ErrorKind::SchemaMismatch);
}
