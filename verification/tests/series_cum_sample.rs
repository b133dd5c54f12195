use explorer::error::ErrorKind;
use explorer::series::Series;
use explorer::series_cum::seedable_random_indices;
use explorer::series_fill::FillStrategy;

fn ints(name: &str, items: Vec<Option<i64>>) -> Series {
    Series::new_i64(String::from(name), &items)
}

#[test]
fn cum_sum_skips_nulls_and_keeps_them_null() {
    let s = ints("a", vec![Some(1), None, Some(2), Some(4)]);
    let r = s.cum_sum().unwrap();
    assert!(r.series_equal(&ints("a", vec![Some(1), None, Some(3), Some(7)])));
}

#[test]
fn cum_sum_overflow_is_computation_failure() {
    let s = ints("a", vec![Some(i64::MAX), Some(1)]);
    assert_eq!(s.cum_sum().unwrap_err().kind(), ErrorKind::ComputationFailure);
}

#[test]
fn cum_min_and_cum_max_run_over_prefixes() {
    let s = ints("a", vec![Some(3), None, Some(1), Some(2)]);
    let mn = s.cum_min().unwrap();
    assert!(mn.series_equal(&ints("a", vec![Some(3), None, Some(1), Some(1)])));
    let mx = s.cum_max().unwrap();
    assert!(mx.series_equal(&ints("a", vec![Some(3), None, Some(3), Some(3)])));
}

#[test]
fn cum_ops_need_int_series() {
    let s = Series::new_bool(String::from("b"), &vec![Some(true)]);
    assert_eq!(s.cum_sum().unwrap_err().kind(), ErrorKind::InvalidArgument);
    assert_eq!(s.cum_min().unwrap_err().kind(), ErrorKind::InvalidArgument);
}

#[test]
fn take_every_strides_from_the_first_cell() {
    let s = ints("a", vec![Some(0), Some(1), Some(2), Some(3), Some(4)]);
    let r = s.take_every(2).unwrap();
    assert!(r.series_equal(&ints("a", vec![Some(0), Some(2), Some(4)])));
    let all = s.take_every(1).unwrap();
    assert!(all.series_equal(&s));
    let one = s.take_every(10).unwrap();
    assert!(one.series_equal(&ints("a", vec![Some(0)])));
    assert_eq!(s.take_every(0).unwrap_err().kind(), ErrorKind::InvalidArgument);
}

#[test]
fn sampling_is_reproducible_and_bounded() {
    let a = seedable_random_indices(10, 6, true, 42).unwrap();
    let b = seedable_random_indices(10, 6, true, 42).unwrap();
    assert_eq!(a, b);
    assert_eq!(a.len(), 6);
    assert!(a.iter().all(|&i| i < 10));
    let c = seedable_random_indices(10, 6, true, 43).unwrap();
    assert_eq!(c.len(), 6);
}

#[test]
fn sampling_without_replacement_is_distinct() {
    let a = seedable_random_indices(8, 8, false, 7).unwrap();
    assert_eq!(a.len(), 8);
    let mut seen = vec![false; 8];
    for &i in &a {
        assert!(i < 8);
        assert!(!seen[i]);
        seen[i] = true;
    }
    let e = seedable_random_indices(4, 5, false, 7).unwrap_err();
    assert_eq!(e.kind(), ErrorKind::InvalidArgument);
    let e2 = seedable_random_indices(0, 1, true, 7).unwrap_err();
    assert_eq!(e2.kind(), ErrorKind::InvalidArgument);
    assert_eq!(seedable_random_indices(0, 0, false, 7).unwrap().len(), 0);
}

#[test]
fn fill_none_forward_and_backward() {
    let s = ints("a", vec![None, Some(1), None, None, Some(4), None]);
    let f = s.fill_none(FillStrategy::Forward);
    assert!(f.series_equal(&ints("a", vec![None, Some(1), Some(1), Some(1), Some(4), Some(4)])));
    let b = s.fill_none(FillStrategy::Backward);
    assert!(b.series_equal(&ints("a", vec![Some(1), Some(1), Some(4), Some(4), Some(4), None])));
}

#[test]
fn fill_strategy_names_resolve() {
    assert_eq!(FillStrategy::from_name("forward").unwrap(), FillStrategy::Forward);
    assert_eq!(FillStrategy::from_name("backward").unwrap(), FillStrategy::Backward);
    assert_eq!(
        FillStrategy::from_name("mean").unwrap_err().kind(),
        ErrorKind::InvalidArgument
    );
}
