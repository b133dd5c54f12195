use explorer::csv::read_csv;
use explorer::error::ErrorKind;
use explorer::frame::DataFrame;
use explorer::series::Series;
use explorer::value::{Dtype, TypedValue};

fn ints(name: &str, items: Vec<Option<i64>>) -> Series {
    Series::new_i64(String::from(name), &items)
}

fn texts(name: &str, items: Vec<&str>) -> Series {
    let owned: Vec<Option<String>> = items.into_iter().map(|s| Some(String::from(s))).collect();
    Series::new_utf8(String::from(name), &owned)
}

fn frame(cols: Vec<Series>) -> DataFrame {
    DataFrame::new(cols).unwrap()
}

#[test]
fn to_csv_renders_header_and_rows() {
    let d = frame(vec![
        ints("a", vec![Some(1), None, Some(-3)]),
        texts("b", vec!["x", "y", "z"]),
    ]);
    let t = d.to_csv(',', true).unwrap();
    assert_eq!(t, String::from("a,b\n1,x\n,y\n-3,z\n"));
    let bare = d.to_csv(';', false).unwrap();
    assert_eq!(bare, String::from("1;x\n;y\n-3;z\n"));
}

#[test]
fn to_csv_renders_booleans_and_dates() {
    let d = frame(vec![
        Series::new_bool(String::from("f"), &vec![Some(true), Some(false)]),
        Series::new_date(String::from("d"), &vec![Some(10), None]),
    ]);
    let t = d.to_csv(',', true).unwrap();
    assert_eq!(t, String::from("f,d\ntrue,10\nfalse,\n"));
}

#[test]
fn to_csv_refuses_binary_columns() {
    let s = Series::from_values(
        String::from("b"),
        Dtype::Binary,
        vec![TypedValue::Binary(vec![1, 2])],
    )
    .unwrap();
    let d = frame(vec![s]);
    assert_eq!(d.to_csv(',', true).unwrap_err().kind(), ErrorKind::IOFailure);
}

#[test]
fn read_csv_round_trips_the_textual_image() {
    let d = frame(vec![
        ints("a", vec![Some(1), Some(2)]),
        texts("b", vec!["x", "y"]),
    ]);
    let t = d.to_csv(',', true).unwrap();
    let back = read_csv(t.as_str(), ',', true).unwrap();
    assert_eq!(back.names(), vec![String::from("a"), String::from("b")]);
    assert_eq!(back.dtypes(), vec![Dtype::Utf8, Dtype::Utf8]);
    assert!(back.column("a").unwrap().series_equal(&texts("a", vec!["1", "2"])));
    assert!(back.column("b").unwrap().series_equal(&texts("b", vec!["x", "y"])));
}

#[test]
fn read_csv_without_headers_synthesizes_names() {
    let d = read_csv("1,2\n3,4\n", ',', false).unwrap();
    assert_eq!(d.names(), vec![String::from("column_1"), String::from("column_2")]);
    assert_eq!(d.height(), 2);
    assert!(d.column("column_2").unwrap().series_equal(&texts("c", vec!["2", "4"])));
}

#[test]
fn read_csv_rejects_malformed_text() {
    assert_eq!(read_csv("", ',', true).unwrap_err().kind(), ErrorKind::IOFailure);
    assert_eq!(read_csv("a,b\n1,2", ',', true).unwrap_err().kind(), ErrorKind::IOFailure);
    assert_eq!(read_csv("a,b\n1\n", ',', true).unwrap_err().kind(), ErrorKind::IOFailure);
    assert_eq!(read_csv("a,a\n1,2\n", ',', true).unwrap_err().kind(), ErrorKind::IOFailure);
}

#[test]
fn sort_orders_with_nulls_last() {
    let s = ints("a", vec![Some(3), None, Some(1), Some(2), None]);
    let asc = s.sort(false).unwrap();
    assert!(asc.series_equal(&ints("a", vec![Some(1), Some(2), Some(3), None, None])));
    let desc = s.sort(true).unwrap();
    assert!(desc.series_equal(&ints("a", vec![Some(3), Some(2), Some(1), None, None])));
    let t = texts("t", vec!["b", "a"]);
    assert_eq!(t.sort(false).unwrap_err().kind(), ErrorKind::InvalidArgument);
}

#[test]
fn argsort_yields_a_sorting_permutation() {
    let s = ints("a", vec![Some(30), Some(10), None, Some(20)]);
    let ix = s.argsort(false).unwrap();
    assert!(ix.series_equal(&ints("i", vec![Some(1), Some(3), Some(0), Some(2)])));
}

#[test]
fn df_sort_orders_rows_by_the_key() {
    let d = frame(vec![
        ints("k", vec![Some(2), None, Some(1)]),
        texts("v", vec!["b", "n", "a"]),
    ]);
    let sorted = d.sort("k", false).unwrap();
    assert!(sorted.column("k").unwrap().series_equal(&ints("k", vec![Some(1), Some(2), None])));
    assert!(sorted.column("v").unwrap().series_equal(&texts("v", vec!["a", "b", "n"])));
    assert_eq!(d.sort("zz", false).unwrap_err().kind(), ErrorKind::SchemaMismatch);
}

#[test]
fn int_pow_raises_cells() {
    let s = ints("a", vec![Some(2), None, Some(-3)]);
    let r = s.int_pow(3).unwrap();
    assert!(r.series_equal(&ints("a", vec![Some(8), None, Some(-27)])));
    let zero = s.int_pow(0).unwrap();
    assert!(zero.series_equal(&ints("a", vec![Some(1), None, Some(1)])));
    let big = ints("a", vec![Some(i64::MAX)]);
    assert_eq!(big.int_pow(2).unwrap_err().kind(), ErrorKind::ComputationFailure);
}

#[test]
fn peaks_mark_strict_local_extremes() {
    let s = ints("a", vec![Some(1), Some(3), Some(2), Some(2), Some(5)]);
    let mx = s.peak_max().unwrap();
    assert!(mx.series_equal(&Series::new_bool(
        String::from("a"),
        &vec![Some(false), Some(true), Some(false), Some(false), Some(true)],
    )));
    let mn = s.peak_min().unwrap();
    assert!(mn.series_equal(&Series::new_bool(
        String::from("a"),
        &vec![Some(true), Some(false), Some(false), Some(false), Some(false)],
    )));
}

#[test]
fn value_counts_builds_a_frequency_frame() {
    let s = ints("a", vec![Some(5), Some(7), Some(5), None, Some(5)]);
    let d = s.value_counts().unwrap();
    assert_eq!(d.names(), vec![String::from("values"), String::from("counts")]);
    assert!(d.column("values").unwrap().series_equal(&ints("v", vec![Some(5), Some(7), None])));
    assert!(d.column("counts").unwrap().series_equal(&ints("c", vec![Some(3), Some(1), Some(1)])));
}

#[test]
fn drop_duplicates_keeps_first_occurrences() {
    let d = frame(vec![
        ints("a", vec![Some(1), Some(1), Some(2), Some(1)]),
        ints("b", vec![Some(9), Some(9), Some(8), Some(7)]),
    ]);
    let once = d.drop_duplicates().unwrap();
    assert!(once.column("a").unwrap().series_equal(&ints("a", vec![Some(1), Some(2), Some(1)])));
    assert!(once.column("b").unwrap().series_equal(&ints("b", vec![Some(9), Some(8), Some(7)])));
    let twice = once.drop_duplicates().unwrap();
    assert!(twice.column("a").unwrap().series_equal(&once.column("a").unwrap()));
    assert!(twice.column("b").unwrap().series_equal(&once.column("b").unwrap()));
}

#[test]
fn cast_failure_message_names_the_element() {
    let s = texts("a", vec!["1", "2", "x"]);
    let e = s.cast(Dtype::Int64).unwrap_err();
    assert_eq!(e.kind(), ErrorKind::InvalidArgument);
    assert_eq!(e.message(), String::from("cannot cast string to Int64: x"));
}

#[test]
fn rolling_windows_aggregate_trailing_cells() {
    let s = ints("a", vec![Some(1), Some(2), Some(3), None, Some(5), Some(6)]);
    let sum = s.rolling_sum(2).unwrap();
    assert!(sum.series_equal(&ints("a", vec![None, Some(3), Some(5), None, None, Some(11)])));
    let mn = s.rolling_min(2).unwrap();
    assert!(mn.series_equal(&ints("a", vec![None, Some(1), Some(2), None, None, Some(5)])));
    let mx = s.rolling_max(3).unwrap();
    assert!(mx.series_equal(&ints("a", vec![None, None, Some(3), None, None, None])));
    assert_eq!(s.rolling_sum(0).unwrap_err().kind(), ErrorKind::InvalidArgument);
    let big = ints("a", vec![Some(i64::MAX), Some(1)]);
    assert_eq!(big.rolling_sum(2).unwrap_err().kind(), ErrorKind::ComputationFailure);
}

#[test]
fn group_indices_lists_each_groups_rows() {
    let d = frame(vec![
        ints("k", vec![Some(1), Some(2), Some(1), None, Some(1)]),
        ints("v", vec![Some(0), Some(0), Some(0), Some(0), Some(0)]),
    ]);
    let ix = d.group_indices("k").unwrap();
    assert_eq!(ix, vec![vec![0, 2, 4], vec![1], vec![3]]);
    assert_eq!(d.group_indices("zz").unwrap_err().kind(), ErrorKind::SchemaMismatch);
}

#[test]
fn as_str_renders_name_and_cells() {
    let s = ints("a", vec![Some(1), None, Some(-2)]);
    assert_eq!(s.as_str().unwrap(), String::from("a\n1\n\n-2\n"));
    let b = Series::from_values(
        String::from("b"),
        Dtype::Binary,
        vec![TypedValue::Binary(vec![0])],
    )
    .unwrap();
    assert_eq!(b.as_str().unwrap_err().kind(), ErrorKind::IOFailure);
}

#[test]
fn melt_stacks_value_columns() {
    let d = frame(vec![
        ints("id", vec![Some(1), Some(2)]),
        ints("x", vec![Some(10), Some(20)]),
        ints("y", vec![Some(30), Some(40)]),
    ]);
    let long = d
        .melt(&vec![String::from("id")], &vec![String::from("x"), String::from("y")])
        .unwrap();
    assert_eq!(
        long.names(),
        vec![String::from("id"), String::from("variable"), String::from("value")]
    );
    assert!(long.column("id").unwrap().series_equal(&ints("id", vec![
        Some(1), Some(2), Some(1), Some(2),
    ])));
    assert!(long.column("variable").unwrap().series_equal(&texts("v", vec!["x", "x", "y", "y"])));
    assert!(long.column("value").unwrap().series_equal(&ints("v", vec![
        Some(10), Some(20), Some(30), Some(40),
    ])));
    let bad = d.melt(&vec![String::from("zz")], &vec![String::from("x")]);
    assert_eq!(bad.unwrap_err().kind(), ErrorKind::SchemaMismatch);
    let mixed = frame(vec![ints("a", vec![Some(1)]), texts("t", vec!["s"])]);
    let e = mixed.melt(&vec![], &vec![String::from("a"), String::from("t")]);
    assert_eq!(e.unwrap_err().kind(), ErrorKind::InvalidArgument);
}
