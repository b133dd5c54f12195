use explorer::error::ErrorKind;
use explorer::frame::DataFrame;
use explorer::frame_group::AggOp;
use explorer::frame_join::JoinHow;
use explorer::series::Series;
use explorer::value::Dtype;

fn ints(name: &str, items: Vec<Option<i64>>) -> Series {
    Series::new_i64(String::from(name), &items)
}

fn texts(name: &str, items: Vec<&str>) -> Series {
    let owned: Vec<Option<String>> = items.into_iter().map(|s| Some(String::from(s))).collect();
    Series::new_utf8(String::from(name), &owned)
}

fn frame(cols: Vec<Series>) -> DataFrame {
    DataFrame::new(cols).unwrap()
}

fn col_equal(d: &DataFrame, name: &str, expect: &Series) -> bool {
    d.column(name).unwrap().series_equal(expect)
}

#[test]
fn new_frame_checks_names_and_lengths() {
    let e = DataFrame::new(vec![ints("a", vec![Some(1)]), ints("a", vec![Some(2)])]);
    assert_eq!(e.unwrap_err().kind(), ErrorKind::SchemaMismatch);
    let e2 = DataFrame::new(vec![ints("a", vec![Some(1)]), ints("b", vec![])]);
    assert_eq!(e2.unwrap_err().kind(), ErrorKind::SchemaMismatch);
}

#[test]
fn shape_names_dtypes() {
    let d = frame(vec![ints("a", vec![Some(1), Some(2)]), texts("b", vec!["x", "y"])]);
    assert_eq!(d.shape(), (2, 2));
    assert_eq!(d.height(), 2);
    assert_eq!(d.width(), 2);
    assert_eq!(d.names(), vec![String::from("a"), String::from("b")]);
    assert_eq!(d.dtypes(), vec![Dtype::Int64, Dtype::Utf8]);
}

#[test]
fn vstack_adds_heights_and_concatenates_columns() {
    let a = frame(vec![ints("a", vec![Some(1), Some(2)]), texts("b", vec!["x", "y"])]);
    let b = frame(vec![ints("a", vec![Some(3)]), texts("b", vec!["z"])]);
    let r = a.vstack(&b).unwrap();
    assert_eq!(r.height(), a.height() + b.height());
    assert!(col_equal(&r, "a", &ints("a", vec![Some(1), Some(2), Some(3)])));
    assert!(col_equal(&r, "b", &texts("b", vec!["x", "y", "z"])));
}

#[test]
fn vstack_refuses_schema_mismatch() {
    let a = frame(vec![ints("a", vec![Some(1)])]);
    let b = frame(vec![ints("b", vec![Some(2)])]);
    assert_eq!(a.vstack(&b).unwrap_err().kind(), ErrorKind::SchemaMismatch);
    let c = frame(vec![texts("a", vec!["x"])]);
    assert_eq!(a.vstack(&c).unwrap_err().kind(), ErrorKind::SchemaMismatch);
}

#[test]
fn hstack_joins_columns_sideways() {
    let a = frame(vec![ints("a", vec![Some(1), Some(2)])]);
    let b = frame(vec![ints("b", vec![Some(3), Some(4)])]);
    let r = a.hstack(&b).unwrap();
    assert_eq!(r.shape(), (2, 2));
    let clash = frame(vec![ints("a", vec![Some(9), Some(9)])]);
    assert_eq!(a.hstack(&clash).unwrap_err().kind(), ErrorKind::SchemaMismatch);
    let short = frame(vec![ints("c", vec![Some(1)])]);
    assert_eq!(a.hstack(&short).unwrap_err().kind(), ErrorKind::SchemaMismatch);
}

#[test]
fn frame_filter_mask_length_mismatch_is_schema_mismatch() {
    let d = frame(vec![ints("a", vec![Some(1), Some(2), Some(3)])]);
    let mask = Series::new_bool(String::from("m"), &vec![Some(true)]);
    assert_eq!(d.filter(&mask).unwrap_err().kind(), ErrorKind::SchemaMismatch);
}

#[test]
fn frame_filter_keeps_marked_rows() {
    let d = frame(vec![
        ints("a", vec![Some(1), Some(2), Some(3)]),
        texts("b", vec!["x", "y", "z"]),
    ]);
    let mask = Series::new_bool(String::from("m"), &vec![Some(true), Some(false), Some(true)]);
    let r = d.filter(&mask).unwrap();
    assert!(col_equal(&r, "a", &ints("a", vec![Some(1), Some(3)])));
    assert!(col_equal(&r, "b", &texts("b", vec!["x", "z"])));
}

#[test]
fn select_drop_and_rename() {
    let d = frame(vec![
        ints("a", vec![Some(1)]),
        ints("b", vec![Some(2)]),
        ints("c", vec![Some(3)]),
    ]);
    let s = d.select(&vec![String::from("c"), String::from("a")]).unwrap();
    assert_eq!(s.names(), vec![String::from("c"), String::from("a")]);
    let missing = d.select(&vec![String::from("zz")]);
    assert_eq!(missing.unwrap_err().kind(), ErrorKind::SchemaMismatch);
    let dropped = d.drop("b").unwrap();
    assert_eq!(dropped.names(), vec![String::from("a"), String::from("c")]);
    let renamed = d
        .set_column_names(&vec![String::from("x"), String::from("y"), String::from("z")])
        .unwrap();
    assert_eq!(renamed.names(), vec![String::from("x"), String::from("y"), String::from("z")]);
    assert_eq!(
        d.set_column_names(&vec![String::from("only")]).unwrap_err().kind(),
        ErrorKind::SchemaMismatch
    );
}

#[test]
fn with_column_replaces_or_appends() {
    let d = frame(vec![ints("a", vec![Some(1), Some(2)])]);
    let appended = d.with_column(ints("b", vec![Some(3), Some(4)])).unwrap();
    assert_eq!(appended.names(), vec![String::from("a"), String::from("b")]);
    let replaced = d.with_column(ints("a", vec![Some(9), Some(8)])).unwrap();
    assert_eq!(replaced.names(), vec![String::from("a")]);
    assert!(col_equal(&replaced, "a", &ints("a", vec![Some(9), Some(8)])));
    let bad = d.with_column(ints("c", vec![Some(1)]));
    assert_eq!(bad.unwrap_err().kind(), ErrorKind::SchemaMismatch);
}

#[test]
fn take_slice_head_tail_rows() {
    let d = frame(vec![ints("a", vec![Some(1), Some(2), Some(3), Some(4)])]);
    let t = d.take(&vec![3, 0, 0]).unwrap();
    assert!(col_equal(&t, "a", &ints("a", vec![Some(4), Some(1), Some(1)])));
    assert_eq!(d.take(&vec![4]).unwrap_err().kind(), ErrorKind::IndexOutOfBounds);
    assert!(col_equal(&d.slice(1, 2), "a", &ints("a", vec![Some(2), Some(3)])));
    assert!(col_equal(&d.head(1), "a", &ints("a", vec![Some(1)])));
    assert!(col_equal(&d.tail(1), "a", &ints("a", vec![Some(4)])));
}

#[test]
fn drop_nulls_keeps_complete_rows() {
    let d = frame(vec![
        ints("a", vec![Some(1), None, Some(3)]),
        ints("b", vec![Some(4), Some(5), None]),
    ]);
    let r = d.drop_nulls().unwrap();
    assert_eq!(r.height(), 1);
    assert!(col_equal(&r, "a", &ints("a", vec![Some(1)])));
    assert!(col_equal(&r, "b", &ints("b", vec![Some(4)])));
}

#[test]
fn group_by_sum_keeps_first_occurrence_order() {
    let d = frame(vec![
        ints("a", vec![Some(1), Some(1), Some(2)]),
        ints("b", vec![Some(10), Some(20), Some(30)]),
    ]);
    let g = d
        .group_by_agg("a", &vec![(String::from("b"), AggOp::Sum)])
        .unwrap();
    assert_eq!(g.names(), vec![String::from("a"), String::from("b_sum")]);
    assert!(col_equal(&g, "a", &ints("a", vec![Some(1), Some(2)])));
    assert!(col_equal(&g, "b_sum", &ints("b_sum", vec![Some(30), Some(30)])));
}

#[test]
fn group_by_count_min_max_first_last() {
    let d = frame(vec![
        ints("k", vec![Some(1), Some(2), Some(1), Some(1)]),
        ints("v", vec![Some(5), Some(7), None, Some(3)]),
    ]);
    let g = d
        .group_by_agg(
            "k",
            &vec![
                (String::from("v"), AggOp::Count),
                (String::from("v"), AggOp::Min),
                (String::from("v"), AggOp::Max),
                (String::from("v"), AggOp::First),
                (String::from("v"), AggOp::Last),
            ],
        )
        .unwrap();
    assert!(col_equal(&g, "v_count", &ints("c", vec![Some(3), Some(1)])));
    assert!(col_equal(&g, "v_min", &ints("m", vec![Some(3), Some(7)])));
    assert!(col_equal(&g, "v_max", &ints("m", vec![Some(5), Some(7)])));
    assert!(col_equal(&g, "v_first", &ints("f", vec![Some(5), Some(7)])));
    assert!(col_equal(&g, "v_last", &ints("l", vec![Some(3), Some(7)])));
}

#[test]
fn group_by_missing_column_and_bad_dtype() {
    let d = frame(vec![
        ints("k", vec![Some(1)]),
        texts("t", vec!["x"]),
    ]);
    let missing = d.group_by_agg("zz", &vec![]);
    assert_eq!(missing.unwrap_err().kind(), ErrorKind::SchemaMismatch);
    let bad = d.group_by_agg("k", &vec![(String::from("t"), AggOp::Sum)]);
    assert_eq!(bad.unwrap_err().kind(), ErrorKind::InvalidArgument);
}

#[test]
fn agg_names_resolve() {
    assert_eq!(AggOp::from_name("sum").unwrap(), AggOp::Sum);
    assert_eq!(AggOp::from_name("count").unwrap(), AggOp::Count);
    let e = AggOp::from_name("median").unwrap_err();
    assert_eq!(e.kind(), ErrorKind::InvalidArgument);
}

#[test]
fn inner_join_two_records() {
    let f1 = frame(vec![ints("id", vec![Some(1), Some(2)]), texts("x", vec!["a", "b"])]);
    let f2 = frame(vec![ints("id", vec![Some(2), Some(3)]), texts("y", vec!["c", "d"])]);
    let r = f1.join(&f2, "id", "id", JoinHow::Inner).unwrap();
    assert_eq!(r.names(), vec![String::from("id"), String::from("x"), String::from("y")]);
    assert!(col_equal(&r, "id", &ints("id", vec![Some(2)])));
    assert!(col_equal(&r, "x", &texts("x", vec!["b"])));
    assert!(col_equal(&r, "y", &texts("y", vec!["c"])));
}

#[test]
fn left_and_outer_join_fill_with_null() {
    let f1 = frame(vec![ints("id", vec![Some(1), Some(2)]), ints("x", vec![Some(10), Some(20)])]);
    let f2 = frame(vec![ints("id", vec![Some(2), Some(3)]), ints("y", vec![Some(7), Some(8)])]);
    let left = f1.join(&f2, "id", "id", JoinHow::Left).unwrap();
    assert!(col_equal(&left, "id", &ints("id", vec![Some(1), Some(2)])));
    assert!(col_equal(&left, "y", &ints("y", vec![None, Some(7)])));
    let outer = f1.join(&f2, "id", "id", JoinHow::Outer).unwrap();
    assert!(col_equal(&outer, "id", &ints("id", vec![Some(1), Some(2), Some(3)])));
    assert!(col_equal(&outer, "x", &ints("x", vec![Some(10), Some(20), None])));
    assert!(col_equal(&outer, "y", &ints("y", vec![None, Some(7), Some(8)])));
}

#[test]
fn cross_join_pairs_everything() {
    let f1 = frame(vec![ints("a", vec![Some(1), Some(2)])]);
    let f2 = frame(vec![ints("b", vec![Some(8), Some(9)])]);
    let r = f1.join(&f2, "a", "b", JoinHow::Cross).unwrap();
    assert_eq!(r.height(), 4);
    assert!(col_equal(&r.select(&vec![String::from("a")]).unwrap(), "a",
        &ints("a", vec![Some(1), Some(1), Some(2), Some(2)])));
}

#[test]
fn join_suffixes_colliding_names() {
    let f1 = frame(vec![ints("id", vec![Some(1)]), ints("v", vec![Some(2)])]);
    let f2 = frame(vec![ints("id", vec![Some(1)]), ints("v", vec![Some(3)])]);
    let r = f1.join(&f2, "id", "id", JoinHow::Inner).unwrap();
    assert_eq!(
        r.names(),
        vec![String::from("id"), String::from("v"), String::from("v_right")]
    );
    assert!(col_equal(&r, "v_right", &ints("v_right", vec![Some(3)])));
}

#[test]
fn join_missing_key_is_schema_mismatch() {
    let f1 = frame(vec![ints("id", vec![Some(1)])]);
    let f2 = frame(vec![ints("other", vec![Some(1)])]);
    let e = f1.join(&f2, "id", "id", JoinHow::Inner).unwrap_err();
    assert_eq!(e.kind(), ErrorKind::SchemaMismatch);
}

#[test]
fn join_names_resolve() {
    assert_eq!(JoinHow::from_name("inner").unwrap(), JoinHow::Inner);
    assert_eq!(JoinHow::from_name("cross").unwrap(), JoinHow::Cross);
    assert_eq!(
        JoinHow::from_name("sideways").unwrap_err().kind(),
        ErrorKind::InvalidArgument
    );
}
