use explorer::error::ErrorKind;
use explorer::frame::DataFrame;
use explorer::series::Series;
use explorer::value::Dtype;

fn ints(name: &str, items: Vec<Option<i64>>) -> Series {
    Series::new_i64(String::from(name), &items)
}

fn sample() -> DataFrame {
    DataFrame::new(vec![
        ints("a", vec![Some(1), Some(2), Some(3), Some(4)]),
        ints("b", vec![Some(5), Some(6), Some(7), Some(8)]),
        ints("c", vec![Some(9), Some(10), Some(11), Some(12)]),
    ])
    .unwrap()
}

#[test]
fn collect_of_empty_plan_returns_the_base() {
    let d = sample();
    let lf = d.to_lazy();
    let out = lf.collect().unwrap();
    assert_eq!(out.shape(), (4, 3));
    assert!(out.column("a").unwrap().series_equal(&ints("a", vec![
        Some(1), Some(2), Some(3), Some(4),
    ])));
}

#[test]
fn plan_steps_compose_and_do_not_mutate_earlier_plans() {
    let d = sample();
    let lf = d.to_lazy();
    let selected = lf.select(vec![String::from("a"), String::from("c")]);
    let headed = selected.head(2);
    // The earlier plans stay valid and independently collectible.
    assert_eq!(lf.collect().unwrap().shape(), (4, 3));
    assert_eq!(selected.collect().unwrap().shape(), (4, 2));
    let out = headed.collect().unwrap();
    assert_eq!(out.shape(), (2, 2));
    assert_eq!(out.names(), vec![String::from("a"), String::from("c")]);
}

#[test]
fn drop_and_tail_steps() {
    let d = sample();
    let out = d.to_lazy().drop(String::from("b")).tail(1).collect().unwrap();
    assert_eq!(out.names(), vec![String::from("a"), String::from("c")]);
    assert!(out.column("a").unwrap().series_equal(&ints("a", vec![Some(4)])));
}

#[test]
fn collect_reports_a_bad_selection() {
    let d = sample();
    let lf = d.to_lazy().select(vec![String::from("zz")]);
    let e = lf.collect().unwrap_err();
    assert_eq!(e.kind(), ErrorKind::SchemaMismatch);
    let lf2 = d.to_lazy().drop(String::from("zz"));
    assert_eq!(lf2.collect().unwrap_err().kind(), ErrorKind::SchemaMismatch);
}

#[test]
fn describe_plan_sketches_the_steps() {
    let d = sample();
    let lf = d.to_lazy().select(vec![String::from("a")]).head(3);
    assert_eq!(lf.describe_plan(), String::from("scan select head"));
    assert_eq!(d.to_lazy().describe_plan(), String::from("scan"));
}

#[test]
fn fetch_caps_the_row_budget() {
    let d = sample();
    let out = d.to_lazy().fetch(2).unwrap();
    assert_eq!(out.height(), 2);
    let all = d.to_lazy().fetch(100).unwrap();
    assert_eq!(all.height(), 4);
}

#[test]
fn lazy_schema_passes() {
    let d = sample();
    let lf = d.to_lazy().select(vec![String::from("c"), String::from("a")]);
    assert_eq!(lf.names().unwrap(), vec![String::from("c"), String::from("a")]);
    assert_eq!(lf.dtypes().unwrap(), vec![Dtype::Int64, Dtype::Int64]);
}
