use explorer::convert::{to_host, to_native, HostValue};
use explorer::error::ErrorKind;
use explorer::frame::DataFrame;
use explorer::numtext::{parse_i64, render_i64};
use explorer::registry::{Aggregate, Handle, HandleKind, Registry};
use explorer::series::Series;
use explorer::value::{values_equal, Dtype, TypedValue};

fn ints(name: &str, items: Vec<Option<i64>>) -> Series {
    Series::new_i64(String::from(name), &items)
}

#[test]
fn render_and_parse_are_inverse() {
    for x in [0i64, 7, -7, 42, -9999, i64::MAX, i64::MIN] {
        let text = render_i64(x);
        assert_eq!(parse_i64(text.as_str()), Some(x));
    }
    assert_eq!(render_i64(i64::MIN), String::from("-9223372036854775808"));
}

#[test]
fn parse_rejects_malformed_and_overflowing_text() {
    assert_eq!(parse_i64(""), None);
    assert_eq!(parse_i64("-"), None);
    assert_eq!(parse_i64("12x"), None);
    assert_eq!(parse_i64("x"), None);
    assert_eq!(parse_i64("9223372036854775808"), None);
    assert_eq!(parse_i64("-9223372036854775809"), None);
    assert_eq!(parse_i64("9223372036854775807"), Some(i64::MAX));
    assert_eq!(parse_i64("-9223372036854775808"), Some(i64::MIN));
    assert_eq!(parse_i64("007"), Some(7));
}

#[test]
fn host_values_convert_and_round_trip() {
    let cases = vec![
        HostValue::Int(5),
        HostValue::Bool(true),
        HostValue::Text(String::from("hi")),
        HostValue::Bytes(vec![1, 2, 3]),
        HostValue::DateDays(19000),
        HostValue::DatetimeMs(1_600_000_000_000),
        HostValue::Nil,
    ];
    for h in cases {
        let tv = to_native(&h, None).unwrap();
        let back = to_host(&tv);
        let again = to_native(&back, None).unwrap();
        assert!(values_equal(&tv, &again));
    }
}

#[test]
fn composite_host_value_is_conversion_error() {
    let e = to_native(&HostValue::Composite, None).unwrap_err();
    assert_eq!(e.kind(), ErrorKind::Conversion);
}

#[test]
fn hint_rejects_contradicting_tags_and_lets_null_unify() {
    let e = to_native(&HostValue::Int(3), Some(Dtype::Utf8)).unwrap_err();
    assert_eq!(e.kind(), ErrorKind::Conversion);
    let ok = to_native(&HostValue::Int(3), Some(Dtype::Int64)).unwrap();
    assert!(matches!(ok, TypedValue::Int64(3)));
    let nil = to_native(&HostValue::Nil, Some(Dtype::Utf8)).unwrap();
    assert!(matches!(nil, TypedValue::Null));
}

#[test]
fn registry_wraps_unwraps_and_checks_kinds() {
    let mut reg = Registry::new();
    let h = reg.wrap(Aggregate::Column(ints("a", vec![Some(1)])));
    let got = reg.unwrap(h, HandleKind::Column).unwrap();
    match got {
        Aggregate::Column(s) => assert_eq!(s.len(), 1),
        _ => panic!("wrong aggregate"),
    }
    let e = reg.unwrap(h, HandleKind::Frame).unwrap_err();
    assert_eq!(e.kind(), ErrorKind::TypeMismatch);
    let dead = reg.unwrap(Handle { id: 99 }, HandleKind::Column).unwrap_err();
    assert_eq!(dead.kind(), ErrorKind::Handle);
}

#[test]
fn registry_reference_counting_and_reclamation() {
    let mut reg = Registry::new();
    let d = DataFrame::new(vec![ints("a", vec![Some(1)])]).unwrap();
    let h = reg.wrap(Aggregate::Frame(d));
    assert_eq!(reg.is_unique(h).unwrap(), true);
    let h2 = reg.clone_ref(h).unwrap();
    assert_eq!(h2, h);
    assert_eq!(reg.is_unique(h).unwrap(), false);
    reg.release(h).unwrap();
    assert_eq!(reg.is_unique(h).unwrap(), true);
    reg.release(h).unwrap();
    let e = reg.unwrap(h, HandleKind::Frame).unwrap_err();
    assert_eq!(e.kind(), ErrorKind::Handle);
    let e2 = reg.release(h).unwrap_err();
    assert_eq!(e2.kind(), ErrorKind::Handle);
}

#[test]
fn error_messages_are_carried() {
    let s = ints("a", vec![Some(1)]);
    let e = s.get(5).unwrap_err();
    assert_eq!(e.kind(), ErrorKind::IndexOutOfBounds);
    assert!(e.message().len() > 0);
}
