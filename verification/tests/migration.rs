use hifumi::instance::Instance;
use hifumi::model::{DeriveVersion, Migration};
use hifumi::registry::{version, Registry};
use hifumi::value::Datum;

fn declare(attr: &str, item: &str) -> Registry {
    let attr = DeriveVersion::parse(attr).unwrap();
    let input = Migration::parse(item).unwrap();
    version(&attr, input, None).unwrap()
}

fn expect(instance: &Instance, fields: Vec<(&str, Datum)>) {
    assert_eq!(instance.len(), fields.len());
    for (name, value) in fields {
        assert_eq!(instance.get(name), Some(&value), "field {}", name);
    }
}

fn s(text: &str) -> Datum {
    Datum::Text(text.to_string())
}

fn i(n: i64) -> Datum {
    Datum::Int(n)
}

fn f(instance: &Instance, name: &str) -> f32 {
    match instance.get(name) {
        Some(Datum::Real(t)) => t.parse::<f32>().unwrap(),
        other => panic!("{} is {:?}", name, other),
    }
}

#[test]
fn add_field() {
    let reg = declare(
        r#""0.2""#,
        r#"
    #[derive(Debug, Clone, PartialEq)]
    #[migration("0.1" => "0.2" {
        + c: i32
    })]
    struct Test {
        a: i32,
        b: i32,
        c: i32,
    }"#,
    );

    expect(
        &reg.read_json(r#"{"$version":"0.1","a":1,"b":2}"#).unwrap(),
        vec![("a", i(1)), ("b", i(2)), ("c", i(0))],
    );
    expect(
        &reg.read_json(r#"{"$version":"0.2","a":1,"b":2,"c":3}"#).unwrap(),
        vec![("a", i(1)), ("b", i(2)), ("c", i(3))],
    );
}

#[test]
fn remove_field() {
    let reg = declare(
        r#""0.2""#,
        r#"
    #[derive(Debug, Clone, PartialEq)]
    #[migration("0.1" => "0.2" {
        - c: i32
    })]
    struct Test {
        a: i32,
        b: i32,
    }"#,
    );

    expect(
        &reg.read_json(r#"{"$version":"0.1","a":1,"b":2,"c":3}"#).unwrap(),
        vec![("a", i(1)), ("b", i(2))],
    );
    expect(
        &reg.read_json(r#"{"$version":"0.2","a":1,"b":2}"#).unwrap(),
        vec![("a", i(1)), ("b", i(2))],
    );
}

#[test]
fn rename_field() {
    let reg = declare(
        r#""0.2""#,
        r#"
    #[derive(Debug, Clone, PartialEq)]
    #[migration("0.1" => "0.2" {
        c => d: i32
    })]
    struct Test {
        a: i32,
        b: i32,
        d: i32,
    }"#,
    );

    expect(
        &reg.read_json(r#"{"$version":"0.1","a":1,"b":2,"c":3}"#).unwrap(),
        vec![("a", i(1)), ("b", i(2)), ("d", i(3))],
    );
    expect(
        &reg.read_json(r#"{"$version":"0.2","a":1,"b":2,"d":3}"#).unwrap(),
        vec![("a", i(1)), ("b", i(2)), ("d", i(3))],
    );
}

#[test]
fn copy_field() {
    let reg = declare(
        r#""0.2""#,
        r#"
    #[derive(Debug, Clone, PartialEq)]
    #[migration("0.1" => "0.2" {
        + c => d: i32
    })]
    struct Test {
        a: i32,
        b: i32,
        c: i32,
        d: i32,
    }"#,
    );

    expect(
        &reg.read_json(r#"{"$version":"0.1","a":1,"b":2,"c":3}"#).unwrap(),
        vec![("a", i(1)), ("b", i(2)), ("c", i(3)), ("d", i(3))],
    );
    expect(
        &reg.read_json(r#"{"$version":"0.2","a":1,"b":2,"c":3,"d":4}"#).unwrap(),
        vec![("a", i(1)), ("b", i(2)), ("c", i(3)), ("d", i(4))],
    );
}

#[test]
fn add_field_with_default_value() {
    let reg = declare(
        r#""0.2""#,
        r#"
    #[derive(Debug, Clone, PartialEq)]
    #[migration("0.1" => "0.2" {
        + c: i32 { 42 }
    })]
    struct Test {
        a: i32,
        b: i32,
        c: i32,
    }"#,
    );

    expect(
        &reg.read_json(r#"{"$version":"0.1","a":1,"b":2}"#).unwrap(),
        vec![("a", i(1)), ("b", i(2)), ("c", i(42))],
    );
    expect(
        &reg.read_json(r#"{"$version":"0.2","a":1,"b":2,"c":3}"#).unwrap(),
        vec![("a", i(1)), ("b", i(2)), ("c", i(3))],
    );
}

#[test]
fn rename_field_with_default_value() {
    let reg = declare(
        r#""0.2""#,
        r#"
    #[derive(Debug, Clone, PartialEq)]
    #[migration("0.1" => "0.2" {
        c => d: i32 { 42 }
    })]
    struct Test {
        a: i32,
        b: i32,
        d: i32,
    }"#,
    );

    expect(
        &reg.read_json(r#"{"$version":"0.1","a":1,"b":2,"c":3}"#).unwrap(),
        vec![("a", i(1)), ("b", i(2)), ("d", i(42))],
    );
    expect(
        &reg.read_json(r#"{"$version":"0.2","a":1,"b":2,"d":3}"#).unwrap(),
        vec![("a", i(1)), ("b", i(2)), ("d", i(3))],
    );
}

#[test]
fn change_field_type() {
    let reg = declare(
        r#""0.2""#,
        r#"
    #[derive(Debug, Clone, PartialEq)]
    #[migration("0.1" => "0.2" {
        c: i32 => String { c.to_string() }
    })]
    struct Test {
        a: i32,
        b: i32,
        c: String,
    }"#,
    );

    expect(
        &reg.read_json(r#"{"$version":"0.1","a":1,"b":2,"c":3}"#).unwrap(),
        vec![("a", i(1)), ("b", i(2)), ("c", s("3"))],
    );
    expect(
        &reg.read_json(r#"{"$version":"0.2","a":1,"b":2,"c":"3"}"#).unwrap(),
        vec![("a", i(1)), ("b", i(2)), ("c", s("3"))],
    );
}

#[test]
fn change_field_type_and_name() {
    let reg = declare(
        r#""0.2""#,
        r#"
    #[derive(Debug, Clone, PartialEq)]
    #[migration("0.1" => "0.2" {
        c: i32 => d: String { c.to_string() }
    })]
    struct Test {
        a: i32,
        b: i32,
        d: String,
    }"#,
    );

    expect(
        &reg.read_json(r#"{"$version":"0.1","a":1,"b":2,"c":3}"#).unwrap(),
        vec![("a", i(1)), ("b", i(2)), ("d", s("3"))],
    );
    expect(
        &reg.read_json(r#"{"$version":"0.2","a":1,"b":2,"d":"3"}"#).unwrap(),
        vec![("a", i(1)), ("b", i(2)), ("d", s("3"))],
    );
}

#[test]
fn change_field_type_and_name_with_multiple_target() {
    let reg = declare(
        r#""0.2""#,
        r#"
    #[derive(Debug, Clone, PartialEq)]
    #[migration("0.1" => "0.2" {
        c: i32 => e: String { c.to_string() },
        c: i32 => f: f32 { c as f32 },
    })]
    struct Test {
        a: i32,
        b: i32,
        e: String,
        f: f32,
    }"#,
    );

    let old = reg.read_json(r#"{"$version":"0.1","a":1,"b":2,"c":3}"#).unwrap();
    assert_eq!(old.len(), 4);
    assert_eq!(old.get("a"), Some(&i(1)));
    assert_eq!(old.get("b"), Some(&i(2)));
    assert_eq!(old.get("e"), Some(&s("3")));
    assert_eq!(f(&old, "f"), 3.);
    let new = reg.read_json(r#"{"$version":"0.2","a":1,"b":2,"e":"3","f":3.0}"#).unwrap();
    assert_eq!(new.len(), 4);
    assert_eq!(new.get("a"), Some(&i(1)));
    assert_eq!(new.get("b"), Some(&i(2)));
    assert_eq!(new.get("e"), Some(&s("3")));
    assert_eq!(f(&new, "f"), 3.);
    assert_eq!(old.get("f"), new.get("f"));
}

#[test]
fn change_field_type_and_name_with_multiple_source() {
    let reg = declare(
        r#""0.2""#,
        r#"
    #[derive(Debug, Clone, PartialEq)]
    #[migration("0.1" => "0.2" {
        (c: i32, d: i32) => e: String { (c + d).to_string() },
    })]
    struct Test {
        a: i32,
        b: i32,
        e: String,
    }"#,
    );

    expect(
        &reg.read_json(r#"{"$version":"0.1","a":1,"b":2,"c":3,"d":4}"#).unwrap(),
        vec![("a", i(1)), ("b", i(2)), ("e", s("7"))],
    );
    expect(
        &reg.read_json(r#"{"$version":"0.2","a":1,"b":2,"e":"7"}"#).unwrap(),
        vec![("a", i(1)), ("b", i(2)), ("e", s("7"))],
    );
}

#[test]
fn copy_field_with_multiple_target() {
    let reg = declare(
        r#""0.2""#,
        r#"
    #[derive(Debug, Clone, PartialEq)]
    #[migration("0.1" => "0.2" {
        + a=> c: String,
        + b => d: f32,
    })]
    struct Test {
        a: String,
        b: f32,
        c: String,
        d: f32,
    }"#,
    );

    let old = reg.read_json(r#"{"$version":"0.1","a":"1","b":2.0}"#).unwrap();
    assert_eq!(old.len(), 4);
    assert_eq!(old.get("a"), Some(&s("1")));
    assert_eq!(f(&old, "b"), 2.);
    assert_eq!(old.get("c"), Some(&s("1")));
    assert_eq!(f(&old, "d"), 2.);
    let new =
        reg.read_json(r#"{"$version":"0.2","a":"1","b":2.0,"c":"1","d":2.0}"#).unwrap();
    assert_eq!(new.len(), 4);
    assert_eq!(new.get("a"), Some(&s("1")));
    assert_eq!(f(&new, "b"), 2.);
    assert_eq!(new.get("c"), Some(&s("1")));
    assert_eq!(f(&new, "d"), 2.);
}

#[test]
fn copy_field_with_multiple_source() {
    let reg = declare(
        r#""0.2""#,
        r#"
    #[derive(Debug, Clone, PartialEq)]
    #[migration("0.1" => "0.2" {
        + (a: i32, b: i32) => c: String { (a + b).to_string() },
    })]
    struct Test {
        a: i32,
        b: i32,
        c: String,
    }"#,
    );

    expect(
        &reg.read_json(r#"{"$version":"0.1","a":1,"b":2}"#).unwrap(),
        vec![("a", i(1)), ("b", i(2)), ("c", s("3"))],
    );
    expect(
        &reg.read_json(r#"{"$version":"0.2","a":1,"b":2,"c":"3"}"#).unwrap(),
        vec![("a", i(1)), ("b", i(2)), ("c", s("3"))],
    );
}

#[test]
fn remove_field_with_multiple_source() {
    let reg = declare(
        r#""0.2""#,
        r#"
    #[derive(Debug, Clone, PartialEq)]
    #[migration("0.1" => "0.2" {
        (a: i32, b: i32) => c: String { (a + b).to_string() },
    })]
    struct Test {
        c: String,
    }"#,
    );

    expect(&reg.read_json(r#"{"$version":"0.1","a":1,"b":2}"#).unwrap(), vec![("c", s("3"))]);
    expect(&reg.read_json(r#"{"$version":"0.2","c":"3"}"#).unwrap(), vec![("c", s("3"))]);
}
