use hifumi::instance::Instance;
use hifumi::model::{DeriveVersion, Migration};
use hifumi::registry::{version, Registry};
use hifumi::value::Datum;

fn declare(attr: &str, item: &str) -> Registry {
    let attr = DeriveVersion::parse(attr).unwrap();
    let input = Migration::parse(item).unwrap();
    version(&attr, input, None).unwrap()
}

fn expect(instance: &Instance, fields: Vec<(&str, Datum)>) {
    assert_eq!(instance.len(), fields.len());
    for (name, value) in fields {
        assert_eq!(instance.get(name), Some(&value), "field {}", name);
    }
}

fn s(text: &str) -> Datum {
    Datum::Text(text.to_string())
}

fn i(n: i64) -> Datum {
    Datum::Int(n)
}


const TEST: &str = r#"
    #[derive(Debug, Clone, PartialEq)]
    struct Test {
        a: i32,
        b: i32,
        c: i32,
    }"#;

fn abc(a: i64, b: i64, c: i64) -> Instance {
    let mut x = Instance::new();
    x.set("a".to_string(), i(a));
    x.set("b".to_string(), i(b));
    x.set("c".to_string(), i(c));
    x
}

#[test]
fn decl_single_version() {
    let reg = declare(r#""0.1""#, TEST);

    assert_eq!(
        r#"{"$version":"0.1","a":1,"b":2,"c":3}"#,
        reg.write_json(&abc(1, 2, 3)).unwrap()
    );
    assert_eq!(
        reg.write_json(&abc(1, 2, 3)).unwrap(),
        r#"{"$version":"0.1","a":1,"b":2,"c":3}"#,
    );
}

#[test]
fn decl_single_version_with_suffix() {
    let reg = declare(r#""1.0.0-rc12""#, TEST);

    assert_eq!(
        r#"{"$version":"1.0.0-rc12","a":1,"b":2,"c":3}"#,
        reg.write_json(&abc(1, 2, 3)).unwrap()
    );
    assert_eq!(
        reg.write_json(&abc(1, 2, 3)).unwrap(),
        r#"{"$version":"1.0.0-rc12","a":1,"b":2,"c":3}"#,
    );
}

#[test]
fn decl_old_version() {
    let reg = declare(
        r#""0.2""#,
        r#"
    #[derive(Debug, Clone, PartialEq)]
    #[migration("0.1" => "0.2")]
    struct Test {
        a: i32,
        b: i32,
        c: i32,
    }"#,
    );

    expect(
        &reg.read_json(r#"{"$version":"0.1","a":1,"b":2,"c":3}"#).unwrap(),
        vec![("a", i(1)), ("b", i(2)), ("c", i(3))],
    );
}

#[test]
fn decl_multiple_old_versions() {
    let reg = declare(
        r#""0.5""#,
        r#"
    #[derive(Debug, Clone, PartialEq)]
    #[migration("0.4" => "0.5" {
        + d: i32,
    })]
    #[migration("0.3" => "0.4" {
        c: i32 => String { c.to_string() },
    })]
    #[migration("0.2" => "0.3" {
        + c: i32
    })]
    #[migration("0.1" => "0.2")]
    struct Test {
        a: i32,
        b: i32,
        c: String,
        d: i32,
    }"#,
    );

    expect(
        &reg.read_json(r#"{"$version":"0.5","a":1,"b":2,"c":"3","d":4}"#).unwrap(),
        vec![("a", i(1)), ("b", i(2)), ("c", s("3")), ("d", i(4))],
    );
    expect(
        &reg.read_json(r#"{"$version":"0.4","a":1,"b":2,"c":"3"}"#).unwrap(),
        vec![("a", i(1)), ("b", i(2)), ("c", s("3")), ("d", i(0))],
    );
    expect(
        &reg.read_json(r#"{"$version":"0.3","a":1,"b":2,"c":3}"#).unwrap(),
        vec![("a", i(1)), ("b", i(2)), ("c", s("3")), ("d", i(0))],
    );
    expect(
        &reg.read_json(r#"{"$version":"0.2","a":1,"b":2}"#).unwrap(),
        vec![("a", i(1)), ("b", i(2)), ("c", s("0")), ("d", i(0))],
    );
    expect(
        &reg.read_json(r#"{"$version":"0.1","a":1,"b":2}"#).unwrap(),
        vec![("a", i(1)), ("b", i(2)), ("c", s("0")), ("d", i(0))],
    );
}

#[test]
fn decl_version_with_timestamp() {
    let reg = declare(r#""2025-1-1""#, TEST);
    assert_eq!(
        r#"{"$version":"2025-1-1","a":1,"b":2,"c":3}"#,
        reg.write_json(&abc(1, 2, 3)).unwrap()
    );
    assert_eq!(
        reg.write_json(&abc(1, 2, 3)).unwrap(),
        r#"{"$version":"2025-1-1","a":1,"b":2,"c":3}"#,
    );

    let reg = declare(r#""2025-01-01""#, TEST);
    assert_eq!(
        r#"{"$version":"2025-01-01","a":1,"b":2,"c":3}"#,
        reg.write_json(&abc(1, 2, 3)).unwrap()
    );
    assert_eq!(
        reg.write_json(&abc(1, 2, 3)).unwrap(),
        r#"{"$version":"2025-01-01","a":1,"b":2,"c":3}"#,
    );

    let reg = declare(r#""2025-1-1 9:34""#, TEST);
    assert_eq!(
        r#"{"$version":"2025-1-1 9:34","a":1,"b":2,"c":3}"#,
        reg.write_json(&abc(1, 2, 3)).unwrap()
    );
    assert_eq!(
        reg.write_json(&abc(1, 2, 3)).unwrap(),
        r#"{"$version":"2025-1-1 9:34","a":1,"b":2,"c":3}"#,
    );

    let reg = declare(r#""2025-1-01 09:34:12""#, TEST);
    assert_eq!(
        r#"{"$version":"2025-1-01 09:34:12","a":1,"b":2,"c":3}"#,
        reg.write_json(&abc(1, 2, 3)).unwrap()
    );
    assert_eq!(
        reg.write_json(&abc(1, 2, 3)).unwrap(),
        r#"{"$version":"2025-1-01 09:34:12","a":1,"b":2,"c":3}"#,
    );

    let reg = declare(r#""12345678""#, TEST);
    assert_eq!(
        r#"{"$version":"12345678","a":1,"b":2,"c":3}"#,
        reg.write_json(&abc(1, 2, 3)).unwrap()
    );
    assert_eq!(
        reg.write_json(&abc(1, 2, 3)).unwrap(),
        r#"{"$version":"12345678","a":1,"b":2,"c":3}"#,
    );
}

#[test]
fn decl_version_auto() {
    let attr = DeriveVersion::parse("").unwrap();
    let input = Migration::parse(TEST).unwrap();

    let expected_version = "3.1.4";
    let reg = version(&attr, input, Some(expected_version)).unwrap();
    let expected = format!(r#"{{"$version":"{}","a":1,"b":2,"c":3}}"#, expected_version);

    assert_eq!(expected, reg.write_json(&abc(1, 2, 3)).unwrap());
}

#[test]
fn version_falls_back_when_nothing_is_known() {
    let attr = DeriveVersion { version: None };
    assert_eq!(attr.get_version(None), "0.0.0");
    assert_eq!(attr.get_version(Some("1.2.3")), "1.2.3");
    let attr = DeriveVersion { version: Some("0.7".to_string()) };
    assert_eq!(attr.get_version(Some("1.2.3")), "0.7");
}
