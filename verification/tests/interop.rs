use hifumi::expr::Expr;
use hifumi::instance::Instance;
use hifumi::model::{
    DeriveVersion, FieldSpec, Kind, Migration, MigrationComment, MigrationField, TypeDescriptor,
};
use hifumi::registry::{version, Registry};
use hifumi::value::{Datum, Entry};
use hifumi::json::{parse_json, to_json};
use hifumi::wire::{
    get_version_from_json, hifumi_to_yuuka, with_version, yuuka_to_hifumi_with_version,
};

fn int_field(name: &str) -> FieldSpec {
    FieldSpec::new(name, TypeDescriptor::of(Kind::Int))
}

fn text_field(name: &str) -> FieldSpec {
    FieldSpec::new(name, TypeDescriptor::of(Kind::Text))
}

fn real_field(name: &str) -> FieldSpec {
    FieldSpec::new(name, TypeDescriptor::of(Kind::Real))
}

fn step(from: &str, to: &str, changes: Vec<MigrationField>) -> MigrationComment {
    MigrationComment { from: from.to_string(), to: to.to_string(), changes }
}

fn register(current: &str, fields: Vec<FieldSpec>, versions: Vec<MigrationComment>) -> Registry {
    let attr = DeriveVersion { version: Some(current.to_string()) };
    let input = Migration { versions, struct_name: "Test".to_string(), fields };
    version(&attr, input, None).unwrap()
}

fn name(n: &str) -> Box<Expr> {
    Box::new(Expr::Field(n.to_string()))
}

fn expect(instance: &Instance, fields: Vec<(&str, Datum)>) {
    assert_eq!(instance.len(), fields.len());
    for (name, value) in fields {
        assert_eq!(instance.get(name), Some(&value), "field {}", name);
    }
}

fn s(text: &str) -> Datum {
    Datum::Text(text.to_string())
}

fn real_text(text: &str) -> Datum {
    Datum::Real(text.to_string())
}

fn member<'a>(value: &'a Datum, name: &str) -> &'a Datum {
    match value {
        Datum::Record(entries) => &entries.iter().find(|e| e.name == name).unwrap().value,
        other => panic!("{:?} is no record", other),
    }
}

fn simple_config() -> Registry {
    register("0.1", vec![text_field("name"), int_field("value")], vec![])
}

fn config(name: &str, value: i64) -> Instance {
    let mut x = Instance::new();
    x.set("name".to_string(), s(name));
    x.set("value".to_string(), Datum::Int(value));
    x
}

#[test]
fn test_yuuka_to_hifumi_conversion() {
    let yuuka_cfg = r#"{"name":"test","value":42}"#;
    let tagged = yuuka_to_hifumi_with_version(yuuka_cfg, "0.1").unwrap();
    let hifumi_cfg = simple_config().read_json(&tagged).unwrap();
    assert_eq!(hifumi_cfg.get("name"), Some(&s("test")));
    assert_eq!(hifumi_cfg.get("value"), Some(&Datum::Int(42)));
}

#[test]
fn test_hifumi_to_yuuka_conversion() {
    let hifumi_cfg = simple_config().write_json(&config("hello", 100)).unwrap();
    let yuuka_cfg = parse_json(&hifumi_to_yuuka(&hifumi_cfg).unwrap()).unwrap();
    assert_eq!(member(&yuuka_cfg, "name"), &s("hello"));
    assert_eq!(member(&yuuka_cfg, "value"), &Datum::Int(100));
}

#[test]
fn test_roundtrip_yuuka_hifumi_yuuka() {
    let first = r#"{"name":"roundtrip","value":999}"#;
    let reg = simple_config();
    let hifumi = reg.read_json(&yuuka_to_hifumi_with_version(first, "0.1").unwrap()).unwrap();
    let result = hifumi_to_yuuka(&reg.write_json(&hifumi).unwrap()).unwrap();
    assert_eq!(parse_json(first).unwrap(), parse_json(&result).unwrap());
}

#[test]
fn test_get_version_from_json() {
    let json = r#"{"$version":"0.2","name":"test","value":42}"#;
    let version = get_version_from_json(json).unwrap();
    assert_eq!(version, Some("0.2".to_string()));

    let json_no_version = r#"{"name":"test","value":42}"#;
    let no_version = get_version_from_json(json_no_version).unwrap();
    assert_eq!(no_version, None);
}

fn address_registry() -> Registry {
    register(
        "0.2",
        vec![text_field("street"), text_field("city"), text_field("country")],
        vec![step(
            "0.1",
            "0.2",
            vec![MigrationField::Add { value: text_field("country"), converter: None }],
        )],
    )
}

fn user_registry() -> Registry {
    register(
        "0.1",
        vec![
            int_field("id"),
            text_field("name"),
            FieldSpec::new("address", TypeDescriptor::of(Kind::Record)),
        ],
        vec![],
    )
}

#[test]
fn test_nested_struct_conversion() {
    let json = r#"{"id":1,"name":"Alice","address":{"street":"123 Main St","city":"Tokyo","country":"Japan"}}"#;
    let json_value = match parse_json(json).unwrap() {
        Datum::Record(entries) => {
            let entries = entries
                .into_iter()
                .map(|e| {
                    if e.name == "address" {
                        Entry { name: e.name, value: with_version(e.value, "0.2") }
                    } else {
                        e
                    }
                })
                .collect();
            with_version(Datum::Record(entries), "0.1")
        }
        other => panic!("{:?} is no record", other),
    };

    let hifumi_user = user_registry().deserialize(&json_value).unwrap();
    let address = address_registry().deserialize(hifumi_user.get("address").unwrap()).unwrap();

    assert_eq!(hifumi_user.get("id"), Some(&Datum::Int(1)));
    assert_eq!(hifumi_user.get("name"), Some(&s("Alice")));
    assert_eq!(address.get("city"), Some(&s("Tokyo")));
}

fn profile_registry() -> Registry {
    register(
        "0.3",
        vec![int_field("id"), text_field("display_name"), text_field("email")],
        vec![
            step(
                "0.2",
                "0.3",
                vec![MigrationField::Add { value: text_field("email"), converter: None }],
            ),
            step(
                "0.1",
                "0.2",
                vec![MigrationField::Rename {
                    source: vec![text_field("nickname")],
                    target: text_field("display_name"),
                    converter: None,
                }],
            ),
        ],
    )
}

#[test]
fn test_migrate_yuuka_v1_to_hifumi_v3() {
    let old_profile = parse_json(r#"{"id":42,"nickname":"OldNick"}"#).unwrap();
    let tagged = with_version(old_profile, "0.1");

    let migrated = profile_registry().deserialize(&tagged).unwrap();

    assert_eq!(migrated.get("id"), Some(&Datum::Int(42)));
    assert_eq!(migrated.get("display_name"), Some(&s("OldNick")));
    assert_eq!(migrated.get("email"), Some(&s("")));
}

#[test]
fn test_hifumi_v3_to_yuuka_v3() {
    let mut hifumi_profile = Instance::new();
    hifumi_profile.set("id".to_string(), Datum::Int(100));
    hifumi_profile.set("display_name".to_string(), s("NewUser"));
    hifumi_profile.set("email".to_string(), s("user@example.com"));

    let text = profile_registry().write_json(&hifumi_profile).unwrap();
    let yuuka_profile = parse_json(&hifumi_to_yuuka(&text).unwrap()).unwrap();

    assert_eq!(member(&yuuka_profile, "id"), &Datum::Int(100));
    assert_eq!(member(&yuuka_profile, "display_name"), &s("NewUser"));
    assert_eq!(member(&yuuka_profile, "email"), &s("user@example.com"));
}

#[test]
fn test_array_field_conversion() {
    let yuuka_team = r#"{"name":"Game Dev","members":["Momoi","Midori","Yuzu","Arisu"]}"#;
    let reg = register(
        "0.1",
        vec![text_field("name"), FieldSpec::new("members", TypeDescriptor::of(Kind::List))],
        vec![],
    );

    let hifumi_team =
        reg.read_json(&yuuka_to_hifumi_with_version(yuuka_team, "0.1").unwrap()).unwrap();

    assert_eq!(hifumi_team.get("name"), Some(&s("Game Dev")));
    match hifumi_team.get("members") {
        Some(Datum::List(members)) => {
            assert_eq!(members.len(), 4);
            assert_eq!(members[0], s("Momoi"));
        }
        other => panic!("members is {:?}", other),
    }

    let back_to_yuuka = hifumi_to_yuuka(&reg.write_json(&hifumi_team).unwrap()).unwrap();
    assert_eq!(parse_json(yuuka_team).unwrap(), parse_json(&back_to_yuuka).unwrap());
}

fn settings_registry() -> Registry {
    register(
        "0.1",
        vec![text_field("theme"), FieldSpec::new("font_size", TypeDescriptor::optional(Kind::Int))],
        vec![],
    )
}

#[test]
fn test_optional_field_with_value() {
    let yuuka_settings = r#"{"theme":"dark","font_size":14}"#;
    let hifumi_settings = settings_registry()
        .read_json(&yuuka_to_hifumi_with_version(yuuka_settings, "0.1").unwrap())
        .unwrap();

    assert_eq!(hifumi_settings.get("theme"), Some(&s("dark")));
    assert_eq!(hifumi_settings.get("font_size"), Some(&Datum::Int(14)));
}

#[test]
fn test_optional_field_without_value() {
    let yuuka_settings = r#"{"theme":"light","font_size":null}"#;
    let hifumi_settings = settings_registry()
        .read_json(&yuuka_to_hifumi_with_version(yuuka_settings, "0.1").unwrap())
        .unwrap();

    assert_eq!(hifumi_settings.get("theme"), Some(&s("light")));
    assert_eq!(hifumi_settings.get("font_size"), Some(&Datum::Null));
}

#[test]
fn specta_basic() {
    let reg = register(
        "0.1",
        vec![int_field("a"), text_field("b"), FieldSpec::new("c", TypeDescriptor::of(Kind::Bool))],
        vec![],
    );

    let mut test = Instance::new();
    test.set("a".to_string(), Datum::Int(1));
    test.set("b".to_string(), s("hello"));
    test.set("c".to_string(), Datum::Bool(true));
    let json = reg.write_json(&test).unwrap();
    assert!(json.contains(r#""$version":"0.1""#));
    assert!(json.contains(r#""a":1"#));
    assert!(json.contains(r#""b":"hello""#));
    assert!(json.contains(r#""c":true"#));
}

#[test]
fn specta_with_migration() {
    let reg = register(
        "0.2",
        vec![int_field("a"), text_field("b"), FieldSpec::new("c", TypeDescriptor::of(Kind::Bool))],
        vec![step(
            "0.1",
            "0.2",
            vec![MigrationField::Add {
                value: FieldSpec::new("c", TypeDescriptor::of(Kind::Bool)),
                converter: None,
            }],
        )],
    );

    let test = reg.read_json(r#"{"$version":"0.1","a":1,"b":"hello"}"#).unwrap();
    assert_eq!(test.get("a"), Some(&Datum::Int(1)));
    assert_eq!(test.get("b"), Some(&s("hello")));
    assert_eq!(test.get("c"), Some(&Datum::Bool(false)));

    let test = reg.read_json(r#"{"$version":"0.2","a":1,"b":"hello","c":true}"#).unwrap();
    assert_eq!(test.get("c"), Some(&Datum::Bool(true)));
}

#[test]
fn tag_is_put_in_place_or_at_the_end() {
    let plain = parse_json(r#"{"a":1}"#).unwrap();
    assert_eq!(to_json(&with_version(plain, "0.3")).unwrap(), r#"{"a":1,"$version":"0.3"}"#);
    let tagged = parse_json(r#"{"$version":"0.1","a":1}"#).unwrap();
    assert_eq!(to_json(&with_version(tagged, "0.3")).unwrap(), r#"{"$version":"0.3","a":1}"#);
    assert_eq!(to_json(&with_version(Datum::Int(5), "0.3")).unwrap(), "5");
    assert_eq!(hifumi_to_yuuka(r#"{"a":1,"$version":"0.1","b":2}"#).unwrap(), r#"{"a":1,"b":2}"#);
    assert_eq!(hifumi_to_yuuka(r#"[1,2]"#).unwrap(), "[1,2]");
    assert_eq!(get_version_from_json(r#"{"$version":7}"#).unwrap(), None);
    assert_eq!(get_version_from_json(r#"[1]"#).unwrap(), None);
    assert!(get_version_from_json("{").is_err());
    assert!(yuuka_to_hifumi_with_version("nonsense", "0.1").is_err());
}
