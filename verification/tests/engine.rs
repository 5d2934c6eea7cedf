use hifumi::chain::order_chain;
use hifumi::envelope::{read_envelope, MigrateInto, Versioned};
use hifumi::expr::Expr;
use hifumi::instance::Instance;
use hifumi::model::{
    int_within, kind_accepts, text_within, ChainFault, DeriveVersion, EvalError, FieldSpec,
    Kind, Migration, MigrationComment, MigrationError, MigrationField,
    TypeDescriptor, Width,
};
use hifumi::plan::{convert, generate_older_version_impl, FieldPlan, Origin};
use hifumi::registry::{version, Registry, Settings};
use hifumi::shape::{generate_old_versions, infer_older_version_struct, SchemaShape};
use hifumi::text::{int_to_text, whole_within};
use hifumi::value::{Datum, Entry};
use hifumi::wire::WireError;

fn int_field(name: &str) -> FieldSpec {
    FieldSpec::new(name, TypeDescriptor::of(Kind::Int))
}

fn text_field(name: &str) -> FieldSpec {
    FieldSpec::new(name, TypeDescriptor::of(Kind::Text))
}

fn real_field(name: &str) -> FieldSpec {
    FieldSpec::new(name, TypeDescriptor::of(Kind::Real))
}

fn step(from: &str, to: &str, changes: Vec<MigrationField>) -> MigrationComment {
    MigrationComment { from: from.to_string(), to: to.to_string(), changes }
}

fn register(current: &str, fields: Vec<FieldSpec>, versions: Vec<MigrationComment>) -> Registry {
    let attr = DeriveVersion { version: Some(current.to_string()) };
    let input = Migration { versions, struct_name: "Test".to_string(), fields };
    version(&attr, input, None).unwrap()
}

fn name(n: &str) -> Box<Expr> {
    Box::new(Expr::Field(n.to_string()))
}

fn expect(instance: &Instance, fields: Vec<(&str, Datum)>) {
    assert_eq!(instance.len(), fields.len());
    for (name, value) in fields {
        assert_eq!(instance.get(name), Some(&value), "field {}", name);
    }
}

fn s(text: &str) -> Datum {
    Datum::Text(text.to_string())
}

fn real_text(text: &str) -> Datum {
    Datum::Real(text.to_string())
}

fn try_register(
    current: &str,
    fields: Vec<FieldSpec>,
    versions: Vec<MigrationComment>,
) -> Result<Registry, MigrationError> {
    let attr = DeriveVersion { version: Some(current.to_string()) };
    version(&attr, Migration { versions, struct_name: "Test".to_string(), fields }, None)
}

fn record(fields: Vec<(&str, Datum)>) -> Datum {
    Datum::Record(fields.into_iter().map(|(n, v)| Entry { name: n.to_string(), value: v }).collect())
}

fn instance(fields: Vec<(&str, Datum)>) -> Instance {
    let mut x = Instance::new();
    for (n, v) in fields {
        x.set(n.to_string(), v);
    }
    x
}

fn add(field: FieldSpec) -> MigrationField {
    MigrationField::Add { value: field, converter: None }
}

fn five_versions() -> Registry {
    register(
        "0.5",
        vec![int_field("a"), int_field("b"), text_field("c"), int_field("d")],
        vec![
            step("0.1", "0.2", vec![]),
            step("0.4", "0.5", vec![add(int_field("d"))]),
            step("0.2", "0.3", vec![add(int_field("c"))]),
            step(
                "0.3",
                "0.4",
                vec![MigrationField::Rename {
                    source: vec![int_field("c")],
                    target: text_field("c"),
                    converter: Some(Expr::ToText(name("c"))),
                }],
            ),
        ],
    )
}

#[test]
fn chain_is_put_in_order() {
    let steps = vec![step("0.1", "0.2", vec![]), step("0.2", "0.3", vec![])];
    assert_eq!(order_chain("0.3", &steps), Ok(vec![1, 0]));
    assert_eq!(order_chain("0.3", &vec![]), Ok(vec![]));
    let steps = vec![
        step("0.3", "0.4", vec![]),
        step("0.1", "0.2", vec![]),
        step("0.2", "0.3", vec![]),
    ];
    assert_eq!(order_chain("0.4", &steps), Ok(vec![0, 2, 1]));
}

#[test]
fn chain_with_two_steps_to_one_version_is_refused() {
    let steps = vec![step("0.1", "0.2", vec![]), step("0.0", "0.2", vec![])];
    assert_eq!(order_chain("0.2", &steps), Err(ChainFault::DuplicateTarget));
}

#[test]
fn chain_that_comes_back_is_refused() {
    let steps = vec![step("0.1", "0.2", vec![]), step("0.2", "0.1", vec![])];
    assert_eq!(order_chain("0.2", &steps), Err(ChainFault::Cycle));
    assert_eq!(order_chain("0.2", &vec![step("0.2", "0.2", vec![])]), Err(ChainFault::Cycle));
    let steps = vec![
        step("0.3", "0.4", vec![]),
        step("0.2", "0.3", vec![]),
        step("0.3", "0.2", vec![]),
    ];
    assert_eq!(order_chain("0.4", &steps), Err(ChainFault::Cycle));
}

#[test]
fn chain_with_a_gap_is_refused() {
    let steps = vec![step("0.1", "0.2", vec![]), step("0.5", "0.6", vec![])];
    assert_eq!(order_chain("0.2", &steps), Err(ChainFault::Gap));
    assert_eq!(order_chain("1.0", &vec![step("0.1", "0.2", vec![])]), Err(ChainFault::Gap));
    assert_eq!(
        try_register("1.0", vec![int_field("a")], vec![step("0.1", "0.2", vec![])]).unwrap_err(),
        MigrationError::ChainError(ChainFault::Gap)
    );
}

#[test]
fn ambiguous_rename_is_refused() {
    let rule = MigrationField::Rename {
        source: vec![int_field("c"), int_field("d")],
        target: text_field("e"),
        converter: None,
    };
    let err = try_register(
        "0.2",
        vec![int_field("a"), int_field("b"), text_field("e")],
        vec![step("0.1", "0.2", vec![rule])],
    )
    .unwrap_err();
    assert_eq!(err, MigrationError::AmbiguousConversion("e".to_string()));
}

#[test]
fn ambiguous_copy_is_refused_whatever_else_is_wrong() {
    let rule = MigrationField::Copy {
        source: vec![int_field("c"), int_field("d")],
        target: text_field("e"),
        converter: None,
    };
    let err = try_register(
        "0.9",
        vec![int_field("a")],
        vec![step("0.1", "0.2", vec![]), step("0.0", "0.2", vec![add(int_field("x")), rule])],
    )
    .unwrap_err();
    assert_eq!(err, MigrationError::AmbiguousConversion("e".to_string()));
    let rule = MigrationField::Copy { source: vec![], target: text_field("z"), converter: None };
    let err = try_register("0.2", vec![text_field("z")], vec![step("0.1", "0.2", vec![rule])])
        .unwrap_err();
    assert_eq!(err, MigrationError::AmbiguousConversion("z".to_string()));
}

#[test]
fn step_that_does_not_lead_to_the_newer_shape_is_refused() {
    let err = try_register(
        "0.2",
        vec![int_field("a")],
        vec![step("0.1", "0.2", vec![add(int_field("c"))])],
    )
    .unwrap_err();
    assert_eq!(err, MigrationError::ChainError(ChainFault::ShapeMismatch));
    let err = try_register(
        "0.2",
        vec![int_field("a"), int_field("c")],
        vec![step("0.1", "0.2", vec![add(text_field("c"))])],
    )
    .unwrap_err();
    assert_eq!(err, MigrationError::ChainError(ChainFault::ShapeMismatch));
    let err = try_register(
        "0.2",
        vec![int_field("a"), int_field("c")],
        vec![step("0.1", "0.2", vec![MigrationField::Remove { value: int_field("c") }])],
    )
    .unwrap_err();
    assert_eq!(err, MigrationError::ChainError(ChainFault::ShapeMismatch));
}

#[test]
fn older_shape_is_inferred() {
    let newer = SchemaShape::from_fields(&vec![int_field("a"), int_field("b"), int_field("d")]);
    let rules = vec![
        MigrationField::Rename {
            source: vec![text_field("c"), int_field("e")],
            target: int_field("d"),
            converter: Some(Expr::Literal(Datum::Int(0))),
        },
        add(int_field("b")),
        MigrationField::Remove { value: real_field("r") },
        MigrationField::Copy {
            source: vec![text_field("a")],
            target: int_field("zz"),
            converter: Some(Expr::Literal(Datum::Int(0))),
        },
    ];
    let older = infer_older_version_struct(&newer, &rules);
    assert_eq!(older.len(), 4);
    assert_eq!(older.get("a"), Some(&TypeDescriptor::of(Kind::Text)));
    assert_eq!(older.get("c"), Some(&TypeDescriptor::of(Kind::Text)));
    assert_eq!(older.get("e"), Some(&TypeDescriptor::of(Kind::Int)));
    assert_eq!(older.get("r"), Some(&TypeDescriptor::of(Kind::Real)));
    assert_eq!(older.get("b"), None);
    assert_eq!(older.get("d"), None);
}

#[test]
fn every_version_gets_its_shape() {
    let steps = vec![
        step("0.2", "0.3", vec![add(int_field("c"))]),
        step("0.1", "0.2", vec![MigrationField::Remove { value: text_field("x") }]),
    ];
    let ordered = vec![&steps[0], &steps[1]];
    let shapes = generate_old_versions(
        "0.3".to_string(),
        SchemaShape::from_fields(&vec![int_field("a"), int_field("c")]),
        &ordered,
    );
    assert_eq!(shapes.len(), 3);
    assert_eq!(shapes[0].0, "0.3");
    assert_eq!(shapes[1].0, "0.2");
    assert_eq!(shapes[2].0, "0.1");
    assert_eq!(shapes[0].1.len(), 2);
    assert_eq!(shapes[1].1.len(), 1);
    assert_eq!(shapes[1].1.get("a"), Some(&TypeDescriptor::of(Kind::Int)));
    assert_eq!(shapes[2].1.len(), 2);
    assert_eq!(shapes[2].1.get("x"), Some(&TypeDescriptor::of(Kind::Text)));
}

#[test]
fn plan_says_where_each_field_comes_from() {
    let older = SchemaShape::from_fields(&vec![int_field("a"), int_field("c"), int_field("x")]);
    let rules = vec![
        MigrationField::Rename {
            source: vec![int_field("c")],
            target: text_field("d"),
            converter: Some(Expr::ToText(name("c"))),
        },
        MigrationField::Remove { value: int_field("x") },
        add(int_field("n")),
    ];
    let plan = generate_older_version_impl(&older, &rules).unwrap();
    assert_eq!(plan.len(), 3);
    assert_eq!(
        plan.get("a"),
        Some(&FieldPlan { ty: TypeDescriptor::of(Kind::Int), origin: Origin::Keep })
    );
    assert_eq!(
        plan.get("d"),
        Some(&FieldPlan { ty: TypeDescriptor::of(Kind::Text), origin: Origin::Rule(0) })
    );
    assert_eq!(
        plan.get("n"),
        Some(&FieldPlan { ty: TypeDescriptor::of(Kind::Int), origin: Origin::Rule(2) })
    );
    let old = instance(vec![("a", Datum::Int(1)), ("c", Datum::Int(-20)), ("x", Datum::Int(3))]);
    let new = convert(&plan, &rules, &old).unwrap();
    expect(&new, vec![("a", Datum::Int(1)), ("d", s("-20")), ("n", Datum::Int(0))]);
    let ambiguous = vec![MigrationField::Rename {
        source: vec![int_field("a"), int_field("c")],
        target: int_field("s"),
        converter: None,
    }];
    assert_eq!(
        generate_older_version_impl(&older, &ambiguous).unwrap_err(),
        MigrationError::AmbiguousConversion("s".to_string())
    );
}

#[test]
fn written_instance_reads_back() {
    let reg = five_versions();
    let x = instance(vec![
        ("d", Datum::Int(-4)),
        ("c", s("three")),
        ("b", Datum::Int(2)),
        ("a", Datum::Int(1)),
    ]);
    let wire = reg.serialize(&x).unwrap();
    assert_eq!(
        wire,
        record(vec![
            ("$version", s("0.5")),
            ("a", Datum::Int(1)),
            ("b", Datum::Int(2)),
            ("c", s("three")),
            ("d", Datum::Int(-4)),
        ])
    );
    let back = reg.deserialize(&wire).unwrap();
    expect(
        &back,
        vec![("a", Datum::Int(1)), ("b", Datum::Int(2)), ("c", s("three")), ("d", Datum::Int(-4))],
    );
    let text = reg.write_json(&x).unwrap();
    assert_eq!(text, r#"{"$version":"0.5","a":1,"b":2,"c":"three","d":-4}"#);
    expect(
        &reg.read_json(&text).unwrap(),
        vec![("a", Datum::Int(1)), ("b", Datum::Int(2)), ("c", s("three")), ("d", Datum::Int(-4))],
    );
}

#[test]
fn field_named_like_the_tag_reads_back() {
    let reg = register("1", vec![text_field("$version"), int_field("a")], vec![]);
    let x = instance(vec![("$version", s("mine")), ("a", Datum::Int(1))]);
    let wire = reg.serialize(&x).unwrap();
    expect(&reg.deserialize(&wire).unwrap(), vec![("$version", s("mine")), ("a", Datum::Int(1))]);
}

#[test]
fn current_tag_applies_no_edge() {
    let reg = five_versions();
    let wire = record(vec![
        ("$version", s("0.5")),
        ("a", Datum::Int(1)),
        ("b", Datum::Int(2)),
        ("c", s("3")),
        ("d", Datum::Int(4)),
    ]);
    let tagged = read_envelope(reg.key(), &wire).unwrap();
    assert_eq!(tagged.version(), Some("0.5"));
    assert_eq!(tagged.fields.len(), 4);
    let decoded = reg.decode(&tagged).unwrap();
    assert_eq!(decoded.hops(), 0);
    assert_eq!(decoded.tag(), "0.5");
    expect(
        &decoded.migrate().unwrap(),
        vec![("a", Datum::Int(1)), ("b", Datum::Int(2)), ("c", s("3")), ("d", Datum::Int(4))],
    );
}

#[test]
fn every_registered_tag_is_read() {
    let reg = five_versions();
    assert_eq!(reg.version_count(), 5);
    assert_eq!(reg.current_version(), "0.5");
    let payloads = [
        (r#"{"$version":"0.5","a":1,"b":2,"c":"0","d":0}"#, 0),
        (r#"{"$version":"0.4","a":1,"b":2,"c":"0"}"#, 1),
        (r#"{"$version":"0.3","a":1,"b":2,"c":0}"#, 2),
        (r#"{"$version":"0.2","a":1,"b":2}"#, 3),
        (r#"{"$version":"0.1","a":1,"b":2}"#, 4),
    ];
    for (text, hops) in payloads {
        let value = hifumi::json::parse_json(text).unwrap();
        let decoded = reg.decode(&read_envelope(reg.key(), &value).unwrap()).unwrap();
        assert_eq!(decoded.hops(), hops);
        expect(
            &reg.read_json(text).unwrap(),
            vec![("a", Datum::Int(1)), ("b", Datum::Int(2)), ("c", s("0")), ("d", Datum::Int(0))],
        );
    }
}

#[test]
fn unknown_version_is_reported() {
    let reg = five_versions();
    assert_eq!(
        reg.read_json(r#"{"$version":"9.9","a":1,"b":2}"#).unwrap_err(),
        WireError::Migration(MigrationError::UnknownVersion("9.9".to_string()))
    );
    assert_eq!(reg.find_version("0.3"), Some(2));
    assert_eq!(reg.find_version("9.9"), None);
    assert!(reg.shape_of("0.1").is_some());
    assert!(reg.shape_of("0.0").is_none());
}

#[test]
fn payload_that_does_not_match_its_shape_is_reported() {
    let reg = five_versions();
    assert_eq!(
        reg.read_json(r#"{"$version":"0.3","a":1,"c":3}"#).unwrap_err(),
        WireError::Migration(MigrationError::MissingField("b".to_string()))
    );
    assert_eq!(
        reg.read_json(r#"{"$version":"0.3","a":"one","c":3}"#).unwrap_err(),
        WireError::Migration(MigrationError::TypeMismatch("a".to_string()))
    );
    assert_eq!(
        reg.read_json(r#"{"$version":3,"a":1,"b":2}"#).unwrap_err(),
        WireError::Migration(MigrationError::TypeMismatch("$version".to_string()))
    );
    assert_eq!(
        reg.read_json(r#"[1,2]"#).unwrap_err(),
        WireError::Migration(MigrationError::TypeMismatch("$version".to_string()))
    );
    assert_eq!(reg.read_json("{").unwrap_err(), WireError::Json(hifumi::json::JsonError::Syntax));
}

#[test]
fn members_that_the_shape_does_not_name_are_passed_over() {
    let reg = five_versions();
    expect(
        &reg.read_json(r#"{"zz":[1],"$version":"0.2","b":2,"a":1,"c":"left over"}"#).unwrap(),
        vec![("a", Datum::Int(1)), ("b", Datum::Int(2)), ("c", s("0")), ("d", Datum::Int(0))],
    );
}

#[test]
fn payload_without_tag_is_of_the_current_version() {
    let reg = five_versions();
    expect(
        &reg.read_json(r#"{"a":1,"b":2,"c":"x","d":9}"#).unwrap(),
        vec![("a", Datum::Int(1)), ("b", Datum::Int(2)), ("c", s("x")), ("d", Datum::Int(9))],
    );
    assert_eq!(reg.default_tag(), "0.5");
}

#[test]
fn framing_can_be_set() {
    let input = Migration {
        versions: vec![step("old", "new", vec![add(int_field("n"))])],
        struct_name: "Thing".to_string(),
        fields: vec![int_field("a"), int_field("n")],
    };
    let settings = Settings { tag_key: "v".to_string(), absent_tag: Some("old".to_string()) };
    let reg = Registry::build(settings, "new".to_string(), input).unwrap();
    assert_eq!(reg.name(), "Thing");
    assert_eq!(reg.key(), "v");
    assert_eq!(reg.default_tag(), "old");
    expect(
        &reg.read_json(r#"{"a":1,"$version":"new"}"#).unwrap(),
        vec![("a", Datum::Int(1)), ("n", Datum::Int(0))],
    );
    expect(
        &reg.read_json(r#"{"a":1,"n":5,"v":"new"}"#).unwrap(),
        vec![("a", Datum::Int(1)), ("n", Datum::Int(5))],
    );
    assert_eq!(
        reg.write_json(&instance(vec![("a", Datum::Int(1)), ("n", Datum::Int(2))])).unwrap(),
        r#"{"v":"new","a":1,"n":2}"#
    );
}

#[test]
fn absent_optional_field_is_null() {
    let reg = register(
        "1",
        vec![int_field("a"), FieldSpec::new("o", TypeDescriptor::optional(Kind::Text))],
        vec![],
    );
    expect(
        &reg.read_json(r#"{"$version":"1","a":1}"#).unwrap(),
        vec![("a", Datum::Int(1)), ("o", Datum::Null)],
    );
    assert_eq!(
        reg.write_json(&instance(vec![("a", Datum::Int(1))])).unwrap(),
        r#"{"$version":"1","a":1,"o":null}"#
    );
    assert_eq!(
        reg.write_json(&instance(vec![("o", s("x"))])).unwrap_err(),
        WireError::Migration(MigrationError::MissingField("a".to_string()))
    );
    assert_eq!(
        reg.write_json(&instance(vec![("a", s("x"))])).unwrap_err(),
        WireError::Migration(MigrationError::TypeMismatch("a".to_string()))
    );
    assert_eq!(
        reg.write_json(&instance(vec![("a", Datum::Int(1)), ("extra", Datum::Int(2))])).unwrap(),
        r#"{"$version":"1","a":1,"o":null}"#
    );
}

#[test]
fn failing_converter_is_reported() {
    let sum = |converter: Expr, target: FieldSpec| {
        let fields = vec![int_field("a"), int_field("b"), target];
        let target = FieldSpec::new(fields[2].name.as_str(), fields[2].ty.duplicate());
        register(
            "0.2",
            fields,
            vec![step(
                "0.1",
                "0.2",
                vec![MigrationField::Copy {
                    source: vec![int_field("a"), int_field("b")],
                    target,
                    converter: Some(converter),
                }],
            )],
        )
    };
    let failure = |reg: &Registry, text: &str| match reg.read_json(text).unwrap_err() {
        WireError::Migration(MigrationError::ConversionFailure(field, cause)) => (field, cause),
        other => panic!("{:?}", other),
    };
    let reg = sum(Expr::Sum(name("a"), name("b")), int_field("c"));
    expect(
        &reg.read_json(r#"{"$version":"0.1","a":9223372036854775806,"b":1}"#).unwrap(),
        vec![
            ("a", Datum::Int(9223372036854775806)),
            ("b", Datum::Int(1)),
            ("c", Datum::Int(i64::MAX)),
        ],
    );
    assert_eq!(
        failure(&reg, r#"{"$version":"0.1","a":9223372036854775807,"b":1}"#),
        ("c".to_string(), EvalError::Overflow)
    );
    let reg = sum(Expr::Sum(name("a"), name("z")), int_field("c"));
    assert_eq!(
        failure(&reg, r#"{"$version":"0.1","a":1,"b":1,"z":1}"#),
        ("c".to_string(), EvalError::Unbound)
    );
    let reg = sum(Expr::ToText(name("a")), int_field("c"));
    assert_eq!(
        failure(&reg, r#"{"$version":"0.1","a":1,"b":1}"#),
        ("c".to_string(), EvalError::WrongType)
    );
    let reg = sum(Expr::Sum(name("a"), Box::new(Expr::Literal(s("x")))), int_field("c"));
    assert_eq!(
        failure(&reg, r#"{"$version":"0.1","a":1,"b":1}"#),
        ("c".to_string(), EvalError::NotInteger)
    );
}

#[test]
fn value_is_carried_over_where_the_new_type_takes_it() {
    let rule = |target: FieldSpec| MigrationField::Rename {
        source: vec![int_field("c")],
        target,
        converter: None,
    };
    let reg = register("0.2", vec![real_field("d")], vec![step("0.1", "0.2", vec![rule(real_field("d"))])]);
    expect(&reg.read_json(r#"{"$version":"0.1","c":3}"#).unwrap(), vec![("d", Datum::Int(3))]);
    let reg = register("0.2", vec![text_field("d")], vec![step("0.1", "0.2", vec![rule(text_field("d"))])]);
    assert_eq!(
        reg.read_json(r#"{"$version":"0.1","c":3}"#).unwrap_err(),
        WireError::Migration(MigrationError::ConversionFailure(
            "d".to_string(),
            EvalError::WrongType
        ))
    );
}

#[test]
fn expressions_are_evaluated() {
    let env = instance(vec![("a", Datum::Int(-5)), ("t", s("x")), ("r", real_text("1.5"))]);
    assert_eq!(Expr::Sum(name("a"), name("a")).eval(&env), Ok(Datum::Int(-10)));
    assert_eq!(Expr::ToText(name("a")).eval(&env), Ok(s("-5")));
    assert_eq!(Expr::ToText(name("t")).eval(&env), Ok(s("x")));
    assert_eq!(Expr::ToText(name("r")).eval(&env), Ok(s("1.5")));
    assert_eq!(Expr::ToText(Box::new(Expr::Literal(Datum::Bool(true)))).eval(&env), Ok(s("true")));
    assert_eq!(Expr::ToText(Box::new(Expr::Literal(Datum::Bool(false)))).eval(&env), Ok(s("false")));
    assert_eq!(
        Expr::ToText(Box::new(Expr::Literal(Datum::Null))).eval(&env),
        Err(EvalError::NotPrintable)
    );
    assert_eq!(Expr::ToReal(name("a")).eval(&env), Ok(real_text("-5.0")));
    assert_eq!(Expr::ToReal(name("r")).eval(&env), Ok(real_text("1.5")));
    assert_eq!(Expr::ToReal(name("t")).eval(&env), Err(EvalError::NotNumber));
    assert_eq!(name("nope").eval(&env), Err(EvalError::Unbound));
    assert_eq!(Expr::Sum(name("nope"), name("t")).eval(&env), Err(EvalError::Unbound));
    assert_eq!(Expr::Sum(name("a"), name("t")).eval(&env), Err(EvalError::NotInteger));
    let low = Box::new(Expr::Literal(Datum::Int(i64::MIN)));
    assert_eq!(Expr::Sum(low, name("a")).eval(&env), Err(EvalError::Overflow));
}

#[test]
fn integers_are_written_in_decimal() {
    assert_eq!(int_to_text(0), "0");
    assert_eq!(int_to_text(7), "7");
    assert_eq!(int_to_text(-1), "-1");
    assert_eq!(int_to_text(1000), "1000");
    assert_eq!(int_to_text(i64::MAX), "9223372036854775807");
    assert_eq!(int_to_text(i64::MIN), "-9223372036854775808");
}

#[test]
fn types_take_their_values() {
    let int_type = TypeDescriptor::of(Kind::Int);
    assert!(int_type.accepts(&Datum::Int(1)));
    assert!(!int_type.accepts(&Datum::Null));
    assert!(!int_type.accepts(&real_text("1.0")));
    assert!(TypeDescriptor::optional(Kind::Int).accepts(&Datum::Null));
    assert!(TypeDescriptor::of(Kind::Real).accepts(&Datum::Int(1)));
    assert!(TypeDescriptor::of(Kind::Any).accepts(&Datum::List(vec![])));
    assert!(!TypeDescriptor::of(Kind::Record).accepts(&Datum::List(vec![])));
    assert_eq!(TypeDescriptor::of(Kind::Bool).zero(), Datum::Bool(false));
    assert_eq!(TypeDescriptor::of(Kind::Int).zero(), Datum::Int(0));
    assert_eq!(TypeDescriptor::of(Kind::Real).zero(), real_text("0.0"));
    assert_eq!(TypeDescriptor::of(Kind::Text).zero(), s(""));
    assert_eq!(TypeDescriptor::of(Kind::List).zero(), Datum::List(vec![]));
    assert_eq!(TypeDescriptor::of(Kind::Record).zero(), Datum::Record(vec![]));
    assert_eq!(TypeDescriptor::of(Kind::Any).zero(), Datum::Null);
    assert_eq!(TypeDescriptor::optional(Kind::Text).zero(), Datum::Null);
}

#[test]
fn edges_from_a_version_are_listed() {
    let reg = five_versions();
    let pair = |a: &str, b: &str| (a.to_string(), b.to_string());
    assert_eq!(reg.chain_from("0.5"), Some(vec![]));
    assert_eq!(reg.chain_from("0.4"), Some(vec![pair("0.4", "0.5")]));
    assert_eq!(
        reg.chain_from("0.1"),
        Some(vec![pair("0.1", "0.2"), pair("0.2", "0.3"), pair("0.3", "0.4"), pair("0.4", "0.5")])
    );
    assert_eq!(reg.chain_from("0.0"), None);
}

#[test]
fn fields_of_a_read_instance_stand_in_the_order_of_the_last_plan() {
    let reg = register(
        "2",
        vec![int_field("a"), int_field("z")],
        vec![step("1", "2", vec![add(int_field("a"))])],
    );
    let names = |x: &Instance| -> Vec<String> {
        (0..x.len()).map(|i| x.entry(i).unwrap().0.clone()).collect()
    };
    let new = reg.read_json(r#"{"$version":"2","z":1,"a":2}"#).unwrap();
    assert_eq!(names(&new), vec!["a", "z"]);
    let old = reg.read_json(r#"{"$version":"1","z":1}"#).unwrap();
    assert_eq!(names(&old), vec!["z", "a"]);
    assert_eq!(reg.write_json(&old).unwrap(), r#"{"$version":"2","a":0,"z":1}"#);
    assert!(new.has("a") && !new.has("b"));
    let copy = old.duplicate();
    assert_eq!(names(&copy), vec!["z", "a"]);
    assert_eq!(copy.entry(2), None);
}

#[test]
fn oldest_payload_resolves_to_the_same_instance_as_the_newest() {
    let reg = five_versions();
    let oldest = reg.read_json(r#"{"$version":"0.1","a":1,"b":2}"#).unwrap();
    let newest = reg.read_json(r#"{"$version":"0.5","a":1,"b":2,"c":"0","d":0}"#).unwrap();
    assert_eq!(oldest.len(), newest.len());
    for i in 0..newest.len() {
        let (name, value) = newest.entry(i).unwrap();
        assert_eq!(oldest.get(name), Some(value));
    }
    assert_eq!(reg.write_json(&oldest).unwrap(), reg.write_json(&newest).unwrap());
    assert_eq!(
        reg.write_json(&oldest).unwrap(),
        r#"{"$version":"0.5","a":1,"b":2,"c":"0","d":0}"#
    );
}

#[test]
fn malformed_chain_refuses_registration() {
    assert_eq!(
        try_register(
            "0.2",
            vec![int_field("a")],
            vec![step("0.1", "0.2", vec![]), step("0.0", "0.2", vec![])]
        )
        .unwrap_err(),
        MigrationError::ChainError(ChainFault::DuplicateTarget)
    );
    assert_eq!(
        try_register(
            "0.2",
            vec![int_field("a")],
            vec![step("0.1", "0.2", vec![]), step("0.2", "0.1", vec![])]
        )
        .unwrap_err(),
        MigrationError::ChainError(ChainFault::Cycle)
    );
    assert!(try_register("0.2", vec![int_field("a")], vec![step("0.1", "0.2", vec![])]).is_ok());
}

#[test]
fn integer_is_held_to_the_range_of_its_type() {
    let sized = |w: Width| TypeDescriptor::integer(w);
    assert!(sized(Width::I8).accepts(&Datum::Int(127)));
    assert!(sized(Width::I8).accepts(&Datum::Int(-128)));
    assert!(!sized(Width::I8).accepts(&Datum::Int(128)));
    assert!(!sized(Width::I8).accepts(&Datum::Int(-129)));
    assert!(sized(Width::I16).accepts(&Datum::Int(-32768)));
    assert!(!sized(Width::I16).accepts(&Datum::Int(32768)));
    assert!(sized(Width::I32).accepts(&Datum::Int(2147483647)));
    assert!(!sized(Width::I32).accepts(&Datum::Int(2147483648)));
    assert!(sized(Width::I64).accepts(&Datum::Int(i64::MIN)));
    assert!(sized(Width::I64).accepts(&Datum::Int(i64::MAX)));
    assert!(sized(Width::U8).accepts(&Datum::Int(255)));
    assert!(!sized(Width::U8).accepts(&Datum::Int(256)));
    assert!(!sized(Width::U8).accepts(&Datum::Int(-1)));
    assert!(sized(Width::U16).accepts(&Datum::Int(65535)));
    assert!(!sized(Width::U16).accepts(&Datum::Int(65536)));
    assert!(sized(Width::U32).accepts(&Datum::Int(4294967295)));
    assert!(!sized(Width::U32).accepts(&Datum::Int(4294967296)));
    assert!(sized(Width::U64).accepts(&Datum::Int(i64::MAX)));
    assert!(!sized(Width::U64).accepts(&Datum::Int(-1)));
    assert!(sized(Width::U64).accepts(&real_text("18446744073709551615")));
    assert!(!sized(Width::U64).accepts(&real_text("18446744073709551616")));
    assert!(!sized(Width::I64).accepts(&real_text("9223372036854775808")));
    assert!(!sized(Width::U64).accepts(&real_text("1.5")));
    assert!(!sized(Width::U64).accepts(&real_text("1e3")));
    assert!(!sized(Width::U64).accepts(&real_text("")));
    assert!(!sized(Width::U64).accepts(&real_text("-")));
    assert!(!sized(Width::U64).accepts(&real_text("-1")));
    assert!(sized(Width::U128).accepts(&real_text("340282366920938463463374607431768211455")));
    assert!(!sized(Width::U128).accepts(&real_text("340282366920938463463374607431768211456")));
    assert!(!sized(Width::U128).accepts(&real_text("3402823669209384634633746074317682114550")));
    assert!(sized(Width::I128).accepts(&real_text("170141183460469231731687303715884105727")));
    assert!(!sized(Width::I128).accepts(&real_text("170141183460469231731687303715884105728")));
    assert!(sized(Width::I128).accepts(&real_text("-170141183460469231731687303715884105728")));
    assert!(!sized(Width::I128).accepts(&real_text("-170141183460469231731687303715884105729")));
    assert!(sized(Width::I128).accepts(&Datum::Int(i64::MIN)));
    assert!(!sized(Width::I8).accepts(&s("1")));
    assert!(!sized(Width::I8).accepts(&Datum::Null));
    assert!(sized(Width::I8).or_null().accepts(&Datum::Null));
    assert!(!sized(Width::I8).or_null().accepts(&Datum::Int(128)));
    assert!(whole_within("-128", 128, 127));
    assert!(!whole_within("-129", 128, 127));
    assert!(whole_within("007", 0, 7));
    assert!(!whole_within("8", 0, 7));
    assert!(!whole_within("+1", 0, 7));
    assert!(!whole_within("1 ", 0, 7));
    assert!(int_within(Width::U32, 0));
    assert!(!int_within(Width::I32, -2147483649));
    assert!(text_within(Width::I8, "-128"));
    assert!(!text_within(Width::U8, "-0x1"));
}

#[test]
fn items_of_a_list_are_held_to_their_kind() {
    let texts = TypeDescriptor::list(TypeDescriptor::of(Kind::Text));
    assert!(texts.accepts(&Datum::List(vec![])));
    assert!(texts.accepts(&Datum::List(vec![s("a"), s("b")])));
    assert!(!texts.accepts(&Datum::List(vec![s("a"), Datum::Int(1)])));
    assert!(!texts.accepts(&Datum::List(vec![Datum::Null])));
    assert!(!texts.accepts(&s("a")));
    assert!(!texts.accepts(&Datum::Null));
    assert!(texts.duplicate().or_null().accepts(&Datum::Null));
    assert!(!texts.duplicate().or_null().accepts(&Datum::List(vec![Datum::Null])));
    assert_eq!(texts.duplicate(), texts);
    assert!(texts.same(&texts.duplicate()));
    assert!(!texts.same(&texts.duplicate().or_null()));
    assert!(!texts.same(&TypeDescriptor::of(Kind::List)));
    assert!(!texts.same(&TypeDescriptor::list(TypeDescriptor::of(Kind::Bool))));
    let optional = TypeDescriptor::list(TypeDescriptor::optional(Kind::Text));
    assert!(optional.accepts(&Datum::List(vec![Datum::Null, s("a")])));
    let bytes = TypeDescriptor::list(TypeDescriptor::integer(Width::U8));
    assert!(bytes.accepts(&Datum::List(vec![Datum::Int(0), Datum::Int(255)])));
    assert!(!bytes.accepts(&Datum::List(vec![Datum::Int(0), Datum::Int(256)])));
    let lists = TypeDescriptor::list(TypeDescriptor::list(TypeDescriptor::of(Kind::Text)));
    assert!(lists.accepts(&Datum::List(vec![Datum::List(vec![s("a")]), Datum::List(vec![])])));
    assert!(!lists.accepts(&Datum::List(vec![Datum::List(vec![Datum::Int(1)])])));
    assert!(!lists.accepts(&Datum::List(vec![Datum::Int(1)])));
    let deep = TypeDescriptor::record(TypeDescriptor::list(TypeDescriptor::record(
        TypeDescriptor::integer(Width::U8).or_null(),
    )));
    assert!(deep.accepts(&record(vec![(
        "a",
        Datum::List(vec![record(vec![("x", Datum::Null), ("y", Datum::Int(255))])])
    )])));
    assert!(!deep.accepts(&record(vec![(
        "a",
        Datum::List(vec![record(vec![("x", Datum::Null), ("y", Datum::Int(256))])])
    )])));
    assert!(TypeDescriptor::of(Kind::List).accepts(&Datum::List(vec![Datum::Int(1), s("a")])));
    let counts = TypeDescriptor::record(TypeDescriptor::integer(Width::U8));
    assert!(counts.accepts(&record(vec![])));
    assert!(counts.accepts(&record(vec![("a", Datum::Int(1)), ("b", Datum::Int(255))])));
    assert!(!counts.accepts(&record(vec![("a", Datum::Int(1)), ("b", Datum::Int(256))])));
    assert!(!counts.accepts(&record(vec![("a", s("1"))])));
    assert!(!counts.accepts(&Datum::List(vec![])));
    assert!(TypeDescriptor::of(Kind::Record).accepts(&record(vec![("a", s("1"))])));
    let letter = TypeDescriptor::of(Kind::Char);
    assert!(letter.accepts(&s("a")));
    assert!(letter.accepts(&s("é")));
    assert!(!letter.accepts(&s("")));
    assert!(!letter.accepts(&s("ab")));
    assert!(!letter.accepts(&Datum::Int(1)));
    assert_eq!(letter.zero(), s("\0"));
    assert!(letter.accepts(&letter.zero()));
    assert!(kind_accepts(Kind::Real, Width::I64, &Datum::Int(1)));
    assert!(!kind_accepts(Kind::Int, Width::I64, &real_text("1.0")));
}

#[test]
fn payload_is_decoded_strictly() {
    let fields = vec![
        FieldSpec::new("small", TypeDescriptor::integer(Width::I8)),
        FieldSpec::new("big", TypeDescriptor::integer(Width::U64)),
        FieldSpec::new("names", TypeDescriptor::list(TypeDescriptor::of(Kind::Text))),
    ];
    let reg = register("1", fields, vec![]);
    let read = reg
        .read_json(r#"{"$version":"1","small":-128,"big":18446744073709551615,"names":["a"]}"#)
        .unwrap();
    expect(
        &read,
        vec![
            ("small", Datum::Int(-128)),
            ("big", real_text("18446744073709551615")),
            ("names", Datum::List(vec![s("a")])),
        ],
    );
    assert_eq!(
        reg.write_json(&read).unwrap(),
        r#"{"$version":"1","small":-128,"big":18446744073709551615,"names":["a"]}"#
    );
    assert_eq!(
        reg.read_json(r#"{"$version":"1","small":128,"big":1,"names":[]}"#).unwrap_err(),
        WireError::Migration(MigrationError::TypeMismatch("small".to_string()))
    );
    assert_eq!(
        reg.read_json(r#"{"$version":"1","small":1,"big":-1,"names":[]}"#).unwrap_err(),
        WireError::Migration(MigrationError::TypeMismatch("big".to_string()))
    );
    assert_eq!(
        reg.read_json(r#"{"$version":"1","small":1,"big":18446744073709551616,"names":[]}"#)
            .unwrap_err(),
        WireError::Migration(MigrationError::TypeMismatch("big".to_string()))
    );
    assert_eq!(
        reg.read_json(r#"{"$version":"1","small":1,"big":1,"names":[1,2]}"#).unwrap_err(),
        WireError::Migration(MigrationError::TypeMismatch("names".to_string()))
    );
    assert_eq!(
        reg.read_json(r#"{"$version":"1","small":1.5,"big":1,"names":[]}"#).unwrap_err(),
        WireError::Migration(MigrationError::TypeMismatch("small".to_string()))
    );
}

#[test]
fn value_that_leaves_the_range_of_its_new_type_fails_the_conversion() {
    let narrow = FieldSpec::new("d", TypeDescriptor::integer(Width::U8));
    let rule = MigrationField::Rename { source: vec![int_field("c")], target: narrow, converter: None };
    let reg = register(
        "0.2",
        vec![FieldSpec::new("d", TypeDescriptor::integer(Width::U8))],
        vec![step("0.1", "0.2", vec![rule])],
    );
    expect(&reg.read_json(r#"{"$version":"0.1","c":255}"#).unwrap(), vec![("d", Datum::Int(255))]);
    assert_eq!(
        reg.read_json(r#"{"$version":"0.1","c":256}"#).unwrap_err(),
        WireError::Migration(MigrationError::ConversionFailure(
            "d".to_string(),
            EvalError::WrongType
        ))
    );
}
