use hifumi::diff::{detect_changes, generate_migration_code, AnalysisResult, FieldChange};
use hifumi::ident::{generate_ident, ident_text, numbers_of, IdentError};
use hifumi::json::{parse_json, to_json, JsonError};
use hifumi::order::{comes_before, sorted_by_name};
use hifumi::source::{
    analyze_struct_changes, parse_struct_fields, parse_structs, type_to_string, AnalyzeError,
};
use hifumi::table::Table;
use hifumi::value::{Datum, Entry};


fn table(fields: Vec<(&str, &str)>) -> Table<String> {
    let mut t = Table::new();
    for (n, ty) in fields {
        t.insert(n.to_string(), ty.to_string());
    }
    t
}

fn added(name: &str, ty: &str) -> FieldChange {
    FieldChange::Added { name: name.to_string(), ty: ty.to_string() }
}

fn removed(name: &str, ty: &str) -> FieldChange {
    FieldChange::Removed { name: name.to_string(), ty: ty.to_string() }
}

fn renamed(old_name: &str, new_name: &str, ty: &str) -> FieldChange {
    FieldChange::Renamed {
        old_name: old_name.to_string(),
        new_name: new_name.to_string(),
        ty: ty.to_string(),
    }
}

fn retyped(name: &str, old_ty: &str, new_ty: &str) -> FieldChange {
    FieldChange::TypeChanged {
        name: name.to_string(),
        old_ty: old_ty.to_string(),
        new_ty: new_ty.to_string(),
    }
}

#[test]
fn table_keeps_the_order_of_insertion() {
    let mut t = table(vec![("b", "1"), ("a", "2"), ("c", "3")]);
    assert_eq!(t.len(), 3);
    t.insert("a".to_string(), "9".to_string());
    assert_eq!(t.entry(1), Some((&"a".to_string(), &"9".to_string())));
    assert_eq!(t.find("c"), Some(2));
    t.remove("b");
    assert_eq!(t.len(), 2);
    assert_eq!(t.entry(0), Some((&"a".to_string(), &"9".to_string())));
    assert_eq!(t.entry(1), Some((&"c".to_string(), &"3".to_string())));
    assert_eq!(t.entry(2), None);
    assert_eq!(t.get("b"), None);
    assert!(t.contains_key("c"));
    t.remove("nothing");
    assert_eq!(t.len(), 2);
}

#[test]
fn changes_are_detected() {
    let old = table(vec![("a", "i32"), ("b", "String"), ("c", "u8"), ("x", "bool")]);
    let new = table(vec![("a", "i64"), ("b", "String"), ("d", "u8"), ("y", "f32")]);
    assert_eq!(
        detect_changes(&old, &new),
        vec![
            renamed("c", "d", "u8"),
            removed("a", "i32"),
            removed("x", "bool"),
            added("a", "i64"),
            added("y", "f32"),
        ]
    );
    assert_eq!(detect_changes(&old, &old), vec![]);
}

#[test]
fn field_of_another_type_is_removed_and_added() {
    let old = table(vec![("a", "i32")]);
    let new = table(vec![("a", "String")]);
    assert_eq!(detect_changes(&old, &new), vec![removed("a", "i32"), added("a", "String")]);
    assert_eq!(detect_changes(&new, &old), vec![removed("a", "String"), added("a", "i32")]);
    let wider = table(vec![("b", "i32"), ("a", "String")]);
    assert_eq!(detect_changes(&old, &wider), vec![renamed("a", "b", "i32"), added("a", "String")]);
}

#[test]
fn fields_are_compared_in_the_order_of_their_names() {
    let old = table(vec![("z", "T"), ("m", "T"), ("b", "U")]);
    let new = table(vec![("y", "T"), ("c", "V"), ("a", "T")]);
    let expected = vec![
        renamed("m", "a", "T"),
        renamed("z", "y", "T"),
        removed("b", "U"),
        added("c", "V"),
    ];
    assert_eq!(detect_changes(&old, &new), expected);
    let old_again = table(vec![("b", "U"), ("z", "T"), ("m", "T")]);
    let new_again = table(vec![("a", "T"), ("y", "T"), ("c", "V")]);
    assert_eq!(detect_changes(&old_again, &new_again), expected);
}

#[test]
fn each_gone_field_takes_the_first_free_field_of_its_type() {
    let old = table(vec![("p", "T"), ("q", "T"), ("r", "T"), ("k", "U")]);
    let new = table(vec![("s", "V"), ("t", "T"), ("u", "T")]);
    assert_eq!(
        detect_changes(&old, &new),
        vec![
            renamed("p", "t", "T"),
            renamed("q", "u", "T"),
            removed("k", "U"),
            removed("r", "T"),
            added("s", "V"),
        ]
    );
}

#[test]
fn step_is_written_for_the_changes() {
    let result = AnalysisResult {
        struct_name: "Test".to_string(),
        changes: vec![
            retyped("a", "i32", "i64"),
            renamed("c", "d", "u8"),
            removed("x", "bool"),
            added("y", "f32"),
        ],
    };
    let expected = [
        "#[migration(\"0.1\" => \"0.2\" {",
        "    a: i32 => i64 { /* TODO: Add converter */ },",
        "    c => d: u8,",
        "    - x: bool,",
        "    + y: f32,",
        "})]",
    ]
    .join("\n");
    assert_eq!(generate_migration_code(&result, "0.1", "0.2", "HEAD~1", "HEAD"), expected);
    let one = AnalysisResult { struct_name: "Test".to_string(), changes: vec![added("y", "f32")] };
    assert_eq!(
        generate_migration_code(&one, "0.1", "0.2", "HEAD~1", "HEAD"),
        "#[migration(\"0.1\" => \"0.2\" {\n    + y: f32,\n})]"
    );
    let nothing = AnalysisResult { struct_name: "Test".to_string(), changes: vec![] };
    assert_eq!(
        generate_migration_code(&nothing, "0.1", "0.2", "HEAD~1", "HEAD"),
        "// No changes detected between HEAD~1 and HEAD\n#[migration(\"0.1\" => \"0.2\")]"
    );
}

#[test]
fn changes_are_described() {
    assert_eq!(added("y", "f32").describe(), "+ y: f32");
    assert_eq!(removed("x", "bool").describe(), "- x: bool");
    assert_eq!(retyped("a", "i32", "i64").describe(), "~ a: i32 => i64");
    assert_eq!(renamed("c", "d", "u8").describe(), "â†’ c => d: u8");
    let result = AnalysisResult {
        struct_name: "Test".to_string(),
        changes: vec![added("y", "f32"), removed("x", "bool")],
    };
    assert_eq!(result.describe(), "Struct: Test\nChanges:\n  + y: f32\n  - x: bool\n");
    let nothing = AnalysisResult { struct_name: "T".to_string(), changes: vec![] };
    assert_eq!(nothing.describe(), "Struct: T\nChanges:\n");
}

#[test]
fn names_are_made_with_sqids() {
    let direct = sqids::Sqids::builder().min_length(10).build().unwrap();
    let encoded = direct.encode(&[48, 46, 49]).unwrap();
    assert!(encoded.len() >= 10);
    assert_eq!(numbers_of("0.1"), vec![48, 46, 49]);
    assert_eq!(generate_ident("Test", "0.1"), Ok(format!("_Test_{}", encoded)));
    assert_ne!(generate_ident("Test", "0.1"), generate_ident("Test", "0.2"));
    assert_ne!(generate_ident("Test", "0.1"), Ok("_Test_0.1".to_string()));
    let outer = direct.encode(&[35, 111, 117, 116, 101, 114]).unwrap();
    assert_eq!(generate_ident("Test", "#outer"), Ok(format!("_Test_{}", outer)));
    assert_eq!(generate_ident("Test", ""), Ok("_Test_".to_string()));
    assert_eq!(ident_text("a", "b"), "_a_b");
    assert_eq!(IdentError, IdentError);
}

#[test]
fn json_text_is_read() {
    let value = parse_json(r#"{"a":1,"b":[true,null,"x",-2,1.5],"c":{"d":18446744073709551615}}"#)
        .unwrap();
    let expected = Datum::Record(vec![
        Entry { name: "a".to_string(), value: Datum::Int(1) },
        Entry {
            name: "b".to_string(),
            value: Datum::List(vec![
                Datum::Bool(true),
                Datum::Null,
                Datum::Text("x".to_string()),
                Datum::Int(-2),
                Datum::Real("1.5".to_string()),
            ]),
        },
        Entry {
            name: "c".to_string(),
            value: Datum::Record(vec![Entry {
                name: "d".to_string(),
                value: Datum::Real("18446744073709551615".to_string()),
            }]),
        },
    ]);
    assert_eq!(value, expected);
    assert_eq!(value.duplicate(), expected);
    assert_eq!(parse_json("{"), Err(JsonError::Syntax));
    assert_eq!(parse_json(""), Err(JsonError::Syntax));
    assert_eq!(
        parse_json(r#"{"a":1,"b":2,"a":3}"#).unwrap(),
        Datum::Record(vec![
            Entry { name: "a".to_string(), value: Datum::Int(3) },
            Entry { name: "b".to_string(), value: Datum::Int(2) },
        ])
    );
}

#[test]
fn json_text_is_written() {
    let text = r#"{"z":1,"b":[true,null,"x",-2,1.5],"a":{"d":18446744073709551615}}"#;
    assert_eq!(to_json(&parse_json(text).unwrap()).unwrap(), text);
    assert_eq!(to_json(&Datum::Real("5".to_string())).unwrap(), "5");
    assert_eq!(to_json(&Datum::Real("2.50".to_string())).unwrap(), "2.5");
    assert_eq!(to_json(&Datum::Text("a\"b".to_string())).unwrap(), r#""a\"b""#);
    assert_eq!(
        to_json(&Datum::List(vec![Datum::Int(1), Datum::Real("abc".to_string())])),
        Err(JsonError::BadNumber("abc".to_string()))
    );
    assert_eq!(
        to_json(&Datum::Real("true".to_string())),
        Err(JsonError::BadNumber("true".to_string()))
    );
    let twice = Datum::Record(vec![
        Entry { name: "a".to_string(), value: Datum::Int(1) },
        Entry { name: "b".to_string(), value: Datum::Real("x".to_string()) },
        Entry { name: "a".to_string(), value: Datum::Int(2) },
    ]);
    assert_eq!(to_json(&twice), Err(JsonError::DuplicateKey("a".to_string())));
}

const OLDER: &str = "
pub struct Other(u8);
enum E { A }
#[derive(Debug)]
pub struct Test {
    pub a: i32,
    b: Vec < String >,
    c: Option<std::collections::HashMap<String, i32>>,
}
struct Unit;
";

const NEWER: &str = "
pub struct Test {
    pub a: i64,
    b: Vec<String>,
    d: Option<std::collections::HashMap<String, i32>>,
    e: bool,
}
";

#[test]
fn fields_are_read_from_source() {
    let fields = parse_struct_fields(OLDER, "Test").unwrap();
    assert_eq!(fields.len(), 3);
    assert_eq!(fields.entry(0), Some((&"a".to_string(), &"i32".to_string())));
    assert_eq!(fields.entry(1), Some((&"b".to_string(), &"Vec<String>".to_string())));
    assert_eq!(
        fields.entry(2),
        Some((&"c".to_string(), &"Option<std::collections::HashMap<String,i32>>".to_string()))
    );
    assert_eq!(
        parse_struct_fields(OLDER, "Nope").unwrap_err(),
        AnalyzeError::StructNotFound("Nope".to_string())
    );
    assert_eq!(
        parse_struct_fields(OLDER, "Other").unwrap_err(),
        AnalyzeError::StructNotFound("Other".to_string())
    );
    assert_eq!(parse_struct_fields("struct {", "Test").unwrap_err(), AnalyzeError::Unparsable);
    let decls = parse_structs(OLDER).unwrap();
    assert_eq!(decls.len(), 4);
    assert!(decls[0].is_none() && decls[1].is_none() && decls[3].is_none());
    assert_eq!(decls[2].as_ref().unwrap().name, "Test");
    assert_eq!(type_to_string("Vec < String >"), "Vec<String>");
    assert_eq!(type_to_string(" "), "");
}

#[test]
fn two_states_of_a_struct_are_compared() {
    let result = analyze_struct_changes("Test", OLDER, NEWER).unwrap();
    assert_eq!(result.struct_name, "Test");
    assert_eq!(
        result.changes,
        vec![
            renamed("c", "d", "Option<std::collections::HashMap<String,i32>>"),
            removed("a", "i32"),
            added("a", "i64"),
            added("e", "bool"),
        ]
    );
    assert_eq!(
        analyze_struct_changes("Test", "fn f() {}", NEWER).unwrap_err(),
        AnalyzeError::StructNotFound("Test".to_string())
    );
    assert_eq!(analyze_struct_changes("Test", OLDER, "!").unwrap_err(), AnalyzeError::Unparsable);
}

#[test]
fn fields_come_out_in_the_order_of_their_names() {
    let fields =
        parse_struct_fields("struct T { zeta: u8, alpha: u8, Beta: u8, _x: u8, al: u8 }", "T")
            .unwrap();
    let names: Vec<&str> = (0..fields.len()).map(|i| fields.entry(i).unwrap().0.as_str()).collect();
    assert_eq!(names, vec!["Beta", "_x", "al", "alpha", "zeta"]);
    let sorted = sorted_by_name(&table(vec![("b", "1"), ("c", "2"), ("a", "3")]));
    assert_eq!(sorted.entry(0), Some((&"a".to_string(), &"3".to_string())));
    assert_eq!(sorted.entry(1), Some((&"b".to_string(), &"1".to_string())));
    assert_eq!(sorted.entry(2), Some((&"c".to_string(), &"2".to_string())));
    assert_eq!(sorted.len(), 3);
    assert_eq!(sorted_by_name(&table(vec![])).len(), 0);
    assert!(comes_before("a", "b"));
    assert!(comes_before("a", "ab"));
    assert!(comes_before("", "a"));
    assert!(comes_before("B", "a"));
    assert!(!comes_before("a", "a"));
    assert!(!comes_before("b", "a"));
    assert!(!comes_before("ab", "a"));
    assert!(!comes_before("", ""));
    assert_eq!(comes_before("é", "z"), "é" < "z");
    assert_eq!(comes_before("z", "é"), "z" < "é");
}
