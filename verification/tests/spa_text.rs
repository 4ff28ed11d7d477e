use pweq::spa_json::{to_string_pretty, JsonValue, SpaJson};
use pweq::spa_read::{parse, SpaParseError};

fn s(t: &str) -> String {
    t.to_string()
}

fn same(a: &JsonValue, b: &JsonValue) -> bool {
    match (a, b) {
        (JsonValue::Null, JsonValue::Null) => true,
        (JsonValue::Bool(x), JsonValue::Bool(y)) => x == y,
        (JsonValue::Number(x), JsonValue::Number(y)) => x == y,
        (JsonValue::String(x), JsonValue::String(y)) => x == y,
        (JsonValue::Array(xs), JsonValue::Array(ys)) => {
            xs.len() == ys.len() && xs.iter().zip(ys.iter()).all(|(x, y)| same(x, y))
        }
        (JsonValue::Object(xs), JsonValue::Object(ys)) => {
            xs.len() == ys.len()
                && xs.iter().zip(ys.iter()).all(|((kx, x), (ky, y))| kx == ky && same(x, y))
        }
        _ => false,
    }
}

fn obj(ms: Vec<(&str, JsonValue)>) -> JsonValue {
    JsonValue::Object(ms.into_iter().map(|(k, v)| (s(k), v)).collect())
}

fn num(t: &str) -> JsonValue {
    JsonValue::Number(s(t))
}

fn text(t: &str) -> JsonValue {
    JsonValue::String(s(t))
}

#[test]
fn spa_members_without_braces() {
    let v = parse("# settings\nrate = 48000\nname = \"test eq\" # trailing\nenabled = true\n").unwrap();
    let expected = obj(vec![
        ("rate", num("48000")),
        ("name", text("test eq")),
        ("enabled", JsonValue::Bool(true)),
    ]);
    assert!(same(&v, &expected), "{v:?}");
}

#[test]
fn spa_reads_plain_json() {
    let v = parse("{\"a\": [1, -2.5e3, null], \"b\": {\"c\": false}, \"d\": \"x\\ny\\\"z\"}").unwrap();
    let expected = obj(vec![
        ("a", JsonValue::Array(vec![num("1"), num("-2.5e3"), JsonValue::Null])),
        ("b", obj(vec![("c", JsonValue::Bool(false))])),
        ("d", text("x\ny\"z")),
    ]);
    assert!(same(&v, &expected), "{v:?}");
}

#[test]
fn spa_plain_words_are_strings() {
    let v = parse("[ builtin bq_peaking 1.0.0 -x ]").unwrap();
    let expected = JsonValue::Array(vec![text("builtin"), text("bq_peaking"), text("1.0.0"), text("-x")]);
    assert!(same(&v, &expected), "{v:?}");
}

#[test]
fn spa_refuses_broken_text() {
    assert!(matches!(parse("{ a = 1"), Err(SpaParseError::Invalid)));
    assert!(matches!(parse("a = \"open"), Err(SpaParseError::Invalid)));
    assert!(matches!(parse("a ="), Err(SpaParseError::Invalid)));
    assert!(matches!(parse("[1] 2"), Err(SpaParseError::Invalid)));
    assert!(matches!(parse("}"), Err(SpaParseError::Invalid)));
    assert!(same(&parse("").unwrap(), &obj(vec![])));
}

#[test]
fn written_spa_reads_back() {
    let v = obj(vec![
        ("context.modules", JsonValue::Array(vec![obj(vec![
            ("name", text("libpipewire-module-filter-chain")),
            ("flags", JsonValue::Array(vec![text("nofail")])),
            ("args", obj(vec![
                ("node.description", text("test eq")),
                ("audio.rate", num("48000")),
                ("gain", num("-0.5")),
                ("empty", JsonValue::Array(vec![])),
                ("nothing", obj(vec![])),
                ("on", JsonValue::Bool(true)),
                ("off", JsonValue::Null),
            ])),
        ])])),
    ]);
    let written = SpaJson::new(&v).to_string();
    let back = parse(&written).unwrap();
    assert!(same(&back, &v), "{written}");
}

#[test]
fn test() {
    let expected = r#"{
  "name": "Alice",
  "age": 30,
  "is_student": false,
  "courses": [
    "Math",
    "Science",
    "Art"
  ],
  "address": {
    "street": "123 Main St",
    "city": "Wonderland"
  }
}"#;
    let v = obj(vec![
        ("name", text("Alice")),
        ("age", num("30")),
        ("is_student", JsonValue::Bool(false)),
        ("courses", JsonValue::Array(vec![text("Math"), text("Science"), text("Art")])),
        ("address", obj(vec![("street", text("123 Main St")), ("city", text("Wonderland"))])),
    ]);
    assert_eq!(to_string_pretty(&v), expected);
}

#[test]
fn pretty_json_escapes_strings() {
    let v = JsonValue::Array(vec![
        text("a\"b\\c\nd\te\u{8}\u{c}\r"),
        text("\u{1}\u{1f}"),
        JsonValue::Array(vec![]),
        obj(vec![]),
        JsonValue::Null,
    ]);
    assert_eq!(
        to_string_pretty(&v),
        "[\n  \"a\\\"b\\\\c\\nd\\te\\b\\f\\r\",\n  \"\\u0001\\u001f\",\n  [],\n  {},\n  null\n]"
    );
}

#[test]
fn pretty_json_reads_back() {
    let v = obj(vec![
        ("keymap", obj(vec![
            ("normal", obj(vec![("j", text("select-next")), ("<C-c>", text("quit"))])),
            ("command", obj(vec![])),
        ])),
        ("quote \"key\"", JsonValue::Array(vec![num("-1.5e3"), JsonValue::Bool(true), text("tab\there")])),
        ("empty", JsonValue::Array(vec![])),
    ]);
    let written = to_string_pretty(&v);
    let back = parse(&written).unwrap();
    assert!(same(&back, &v), "{written}");
}
