use harness::json::{number, text, Items, Json, Member, Members, Number};

fn parse(source: &str) -> Json {
    Json::parse(source).expect("valid JSON")
}

#[test]
fn a_text_is_read_into_a_tree() {
    let value = parse(r#"{"b": [1, -2, 0.5, true, null], "a": "é\n"}"#);
    assert_eq!(
        value,
        Json::Object(vec![
            Member {
                name: "a".to_string(),
                value: Json::String("é\n".to_string()),
            },
            Member {
                name: "b".to_string(),
                value: Json::Array(vec![
                    Json::Number(Number::Unsigned(1)),
                    Json::Number(Number::Negative(-2)),
                    Json::Number(Number::Other("0.5".to_string())),
                    Json::Bool(true),
                    Json::Null,
                ]),
            },
        ])
    );
}

#[test]
fn what_is_no_json_is_not_read() {
    for source in ["", "{", "nope", "{'a': 1}", "[1,]", "1 2"] {
        assert!(Json::parse(source).is_none(), "{source:?}");
    }
}

#[test]
fn the_last_of_two_members_counts() {
    assert_eq!(parse(r#"{"a": 1, "a": 2}"#).get("a"), Some(&number(2)));
    let twice = Json::Object(vec![
        Member {
            name: "a".to_string(),
            value: number(1),
        },
        Member {
            name: "a".to_string(),
            value: number(2),
        },
    ]);
    assert_eq!(twice.get("a"), Some(&number(2)));
    assert_eq!(twice.to_text(), r#"{"a":2}"#);
}

#[test]
fn a_tree_is_written_on_one_line() {
    let mut members = Members::new();
    members.push("z", text("two\nlines and a \"quote\""));
    members.push("n", Json::Number(Number::Negative(-7)));
    members.push("t", Json::Number(Number::Other("0.2".to_string())));
    members.push("bad", Json::Number(Number::Other("pi".to_string())));
    let mut items = Items::new();
    items.push(number(u64::MAX));
    items.push(Json::Null);
    members.push("l", items.array());
    assert_eq!(
        members.object().to_text(),
        r#"{"bad":null,"l":[18446744073709551615,null],"n":-7,"t":0.2,"z":"two\nlines and a \"quote\""}"#
    );
}

#[test]
fn plain_members_are_read_back() {
    let mut members = Members::new();
    members.push("s", text("a\u{7}\u{2028}\\"));
    members.push("u", number(3));
    members.push("i", Json::Number(Number::Negative(-3)));
    members.push("b", Json::Bool(false));
    members.push("n", Json::Null);
    let written = members.object();
    let read = parse(&written.to_text());
    for name in ["s", "u", "i", "b", "n", "none"] {
        assert_eq!(read.get(name), written.get(name), "{name}");
    }
}

#[test]
fn nesting_is_read_to_a_limit() {
    let nested = |n: usize| format!("{}{}", "[".repeat(n), "]".repeat(n));
    assert!(Json::parse(&nested(127)).is_some());
    assert!(Json::parse(&nested(128)).is_none());
}

#[test]
fn inserting_replaces() {
    let mut members = Members::new();
    members.push("a", number(1));
    members.push("b", number(2));
    members.insert("a", number(3));
    let object = members.object();
    assert_eq!(object.get("a"), Some(&number(3)));
    assert_eq!(object.get("b"), Some(&number(2)));
    assert_eq!(object.to_text(), r#"{"a":3,"b":2}"#);
}

#[test]
fn values_are_looked_at() {
    let value = parse(r#"{"s": "x", "u": 5, "m": -5, "f": 5.0}"#);
    assert_eq!(value.text_at("s"), Some("x"));
    assert_eq!(value.text_at("u"), None);
    assert_eq!(value.get("u").and_then(Json::as_u64), Some(5));
    assert_eq!(value.get("m").and_then(Json::as_u64), None);
    assert_eq!(value.get("f").and_then(Json::as_u64), None);
    assert_eq!(value.get("none"), None);
    assert_eq!(text("s").get("s"), None);
    assert!(Json::Null.is_null());
    assert!(!value.is_null());
    assert_eq!(value.dup(), value);
    assert_eq!(value.clone(), value);
}
