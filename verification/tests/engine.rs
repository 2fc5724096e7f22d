// The flattening engine on trees built by hand: the unit cases and the
// per-option behaviors.

use json_flattener::{flatten_json, to_json_text, FlattenOptions, JsonValue};

fn s(text: &str) -> JsonValue {
    JsonValue::String(text.to_string())
}

fn n(text: &str) -> JsonValue {
    JsonValue::Number(text.to_string())
}

fn obj(fields: Vec<(&str, JsonValue)>) -> JsonValue {
    JsonValue::Object(fields.into_iter().map(|(k, v)| (k.to_string(), v)).collect())
}

#[test]
fn test_flatten_simple_object() {
    let json = obj(vec![
        ("name", s("John")),
        ("age", n("30")),
        (
            "address",
            obj(vec![("street", s("123 Main St")), ("city", s("New York"))]),
        ),
    ]);

    let options = FlattenOptions::default();
    let flattened = flatten_json(&json, &options);

    assert_eq!(flattened.get("name"), Some(&"John".to_string()));
    assert_eq!(flattened.get("age"), Some(&"30".to_string()));
    assert_eq!(flattened.get("address.street"), Some(&"123 Main St".to_string()));
    assert_eq!(flattened.get("address.city"), Some(&"New York".to_string()));
}

#[test]
fn test_flatten_array() {
    let json = obj(vec![
        ("name", s("John")),
        (
            "skills",
            JsonValue::Array(vec![s("programming"), s("design"), s("communication")]),
        ),
    ]);

    let options = FlattenOptions::default();
    let flattened = flatten_json(&json, &options);

    assert_eq!(flattened.get("skills.0"), Some(&"programming".to_string()));
    assert_eq!(flattened.get("skills.1"), Some(&"design".to_string()));
    assert_eq!(flattened.get("skills.2"), Some(&"communication".to_string()));
}

#[test]
fn test_flatten_nested_array() {
    let json = obj(vec![
        ("name", s("John")),
        (
            "education",
            JsonValue::Array(vec![
                obj(vec![("degree", s("BS")), ("year", n("2010"))]),
                obj(vec![("degree", s("MS")), ("year", n("2012"))]),
            ]),
        ),
    ]);

    let options = FlattenOptions::default();
    let flattened = flatten_json(&json, &options);

    assert_eq!(flattened.get("education.0.degree"), Some(&"BS".to_string()));
    assert_eq!(flattened.get("education.0.year"), Some(&"2010".to_string()));
    assert_eq!(flattened.get("education.1.degree"), Some(&"MS".to_string()));
    assert_eq!(flattened.get("education.1.year"), Some(&"2012".to_string()));
}

#[test]
fn test_custom_separator() {
    let json = obj(vec![(
        "user",
        obj(vec![("name", s("John")), ("email", s("john@example.com"))]),
    )]);

    let mut options = FlattenOptions::default();
    options.separator = "_".to_string();

    let flattened = flatten_json(&json, &options);

    assert_eq!(flattened.get("user_name"), Some(&"John".to_string()));
    assert_eq!(flattened.get("user_email"), Some(&"john@example.com".to_string()));
}

#[test]
fn test_max_depth() {
    let json = obj(vec![(
        "user",
        obj(vec![
            ("name", s("John")),
            (
                "address",
                obj(vec![
                    ("city", s("New York")),
                    ("geo", obj(vec![("lat", n("40.7128")), ("lng", n("-74.006"))])),
                ]),
            ),
        ]),
    )]);

    let mut options = FlattenOptions::default();
    options.max_depth = 2;

    let flattened = flatten_json(&json, &options);

    // Every subtree whose root sits at depth two is stored as its exact JSON
    // serialization: the name string with its quotes, the address whole.
    assert_eq!(flattened.get("user.name"), Some(&"\"John\"".to_string()));
    assert_eq!(
        flattened.get("user.address"),
        Some(
            &r#"{"city":"New York","geo":{"lat":40.7128,"lng":-74.006}}"#.to_string()
        )
    );
    assert_eq!(flattened.get("user.address.city"), None);
    assert_eq!(flattened.get("user.address.geo"), None);
}

#[test]
fn test_max_depth_cuts_every_subtree_at_the_limit() {
    let json = obj(vec![(
        "user",
        obj(vec![
            ("name", s("John")),
            ("address", obj(vec![("city", s("New York"))])),
        ]),
    )]);
    let mut options = FlattenOptions::default();
    options.max_depth = 2;

    let flattened = flatten_json(&json, &options);

    // At depth two even a scalar is stored serialized, quotes included.
    assert_eq!(flattened.get("user.name"), Some(&"\"John\"".to_string()));
    assert_eq!(
        flattened.get("user.address"),
        Some(&"{\"city\":\"New York\"}".to_string())
    );
    assert_eq!(flattened.keys().len(), 2);
}

#[test]
fn test_unexpanded_array_serialized_whole() {
    let json = obj(vec![("a", JsonValue::Array(vec![n("1"), n("2")])), ("b", s("x"))]);
    let mut options = FlattenOptions::default();
    options.expand_arrays = false;

    let flattened = flatten_json(&json, &options);
    assert_eq!(flattened.get("a"), Some(&"[1,2]".to_string()));
    assert_eq!(flattened.get("b"), Some(&"x".to_string()));
    assert_eq!(flattened.keys().len(), 2);
}

#[test]
fn test_index_collapse_last_element_wins() {
    let json = obj(vec![("a", JsonValue::Array(vec![n("1"), n("2"), n("3")]))]);
    let mut options = FlattenOptions::default();
    options.include_array_indices = false;

    let flattened = flatten_json(&json, &options);
    assert_eq!(flattened.get("a"), Some(&"3".to_string()));
    assert_eq!(flattened.keys().len(), 1);
}

#[test]
fn test_empty_containers_contribute_nothing() {
    let json = obj(vec![
        ("empty_object", obj(vec![])),
        ("empty_array", JsonValue::Array(vec![])),
        ("kept", JsonValue::Bool(true)),
    ]);
    let options = FlattenOptions::default();

    let flattened = flatten_json(&json, &options);
    assert_eq!(flattened.get("kept"), Some(&"true".to_string()));
    assert_eq!(flattened.keys().len(), 1);
    assert_eq!(flattened.get("empty_object"), None);
    assert_eq!(flattened.get("empty_array"), None);
}

#[test]
fn test_entry_count_matches_leaf_count() {
    // 5 scalar leaves under distinct paths, no depth limit.
    let json = obj(vec![
        ("a", n("1")),
        ("b", JsonValue::Array(vec![JsonValue::Null, JsonValue::Bool(false)])),
        ("c", obj(vec![("d", s("x")), ("e", JsonValue::Array(vec![n("7")]))])),
    ]);
    let options = FlattenOptions::default();

    let flattened = flatten_json(&json, &options);
    assert_eq!(flattened.keys().len(), 5);
    assert_eq!(flattened.get("b.0"), Some(&"null".to_string()));
    assert_eq!(flattened.get("b.1"), Some(&"false".to_string()));
    assert_eq!(flattened.get("c.e.0"), Some(&"7".to_string()));
}

#[test]
fn test_no_depth_limit_never_truncates() {
    let mut deep = n("9");
    for _ in 0..40 {
        deep = obj(vec![("x", deep)]);
    }
    let options = FlattenOptions::default();

    let flattened = flatten_json(&deep, &options);
    let keys = flattened.keys();
    assert_eq!(keys.len(), 1);
    let mut expected = "x".to_string();
    for _ in 0..39 {
        expected.push_str(".x");
    }
    assert_eq!(flattened.get(&expected), Some(&"9".to_string()));
}

#[test]
fn test_bare_scalar_root_makes_empty_record() {
    let options = FlattenOptions::default();
    let flattened = flatten_json(&n("42"), &options);
    assert_eq!(flattened.keys().len(), 0);
}

#[test]
fn test_later_key_overwrites_earlier() {
    let json = JsonValue::Object(vec![
        ("a".to_string(), n("1")),
        ("a".to_string(), n("2")),
    ]);
    let options = FlattenOptions::default();
    let flattened = flatten_json(&json, &options);
    assert_eq!(flattened.get("a"), Some(&"2".to_string()));
    assert_eq!(flattened.keys().len(), 1);
}

#[test]
fn test_json_text_escapes_strings() {
    let json = obj(vec![(
        "line\"one",
        s("tab\t back\\ nl\n cr\r bs\u{8} ff\u{c} ctl\u{1}"),
    )]);
    let text = to_json_text(&json);
    assert_eq!(
        text,
        "{\"line\\\"one\":\"tab\\t back\\\\ nl\\n cr\\r bs\\b ff\\f ctl\\u0001\"}"
    );
}

#[test]
fn test_number_text_kept_verbatim() {
    let json = obj(vec![("n", n("1.50")), ("e", n("1e3"))]);
    let options = FlattenOptions::default();
    let flattened = flatten_json(&json, &options);
    assert_eq!(flattened.get("n"), Some(&"1.50".to_string()));
    assert_eq!(flattened.get("e"), Some(&"1e3".to_string()));
}
