use protohub::json::JsonValue;
use protohub::normalize::{normalize_field_json, normalize_request_json};
use protohub::template::{Cardinality, DescriptorModel, FieldKind, FieldModel, MessageModel};

fn model_field(name: &str, json_name: &str, number: u32, kind: FieldKind, cardinality: Cardinality) -> FieldModel {
    FieldModel {
        name: name.to_string(),
        json_name: json_name.to_string(),
        number,
        kind,
        cardinality,
        oneof: None,
        options: JsonValue::Null,
    }
}

fn object(entries: Vec<(&str, JsonValue)>) -> JsonValue {
    JsonValue::Object(entries.into_iter().map(|(k, v)| (k.to_string(), v)).collect())
}

fn str_value(s: &str) -> JsonValue {
    JsonValue::Str(s.to_string())
}

/// `Outer { string user_id = 1; Inner inner_msg = 2; repeated Inner items = 3; }`,
/// `Inner { int32 max_count = 1; }`.
fn model() -> DescriptorModel {
    DescriptorModel {
        messages: vec![
            MessageModel {
                full_name: "demo.Outer".to_string(),
                map_entry: false,
                fields: vec![
                    model_field("user_id", "userId", 1, FieldKind::Str, Cardinality::Optional),
                    model_field("inner_msg", "innerMsg", 2, FieldKind::Message(1), Cardinality::Optional),
                    model_field("items", "items", 3, FieldKind::Message(1), Cardinality::Repeated),
                ],
                options: JsonValue::Null,
            },
            MessageModel {
                full_name: "demo.Inner".to_string(),
                map_entry: false,
                fields: vec![model_field("max_count", "maxCount", 1, FieldKind::Int32, Cardinality::Optional)],
                options: JsonValue::Null,
            },
        ],
        enums: vec![],
    }
}

#[test]
fn fields_move_to_their_json_names() {
    let m = model();
    let value = object(vec![
        ("user_id", str_value("u1")),
        ("innermsg", object(vec![("MAXCOUNT", JsonValue::Number("3".to_string()))])),
        ("items", JsonValue::Array(vec![object(vec![("max_count", JsonValue::Number("1".to_string()))])])),
        ("extra", JsonValue::Bool(true)),
    ]);
    let r = normalize_request_json(&m, 0, value);
    let expected = object(vec![
        ("userId", str_value("u1")),
        ("innerMsg", object(vec![("MAXCOUNT", JsonValue::Number("3".to_string()))])),
        ("items", JsonValue::Array(vec![object(vec![("maxCount", JsonValue::Number("1".to_string()))])])),
        ("extra", JsonValue::Bool(true)),
    ]);
    assert_eq!(r, expected);
}

#[test]
fn lower_case_json_names_are_found() {
    let m = model();
    let value = object(vec![("userid", str_value("x")), ("innerMsg", object(vec![("maxcount", JsonValue::Number("2".to_string()))]))]);
    let r = normalize_request_json(&m, 0, value);
    assert_eq!(
        r,
        object(vec![
            ("userId", str_value("x")),
            ("innerMsg", object(vec![("maxCount", JsonValue::Number("2".to_string()))])),
        ])
    );
}

#[test]
fn json_name_wins_over_proto_name() {
    let m = model();
    let value = object(vec![("user_id", str_value("proto")), ("userId", str_value("json"))]);
    let r = normalize_request_json(&m, 0, value);
    assert_eq!(r, object(vec![("userId", str_value("json")), ("user_id", str_value("proto"))]));
}

#[test]
fn values_that_are_not_objects_are_kept() {
    let m = model();
    assert_eq!(normalize_request_json(&m, 0, JsonValue::Null), JsonValue::Null);
    let list = JsonValue::Array(vec![str_value("a")]);
    assert_eq!(normalize_request_json(&m, 0, JsonValue::Array(vec![str_value("a")])), list);
    let items = &m.messages[0].fields[2];
    assert_eq!(normalize_field_json(&m, items, str_value("x")), str_value("x"));
}

#[test]
fn unknown_keys_are_kept_as_they_are() {
    let m = model();
    let value = object(vec![("a", JsonValue::Number("1".to_string())), ("b", str_value("2"))]);
    let r = normalize_request_json(&m, 0, value);
    assert_eq!(r, object(vec![("a", JsonValue::Number("1".to_string())), ("b", str_value("2"))]));
}
