use protohub::grpc::resolve_method;
use protohub::json::JsonValue;
use protohub::proto::{ProtoMethodInfo, ProtoServiceInfo};
use protohub::template::{
    cardinality_label, decimal_text, field_info, field_template_json, field_type_label,
    find_message, message_fields, message_template_json, method_template, single_field_template_json,
    Cardinality, DescriptorModel, EnumModel, FieldKind, FieldModel, MessageModel,
};

fn field(name: &str, json_name: &str, number: u32, kind: FieldKind, cardinality: Cardinality) -> FieldModel {
    FieldModel {
        name: name.to_string(),
        json_name: json_name.to_string(),
        number,
        kind,
        cardinality,
        oneof: None,
        options: JsonValue::Null,
    }
}

fn message(full_name: &str, fields: Vec<FieldModel>) -> MessageModel {
    MessageModel { full_name: full_name.to_string(), map_entry: false, fields, options: JsonValue::Null }
}

fn get<'a>(value: &'a JsonValue, key: &str) -> &'a JsonValue {
    match value {
        JsonValue::Object(entries) => {
            &entries.iter().find(|(k, _)| k == key).expect("key").1
        }
        _ => panic!("not an object"),
    }
}

fn text(s: &str) -> JsonValue {
    JsonValue::Str(s.to_string())
}

/// The messages of the voice service:
/// `SubmitVoiceMessageReq { string user_id = 1; repeated int64 track_ids = 2; VoicePayload payload = 3; }`,
/// `VoicePayload { bytes data = 1; bool urgent = 2; }`, `SubmitVoiceMessageRsp { string message = 1; }`.
fn voice_model() -> DescriptorModel {
    DescriptorModel {
        messages: vec![
            message(
                "vemus.asset.activity.SubmitVoiceMessageReq",
                vec![
                    field("user_id", "userId", 1, FieldKind::Str, Cardinality::Optional),
                    field("track_ids", "trackIds", 2, FieldKind::Int64, Cardinality::Repeated),
                    field("payload", "payload", 3, FieldKind::Message(1), Cardinality::Optional),
                ],
            ),
            message(
                "vemus.asset.activity.VoicePayload",
                vec![
                    field("data", "data", 1, FieldKind::Bytes, Cardinality::Optional),
                    field("urgent", "urgent", 2, FieldKind::Bool, Cardinality::Optional),
                ],
            ),
            message(
                "vemus.asset.activity.SubmitVoiceMessageRsp",
                vec![field("message", "message", 1, FieldKind::Str, Cardinality::Optional)],
            ),
        ],
        enums: vec![],
    }
}

fn voice_services() -> Vec<ProtoServiceInfo> {
    vec![ProtoServiceInfo {
        name: "VoiceMessageService".to_string(),
        full_name: "vemus.asset.activity.VoiceMessageService".to_string(),
        line: 1,
        methods: vec![ProtoMethodInfo {
            name: "SubmitVoiceMessage".to_string(),
            request_type: "vemus.asset.activity.SubmitVoiceMessageReq".to_string(),
            response_type: "vemus.asset.activity.SubmitVoiceMessageRsp".to_string(),
            client_streaming: false,
            server_streaming: false,
            line: 1,
        }],
    }]
}

#[test]
fn builds_request_template_from_method_descriptor() {
    let model = voice_model();
    let services = voice_services();
    let (s, m) = resolve_method(&services, "vemus.asset.activity.VoiceMessageService", "SubmitVoiceMessage")
        .expect("method");
    let method = &services[s].methods[m];
    let request = find_message(&model, &method.request_type).expect("request");
    let response = find_message(&model, &method.response_type).expect("response");
    let source = "service VoiceMessageService {\n  rpc SubmitVoiceMessage (SubmitVoiceMessageReq) returns (SubmitVoiceMessageRsp);\n}\n";
    let template = method_template(
        &model,
        &services[s].full_name,
        method,
        request,
        response,
        source,
        String::new(),
        JsonValue::Null,
        JsonValue::Null,
    );

    assert_eq!(template.grpc_path, "/vemus.asset.activity.VoiceMessageService/SubmitVoiceMessage");
    assert_eq!(template.request_type, "vemus.asset.activity.SubmitVoiceMessageReq");
    assert_eq!(get(&template.request_json, "user_id"), &text(""));
    assert_eq!(get(&template.request_json, "track_ids"), &JsonValue::Array(vec![text("0")]));
    assert_eq!(get(get(&template.request_json, "payload"), "urgent"), &JsonValue::Bool(false));
    assert_eq!(template.request_fields.len(), 3);
    assert_eq!(template.request_fields[0].number, 1);
    assert_eq!(template.response_fields.len(), 1);
    assert_eq!(
        template.rpc_source,
        "  rpc SubmitVoiceMessage (SubmitVoiceMessageReq) returns (SubmitVoiceMessageRsp);"
    );
    assert!(!template.client_streaming && !template.server_streaming);
}

#[test]
fn template_values_follow_field_types() {
    let model = DescriptorModel {
        messages: vec![message(
            "demo.All",
            vec![
                field("d", "d", 1, FieldKind::Double, Cardinality::Optional),
                field("i", "i", 2, FieldKind::Sint32, Cardinality::Optional),
                field("u", "u", 3, FieldKind::Fixed64, Cardinality::Optional),
                field("e", "e", 4, FieldKind::Enum(0), Cardinality::Optional),
                field("none", "none", 5, FieldKind::Enum(1), Cardinality::Optional),
            ],
        )],
        enums: vec![
            EnumModel {
                full_name: "demo.State".to_string(),
                values: vec![("IDLE".to_string(), 0), ("BUSY".to_string(), -7)],
            },
            EnumModel { full_name: "demo.Empty".to_string(), values: vec![] },
        ],
    };
    let t = message_template_json(&model, 0, 0);
    assert_eq!(get(&t, "d"), &JsonValue::Number("0.0".to_string()));
    assert_eq!(get(&t, "i"), &JsonValue::Number("0".to_string()));
    assert_eq!(get(&t, "u"), &text("0"));
    assert_eq!(get(&t, "e"), &text("IDLE"));
    assert_eq!(get(&t, "none"), &JsonValue::Null);

    let info = field_info(&model, &model.messages[0].fields[3], 1);
    assert_eq!(info.enum_values, vec!["IDLE = 0".to_string(), "BUSY = -7".to_string()]);
    assert_eq!(info.field_type, "enum demo.State");
    assert_eq!(info.cardinality, "optional");
    assert!(!info.repeated && !info.map && !info.required);
}

/// A message that holds itself: its template nests four times, then gives
/// an empty object; its summaries nest through depth 5, which has no children.
#[test]
fn nested_templates_stop_below_depth_four() {
    let model = DescriptorModel {
        messages: vec![message("demo.Node", vec![field("next", "next", 1, FieldKind::Message(0), Cardinality::Optional)])],
        enums: vec![],
    };
    let owned = message_template_json(&model, 0, 0);
    let mut value = &owned;
    let mut levels = 0;
    loop {
        let next = get(value, "next");
        match next {
            JsonValue::Object(entries) if entries.is_empty() => break,
            _ => {
                levels += 1;
                value = next;
            }
        }
    }
    assert_eq!(levels, 4);

    let fields = message_fields(&model, 0, 0);
    let mut depth = 0;
    let mut current = &fields;
    while !current.is_empty() {
        depth += 1;
        current = &current[0].children;
    }
    assert_eq!(depth, 5);
}

#[test]
fn map_and_list_fields_have_their_own_templates_and_labels() {
    let mut entry = message(
        "demo.Holder.TagsEntry",
        vec![
            field("key", "key", 1, FieldKind::Str, Cardinality::Optional),
            field("value", "value", 2, FieldKind::Int32, Cardinality::Optional),
        ],
    );
    entry.map_entry = true;
    let model = DescriptorModel {
        messages: vec![
            message(
                "demo.Holder",
                vec![
                    field("tags", "tags", 1, FieldKind::Message(1), Cardinality::Repeated),
                    field("names", "names", 2, FieldKind::Str, Cardinality::Repeated),
                    field("id", "id", 3, FieldKind::Uint64, Cardinality::Required),
                ],
            ),
            entry,
        ],
        enums: vec![],
    };
    let tags = &model.messages[0].fields[0];
    let names = &model.messages[0].fields[1];
    let id = &model.messages[0].fields[2];
    assert_eq!(field_template_json(&model, tags, 1), JsonValue::Object(vec![]));
    assert_eq!(field_template_json(&model, names, 1), JsonValue::Array(vec![text("")]));
    assert_eq!(single_field_template_json(&model, names, 1), text(""));
    assert_eq!(field_type_label(&model, tags), "map<demo.Holder.TagsEntry>");
    assert_eq!(field_type_label(&model, names), "repeated string");
    assert_eq!(field_type_label(&model, id), "uint64");

    let info = field_info(&model, tags, 1);
    assert!(info.map && !info.repeated);
    assert_eq!(info.cardinality, "repeated");
    assert_eq!(info.children.len(), 1);
    assert_eq!(info.children[0].name, "value");
    assert_eq!(info.children[0].field_type, "int32");
    let id_info = field_info(&model, id, 1);
    assert!(id_info.required);
    assert_eq!(id_info.cardinality, "required");
    assert_eq!(cardinality_label(Cardinality::Optional), "optional");
}

#[test]
fn decimal_text_writes_signed_numbers() {
    let s = |n: i32| decimal_text(n).into_iter().collect::<String>();
    assert_eq!(s(0), "0");
    assert_eq!(s(42), "42");
    assert_eq!(s(-10), "-10");
    assert_eq!(s(i32::MIN), "-2147483648");
    assert_eq!(s(i32::MAX), "2147483647");
}

#[test]
fn template_has_each_field_once_in_order() {
    let model = voice_model();
    let t = message_template_json(&model, 0, 0);
    match t {
        JsonValue::Object(entries) => {
            let keys: Vec<&str> = entries.iter().map(|(k, _)| k.as_str()).collect();
            assert_eq!(keys, vec!["user_id", "track_ids", "payload"]);
        }
        _ => panic!("not an object"),
    }
    assert_eq!(find_message(&model, "demo.Missing"), None);
}
