use teamwork_proxy::errors::ProxyError;
use teamwork_proxy::records::{decode_items, decode_value, find_member, JsonMember, JsonValue};
use teamwork_proxy::schema::{generate_schema, RecordSpec, Sample, SampleField, SampleValue, TypeRef};

fn field(key: &str, value: SampleValue) -> SampleField {
    SampleField { key: key.to_string(), value }
}

fn records() -> Vec<RecordSpec> {
    generate_schema(&vec![Sample {
        name: "task".to_string(),
        fields: vec![
            field("id", SampleValue::Integer),
            field("boardColumn", SampleValue::Object(vec![
                field("id", SampleValue::Integer),
                field("name", SampleValue::Text),
            ])),
            field("created-on", SampleValue::Text),
            field("last-changed-on", SampleValue::Text),
            field("tags", SampleValue::Array(vec![SampleValue::Object(vec![field("name", SampleValue::Text)])])),
            field("estimate", SampleValue::Float),
            field("canComplete", SampleValue::Boolean),
            field("parent", SampleValue::Null),
        ],
    }])
    .ok()
    .unwrap()
}

fn num(t: &str, integral: bool) -> JsonValue {
    JsonValue::Number { text: t.to_string(), integral }
}

fn text(t: &str) -> JsonValue {
    JsonValue::Str(t.to_string())
}

fn obj(ms: Vec<(&str, JsonValue)>) -> JsonValue {
    JsonValue::Object(ms.into_iter().map(|(k, v)| JsonMember { key: k.to_string(), value: v }).collect())
}

fn show(v: &JsonValue) -> String {
    match v {
        JsonValue::Null => "null".to_string(),
        JsonValue::Bool(b) => b.to_string(),
        JsonValue::Number { text, .. } => text.clone(),
        JsonValue::Str(s) => format!("{:?}", s),
        JsonValue::Array(xs) => format!("[{}]", xs.iter().map(show).collect::<Vec<_>>().join(",")),
        JsonValue::Object(ms) => format!(
            "{{{}}}",
            ms.iter().map(|m| format!("{:?}:{}", m.key, show(&m.value))).collect::<Vec<_>>().join(",")
        ),
    }
}

fn body(items: Vec<JsonValue>) -> JsonValue {
    obj(vec![("STATUS", text("OK")), ("todo-items", JsonValue::Array(items))])
}

#[test]
fn items_are_renamed_and_completed() {
    let item = obj(vec![
        ("id", num("7", true)),
        ("created-on", text("2018-12-12T10:06:31Z")),
        ("boardColumn", obj(vec![("name", text("testing")), ("color", text("E74C3C")), ("id", num("1", true))])),
        ("tags", JsonValue::Array(vec![obj(vec![("name", text(""))])])),
        ("estimate", num("2", true)),
        ("canComplete", JsonValue::Bool(true)),
        ("parent", obj(vec![("x", JsonValue::Array(vec![num("1.5", false)]))])),
        ("unknown", text("dropped")),
    ]);
    let out = decode_items(&records(), "Task", &body(vec![item]), "todo-items").ok().unwrap();
    assert_eq!(out.len(), 1);
    assert_eq!(
        show(&out[0]),
        "{\"id\":7,\"board_column\":{\"id\":1,\"name\":\"testing\"},\"created_at\":\"2018-12-12T10:06:31Z\",\
         \"updated_at\":null,\"tags\":[{\"name\":null}],\"estimate\":2,\"can_complete\":true,\"parent\":{\"x\":[1.5]}}"
    );
}

#[test]
fn empty_list_decodes() {
    let out = decode_items(&records(), "Task", &body(vec![]), "todo-items").ok().unwrap();
    assert!(out.is_empty());
}

#[test]
fn wrong_shapes_fail_to_decode() {
    let r = records();
    let bad_id = obj(vec![("id", text("seven"))]);
    assert!(matches!(decode_items(&r, "Task", &body(vec![bad_id]), "todo-items"), Err(ProxyError::Decode)));
    let fractional_id = obj(vec![("id", num("1.5", false))]);
    assert!(matches!(decode_items(&r, "Task", &body(vec![fractional_id]), "todo-items"), Err(ProxyError::Decode)));
    assert!(matches!(decode_items(&r, "Task", &body(vec![]), "tasklists"), Err(ProxyError::Decode)));
    assert!(matches!(decode_items(&r, "Task", &JsonValue::Array(vec![]), "todo-items"), Err(ProxyError::Decode)));
    let not_list = obj(vec![("todo-items", obj(vec![]))]);
    assert!(matches!(decode_items(&r, "Task", &not_list, "todo-items"), Err(ProxyError::Decode)));
    assert!(matches!(decode_items(&r, "Missing", &body(vec![obj(vec![])]), "todo-items"), Err(ProxyError::Decode)));
    let tags_not_objects = obj(vec![("tags", JsonValue::Array(vec![num("1", true)]))]);
    assert!(matches!(decode_items(&r, "Task", &body(vec![tags_not_objects]), "todo-items"), Err(ProxyError::Decode)));
}

#[test]
fn scalar_decoding() {
    let r = records();
    assert!(matches!(decode_value(&r, &TypeRef::Text, &text("")), Ok(JsonValue::Null)));
    assert!(matches!(decode_value(&r, &TypeRef::Float, &num("3", true)), Ok(JsonValue::Number { .. })));
    assert!(matches!(decode_value(&r, &TypeRef::Boolean, &JsonValue::Null), Ok(JsonValue::Null)));
    assert!(matches!(decode_value(&r, &TypeRef::Boolean, &num("1", true)), Err(ProxyError::Decode)));
    assert_eq!(show(&decode_value(&r, &TypeRef::RawJson, &text("")).ok().unwrap()), "\"\"");
}

#[test]
fn first_member_wins() {
    let ms = vec![
        JsonMember { key: "a".to_string(), value: JsonValue::Null },
        JsonMember { key: "b".to_string(), value: JsonValue::Null },
        JsonMember { key: "a".to_string(), value: JsonValue::Null },
    ];
    assert_eq!(find_member(&ms, &"a".to_string()), Some(0));
    assert_eq!(find_member(&ms, &"b".to_string()), Some(1));
    assert_eq!(find_member(&ms, &"c".to_string()), None);
}
