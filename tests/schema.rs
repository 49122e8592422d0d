use teamwork_proxy::schema::{
    generate_schema, normalize_field_name, SchemaError, rename_synonym, RecordSpec, Sample, SampleField, SampleValue, SchemaBuilder,
    TypeRef,
};

fn field(key: &str, value: SampleValue) -> SampleField {
    SampleField { key: key.to_string(), value }
}

fn task_sample() -> Sample {
    Sample {
        name: "task".to_string(),
        fields: vec![
            field("id", SampleValue::Integer),
            field("boardColumn", SampleValue::Object(vec![
                field("id", SampleValue::Integer),
                field("name", SampleValue::Text),
            ])),
            field("created-on", SampleValue::Text),
            field("last-changed-on", SampleValue::Text),
            field("tags", SampleValue::Array(vec![SampleValue::Object(vec![field("name", SampleValue::Text)])])),
            field("predecessors", SampleValue::Array(vec![])),
            field("numbers", SampleValue::Array(vec![SampleValue::Integer])),
            field("estimate", SampleValue::Float),
            field("canComplete", SampleValue::Boolean),
            field("parent", SampleValue::Null),
        ],
    }
}

fn describe(ty: &TypeRef) -> String {
    match ty {
        TypeRef::Text => "text".to_string(),
        TypeRef::Integer => "integer".to_string(),
        TypeRef::Float => "float".to_string(),
        TypeRef::Boolean => "boolean".to_string(),
        TypeRef::Record(n) => format!("record {}", n),
        TypeRef::ListOf(n) => format!("list of {}", n),
        TypeRef::RawJson => "raw".to_string(),
    }
}

fn summary(records: &[RecordSpec]) -> Vec<(String, Vec<(String, String, String)>)> {
    records
        .iter()
        .map(|r| {
            (
                r.name.clone(),
                r.fields.iter().map(|f| (f.original_name.clone(), f.name.clone(), describe(&f.ty))).collect(),
            )
        })
        .collect()
}

fn s(x: &str) -> String {
    x.to_string()
}

#[test]
fn sample_type_table() {
    let records = generate_schema(&vec![task_sample()]).ok().unwrap();
    let got = summary(&records);
    assert_eq!(got.len(), 3);
    assert_eq!(got[0], (s("BoardColumn"), vec![
        (s("id"), s("id"), s("integer")),
        (s("name"), s("name"), s("text")),
    ]));
    assert_eq!(got[1], (s("Tag"), vec![(s("name"), s("name"), s("text"))]));
    assert_eq!(got[2], (s("Task"), vec![
        (s("id"), s("id"), s("integer")),
        (s("boardColumn"), s("board_column"), s("record BoardColumn")),
        (s("created-on"), s("created_at"), s("text")),
        (s("last-changed-on"), s("updated_at"), s("text")),
        (s("tags"), s("tags"), s("list of Tag")),
        (s("predecessors"), s("predecessors"), s("raw")),
        (s("numbers"), s("numbers"), s("raw")),
        (s("estimate"), s("estimate"), s("float")),
        (s("canComplete"), s("can_complete"), s("boolean")),
        (s("parent"), s("parent"), s("raw")),
    ]));
}

#[test]
fn synthesis_is_deterministic() {
    let a = summary(&generate_schema(&vec![task_sample()]).ok().unwrap());
    let b = summary(&generate_schema(&vec![task_sample()]).ok().unwrap());
    assert_eq!(a, b);
}

#[test]
fn nested_record_names_are_reused() {
    let list = Sample {
        name: "task_list".to_string(),
        fields: vec![
            field("boardColumn", SampleValue::Object(vec![field("colour", SampleValue::Text)])),
            field("created_on", SampleValue::Text),
        ],
    };
    let got = summary(&generate_schema(&vec![task_sample(), list]).ok().unwrap());
    assert_eq!(got.len(), 4);
    assert_eq!(got[0].0, "BoardColumn");
    assert_eq!(got[0].1.len(), 2);
    assert_eq!(got[3], (s("TaskList"), vec![
        (s("boardColumn"), s("board_column"), s("record BoardColumn")),
        (s("created_on"), s("created_at"), s("text")),
    ]));
}

#[test]
fn synonyms_apply_after_case_conversion() {
    assert_eq!(normalize_field_name("createdOn"), "created_at");
    assert_eq!(normalize_field_name("created-on"), "created_at");
    assert_eq!(normalize_field_name("lastChangedOn"), "updated_at");
    assert_eq!(normalize_field_name("project-id"), "project_id");
    assert_eq!(rename_synonym(s("created_on")), "created_at");
    assert_eq!(rename_synonym(s("last_changed_on")), "updated_at");
    assert_eq!(rename_synonym(s("created_at")), "created_at");
}

#[test]
fn builder_replaces_a_resource_of_the_same_name() {
    let mut b = SchemaBuilder::new();
    b.add_resource("Task", &vec![field("a", SampleValue::Integer)]);
    b.add_resource("task", &vec![field("b", SampleValue::Text)]);
    let got = summary(&b.records);
    assert_eq!(got, vec![(s("Task"), vec![(s("b"), s("b"), s("text"))])]);
    assert_eq!(b.find(&s("Task")), Some(0));
    assert_eq!(b.find(&s("Other")), None);
}

#[test]
fn records_render_as_rust() {
    let records = generate_schema(&vec![Sample {
        name: "tag".to_string(),
        fields: vec![
            field("name", SampleValue::Text),
            field("projectId", SampleValue::Integer),
            field("items", SampleValue::Array(vec![])),
            field("type", SampleValue::Boolean),
        ],
    }])
    .ok()
    .unwrap();
    let src = teamwork_proxy::codegen::render_records(&records);
    assert_eq!(
        src,
        "#[derive(Debug, Serialize, Deserialize)]\npub struct Tag {\n\
         \x20   #[serde(rename(deserialize = \"name\"), default, deserialize_with = \"serde_with::rust::string_empty_as_none::deserialize\")]\n\
         \x20   pub r#name: Option<String>,\n\
         \x20   #[serde(rename(deserialize = \"projectId\"))]\n\
         \x20   pub r#project_id: Option<i64>,\n\
         \x20   #[serde(rename(deserialize = \"items\"))]\n\
         \x20   pub r#items: Option<serde_json::Value>,\n\
         \x20   #[serde(rename(deserialize = \"type\"))]\n\
         \x20   pub r#type: Option<bool>,\n\
         }\n"
    );
}

#[test]
fn names_that_are_not_identifiers_fail() {
    let bad_key = Sample { name: "task".to_string(), fields: vec![field("1st", SampleValue::Integer)] };
    assert!(matches!(generate_schema(&vec![bad_key]), Err(SchemaError::InvalidName(n)) if n == "1st"));
    let bad_nested = Sample {
        name: "task".to_string(),
        fields: vec![field("9lives", SampleValue::Object(vec![field("a", SampleValue::Integer)]))],
    };
    assert!(matches!(generate_schema(&vec![bad_nested]), Err(SchemaError::InvalidName(_))));
    let self_key = Sample { name: "task".to_string(), fields: vec![field("self", SampleValue::Integer)] };
    assert!(matches!(generate_schema(&vec![self_key]), Err(SchemaError::InvalidName(n)) if n == "self"));
    let keyword_key = Sample { name: "task".to_string(), fields: vec![field("match", SampleValue::Integer)] };
    assert!(generate_schema(&vec![keyword_key]).is_ok());
}
