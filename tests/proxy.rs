use teamwork_proxy::auth::{basic_authorization, resolve_auth, upstream_url};
use teamwork_proxy::errors::{check_status, classify_body, ProxyError, UpstreamBody};
use teamwork_proxy::pagination::Meta;
use teamwork_proxy::pipeline::{accept_response, paginate, prepare_request, success_body_text};
use teamwork_proxy::records::{JsonMember, JsonValue};
use teamwork_proxy::routes::{generate_route, resource_routes};

#[test]
fn static_key_becomes_basic_credentials() {
    let a = resolve_auth(None, Some("abc")).ok().unwrap();
    assert_eq!(a, "Basic YWJjOiA=");
    assert_eq!(basic_authorization(""), "Basic OiA=");
}

#[test]
fn inbound_authorization_is_forwarded() {
    let a = resolve_auth(Some("Bearer t".to_string()), Some("abc")).ok().unwrap();
    assert_eq!(a, "Bearer t");
}

#[test]
fn no_credentials_fail_before_sending() {
    assert!(matches!(resolve_auth(None, None), Err(ProxyError::AuthMissing)));
    let r = generate_route("Task", "tasks.json", "todo-items");
    assert!(matches!(prepare_request(&r, "https://x", None, None, None), Err(ProxyError::AuthMissing)));
    let e = resolve_auth(None, None).err().unwrap().into_response();
    assert_eq!(e.status, 400);
}

#[test]
fn outbound_url_keeps_query() {
    assert_eq!(upstream_url("https://x.example", "tasks.json", Some("status=active&page=2")),
        "https://x.example/tasks.json?status=active&page=2");
    assert_eq!(upstream_url("https://x.example", "tasks.json", None), "https://x.example/tasks.json");
    let r = generate_route("TimeEntry", "time_entries.json", "time-entries");
    let o = prepare_request(&r, "https://x", Some("k"), None, Some("page=1")).ok().unwrap();
    assert_eq!(o.url, "https://x/time_entries.json?page=1");
    assert_eq!(o.authorization, "Basic azog");
}

#[test]
fn upstream_not_found_is_mirrored() {
    let e = accept_response(404, "Not Found", Some("{\"msg\":\"not found\"}".to_string()), None, None)
        .err()
        .unwrap();
    let r = e.into_response();
    assert_eq!(r.status, 404);
    assert_eq!(r.code, 404);
    assert_eq!(r.message, "Not Found");
    assert_eq!(r.body_text(), "{\"error\":{\"code\":404,\"message\":\"Not Found\",\"teamwork_response\":{\"msg\":\"not found\"}}}");
}

#[test]
fn upstream_text_body_is_quoted() {
    let e = check_status(502, "Bad Gateway", Some("oops \"x\"".to_string())).err().unwrap();
    assert_eq!(e.into_response().body_text(),
        "{\"error\":{\"code\":502,\"message\":\"Bad Gateway\",\"teamwork_response\":\"oops \\\"x\\\"\"}}");
    let e = check_status(500, "Internal Server Error", None).err().unwrap();
    assert_eq!(e.into_response().body_text(),
        "{\"error\":{\"code\":500,\"message\":\"Internal Server Error\",\"teamwork_response\":null}}");
}

#[test]
fn body_classification() {
    assert!(matches!(classify_body("[1, 2]".to_string()), UpstreamBody::Json(t) if t == "[1, 2]"));
    assert!(matches!(classify_body("not json".to_string()), UpstreamBody::Text(t) if t == "not json"));
}

#[test]
fn success_without_total_pages_is_internal() {
    let e = accept_response(200, "OK", None, Some("1"), None).err().unwrap();
    assert!(matches!(e, ProxyError::MissingHeader));
    let r = e.into_response();
    assert_eq!(r.status, 500);
    assert!(r.upstream_body.is_none());
}

#[test]
fn success_with_headers() {
    assert!(check_status(204, "No Content", None).is_ok());
    let m = accept_response(200, "OK", None, Some("2"), Some("7")).ok().unwrap();
    assert_eq!((m.page, m.total_pages), (2, 7));
    assert!(matches!(accept_response(199, "", None, Some("2"), Some("7")), Err(ProxyError::Upstream { status: 199, .. })));
    assert!(matches!(accept_response(300, "Multiple Choices", None, Some("2"), Some("7")), Err(ProxyError::Upstream { status: 300, .. })));
}

#[test]
fn three_resources() {
    let r = resource_routes();
    let t: Vec<(&str, &str, &str, &str)> = r.iter().map(|x| (x.mount.as_str(), x.descriptor.item_record.as_str(),
        x.descriptor.upstream_path.as_str(), x.descriptor.envelope_key.as_str())).collect();
    assert_eq!(t, vec![
        ("tasks", "Task", "tasks.json", "todo-items"),
        ("time-entries", "TimeEntry", "time_entries.json", "time-entries"),
        ("task-lists", "TaskList", "tasklists.json", "tasklists"),
    ]);
}

#[test]
fn internal_failures_share_one_envelope() {
    for e in [ProxyError::Transport, ProxyError::Decode, ProxyError::MissingHeader, ProxyError::MalformedHeader] {
        let r = e.into_response();
        assert_eq!(r.status, 500);
        assert_eq!(r.body_text(), "{\"error\":{\"code\":500,\"message\":\"Internal Server Error\",\"teamwork_response\":null}}");
    }
}

#[test]
fn success_body_lists_data_meta_and_links() {
    let page = paginate("http://h/tasks", &vec![], Meta { page: 1, total_pages: 2 });
    let item = JsonValue::Object(vec![
        JsonMember { key: "id".to_string(), value: JsonValue::Number { text: "3".to_string(), integral: true } },
        JsonMember { key: "name".to_string(), value: JsonValue::Str("a \"b\"".to_string()) },
        JsonMember { key: "tags".to_string(), value: JsonValue::Array(vec![JsonValue::Bool(true), JsonValue::Null]) },
    ]);
    assert_eq!(
        success_body_text(&vec![item, JsonValue::Object(vec![])], &page),
        "{\"data\":[{\"id\":3,\"name\":\"a \\\"b\\\"\",\"tags\":[true,null]},{}],\"meta\":{\"page\":1,\"totalPages\":2},\
         \"links\":{\"first\":\"http://h/tasks?page=1\",\"last\":\"http://h/tasks?page=2\",\
         \"next\":\"http://h/tasks?page=2\",\"prev\":null,\"self\":\"http://h/tasks?page=1\"}}"
    );
    let empty = paginate("http://h/tasks", &vec![], Meta { page: 1, total_pages: 1 });
    assert_eq!(
        success_body_text(&vec![], &empty),
        "{\"data\":[],\"meta\":{\"page\":1,\"totalPages\":1},\"links\":{\"first\":\"http://h/tasks?page=1\",\
         \"last\":\"http://h/tasks?page=1\",\"next\":null,\"prev\":null,\"self\":\"http://h/tasks?page=1\"}}"
    );
}

#[test]
fn text_bodies_escape_control_characters() {
    let e = check_status(500, "Internal Server Error", Some("a\u{1}\n\t\\é".to_string())).err().unwrap();
    assert_eq!(e.into_response().body_text(),
        "{\"error\":{\"code\":500,\"message\":\"Internal Server Error\",\"teamwork_response\":\"a\\u0001\\n\\t\\\\é\"}}");
}
