use teamwork_proxy::errors::ProxyError;
use teamwork_proxy::pagination::{extract_meta, Links, Meta};
use teamwork_proxy::pipeline::paginate;
use teamwork_proxy::text::{parse_usize, usize_to_decimal};

fn pairs(v: &[(&str, &str)]) -> Vec<(String, String)> {
    v.iter().map(|(k, x)| (k.to_string(), x.to_string())).collect()
}

#[test]
fn links_middle_page() {
    let l = Links::new("http://localhost:3000/tasks", &pairs(&[]), &Meta { page: 3, total_pages: 5 });
    assert_eq!(l.first, "http://localhost:3000/tasks?page=1");
    assert_eq!(l.last, "http://localhost:3000/tasks?page=5");
    assert_eq!(l.curr, "http://localhost:3000/tasks?page=3");
    assert_eq!(l.prev.as_deref(), Some("http://localhost:3000/tasks?page=2"));
    assert_eq!(l.next.as_deref(), Some("http://localhost:3000/tasks?page=4"));
}

#[test]
fn links_single_page() {
    let l = Links::new("http://localhost:3000/tasks", &pairs(&[]), &Meta { page: 1, total_pages: 1 });
    assert!(l.prev.is_none());
    assert!(l.next.is_none());
    assert_eq!(l.first, l.last);
    assert_eq!(l.first, l.curr);
}

#[test]
fn links_keep_other_parameters() {
    let p = pairs(&[("status", "active"), ("page", "2")]);
    let l = Links::new("http://localhost:3000/tasks", &p, &Meta { page: 2, total_pages: 3 });
    assert_eq!(l.first, "http://localhost:3000/tasks?status=active&page=1");
    assert_eq!(l.curr, "http://localhost:3000/tasks?status=active&page=2");
    assert_eq!(l.last, "http://localhost:3000/tasks?status=active&page=3");
    assert_eq!(l.prev.as_deref(), Some("http://localhost:3000/tasks?status=active&page=1"));
    assert_eq!(l.next.as_deref(), Some("http://localhost:3000/tasks?status=active&page=3"));
    for link in [&l.first, &l.curr, &l.last, l.prev.as_ref().unwrap(), l.next.as_ref().unwrap()] {
        assert!(link.starts_with("http://localhost:3000/tasks?status=active&page="));
    }
}

#[test]
fn links_keep_parameter_order() {
    let p = pairs(&[("a", "1"), ("page", "9"), ("b", "x y")]);
    let l = Links::new("https://h.example:8080/t", &p, &Meta { page: 9, total_pages: 10 });
    assert_eq!(l.curr, "https://h.example:8080/t?a=1&b=x%20y&page=9");
    assert_eq!(l.next.as_deref(), Some("https://h.example:8080/t?a=1&b=x%20y&page=10"));
}

#[test]
fn link_header_lists_relations_in_order() {
    let r = paginate("http://localhost:3000/tasks", &pairs(&[]), Meta { page: 2, total_pages: 3 });
    assert_eq!(
        r.link_header,
        "<http://localhost:3000/tasks?page=2>;rel=self,<http://localhost:3000/tasks?page=1>;rel=first,<http://localhost:3000/tasks?page=1>;rel=prev,<http://localhost:3000/tasks?page=3>;rel=next,<http://localhost:3000/tasks?page=3>;rel=last"
    );
    let r = paginate("http://localhost:3000/tasks", &pairs(&[]), Meta { page: 1, total_pages: 1 });
    assert_eq!(r.link_header, "<http://localhost:3000/tasks?page=1>;rel=self,<http://localhost:3000/tasks?page=1>;rel=first,<http://localhost:3000/tasks?page=1>;rel=last");
}

#[test]
fn decimal_rendering() {
    assert_eq!(usize_to_decimal(0), "0");
    assert_eq!(usize_to_decimal(7), "7");
    assert_eq!(usize_to_decimal(1203), "1203");
    assert_eq!(usize_to_decimal(usize::MAX), usize::MAX.to_string());
}

#[test]
fn decimal_parsing() {
    assert_eq!(parse_usize("42"), Some(42));
    assert_eq!(parse_usize("+42"), Some(42));
    assert_eq!(parse_usize("007"), Some(7));
    assert_eq!(parse_usize(""), None);
    assert_eq!(parse_usize("+"), None);
    assert_eq!(parse_usize("-1"), None);
    assert_eq!(parse_usize("12a"), None);
    assert_eq!(parse_usize(" 1"), None);
    let max = usize::MAX.to_string();
    assert_eq!(parse_usize(&max), Some(usize::MAX));
    let over = format!("{}0", max);
    assert_eq!(parse_usize(&over), None);
}

#[test]
fn meta_from_headers() {
    let m = extract_meta(Some("3"), Some("5")).ok().unwrap();
    assert_eq!((m.page, m.total_pages), (3, 5));
    let m = extract_meta(None, Some("4")).ok().unwrap();
    assert_eq!((m.page, m.total_pages), (1, 4));
    let m = extract_meta(Some("x"), Some("4")).ok().unwrap();
    assert_eq!((m.page, m.total_pages), (1, 4));
}

#[test]
fn meta_needs_total_pages() {
    assert!(matches!(extract_meta(Some("1"), None), Err(ProxyError::MissingHeader)));
    assert!(matches!(extract_meta(Some("1"), Some("many")), Err(ProxyError::MalformedHeader)));
}

#[test]
fn links_are_absolute() {
    let l = Links::new("http://localhost:3000/tasks", &pairs(&[("page", "2")]), &Meta { page: 2, total_pages: 2 });
    assert_eq!(l.curr, "http://localhost:3000/tasks?page=2");
}

#[test]
fn link_parameters_are_percent_encoded() {
    let p = pairs(&[("q", "a&b"), ("page", "2"), ("k=1", "caf\u{e9} \u{1F600}+~")]);
    let l = Links::new("http://localhost:3000/tasks", &p, &Meta { page: 2, total_pages: 2 });
    assert_eq!(l.first, "http://localhost:3000/tasks?q=a%26b&k%3D1=caf%C3%A9%20%F0%9F%98%80%2B~&page=1");
}

#[test]
fn meta_is_positive() {
    let m = extract_meta(Some("0"), Some("4")).ok().unwrap();
    assert_eq!((m.page, m.total_pages), (1, 4));
    assert!(matches!(extract_meta(Some("1"), Some("0")), Err(ProxyError::MalformedHeader)));
}
