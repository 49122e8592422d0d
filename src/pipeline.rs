//! The steps of handling one request, between which the caller forwards the
//! request and decodes the upstream's body.
use vstd::prelude::*;
use vstd::string::*;

use crate::auth::{basic_credentials, resolve_auth, upstream_url, upstream_url_text};
use crate::errors::{check_status, json_string, json_string_of, is_success, optional_body_holds, ProxyError};
use crate::pagination::{
    current_page, extract_meta, is_positive_text, link_base, link_header_text, page_link, pairs_view, starts_with, usize_text_value, Links, Meta,
};
use crate::records::{append_json, items_text, JsonValue};
use crate::routes::RouteDescriptor;
use crate::text::{decimal, usize_to_decimal};

verus! {

/// The request to send upstream.
pub struct OutboundRequest {
    pub url: String,
    pub authorization: String,
}

pub open spec fn option_str_view(s: Option<&str>) -> Option<Seq<char>> {
    match s {
        Some(v) => Some(v@),
        None => None,
    }
}

/// Resolves the credentials and the address of the forwarded request. Fails
/// with `AuthMissing`, before anything is sent, where there are no
/// credentials at all.
pub fn prepare_request(
    route: &RouteDescriptor,
    base: &str,
    api_key: Option<&str>,
    authorization: Option<String>,
    query: Option<&str>,
) -> (r: Result<OutboundRequest, ProxyError>)
    ensures
        authorization is None && api_key is None <==> r matches Err(ProxyError::AuthMissing),
        r is Ok || r matches Err(ProxyError::AuthMissing),
        r matches Ok(o) ==> o.url@ == upstream_url_text(base@, route.upstream_path@, option_str_view(query)),
        r matches Ok(o) ==> (authorization matches Some(h) ==> o.authorization@ == h@),
        r matches Ok(o) ==> (authorization is None ==> (api_key matches Some(k)
            ==> o.authorization@ == basic_credentials(k@))),
{
    let authorization = resolve_auth(authorization, api_key)?;
    let url = upstream_url(base, route.upstream_path.as_str(), query);
    Ok(OutboundRequest { url, authorization })
}

/// Checks the upstream's status, then reads its pagination headers.
pub fn accept_response(
    status: u16,
    reason: &str,
    body: Option<String>,
    page_header: Option<&str>,
    pages_header: Option<&str>,
) -> (r: Result<Meta, ProxyError>)
    ensures
        !is_success(status) ==> (r matches Err(ProxyError::Upstream { status: s, reason: m, body: b })
            && s == status && m@ == reason@ && optional_body_holds(b, body)),
        is_success(status) && pages_header is None ==> r matches Err(ProxyError::MissingHeader),
        is_success(status) ==> (pages_header matches Some(t)
            ==> (!is_positive_text(t@) <==> r matches Err(ProxyError::MalformedHeader))),
        r is Ok <==> (is_success(status) && (pages_header matches Some(t) && is_positive_text(t@))),
        r matches Ok(m) ==> m.total_pages as nat == usize_text_value(pages_header.unwrap()@)
            && m.page as nat == current_page(option_str_view(page_header)),
{
    check_status(status, reason, body)?;
    extract_meta(page_header, pages_header)
}

/// The pagination part of a successful response.
pub struct PageResponse {
    pub meta: Meta,
    pub links: Links,
    pub link_header: String,
}

/// Builds the links of a response, from the absolute URL of the requested
/// resource and the request's decoded query pairs, and the `Link` header
/// that lists them.
pub fn paginate(resource_url: &str, pairs: &Vec<(String, String)>, meta: Meta) -> (r: PageResponse)
    ensures
        r.meta == meta,
        starts_with(r.links.curr@, resource_url@),
        ({
            let base = link_base(resource_url@, pairs_view(pairs@));
            &&& r.links.first@ == page_link(base, 1)
            &&& r.links.last@ == page_link(base, meta.total_pages as nat)
            &&& r.links.curr@ == page_link(base, meta.page as nat)
            &&& (r.links.prev is Some <==> meta.page > 1)
            &&& (r.links.prev matches Some(p) ==> p@ == page_link(base, (meta.page - 1) as nat))
            &&& (r.links.next is Some <==> meta.page < meta.total_pages)
            &&& (r.links.next matches Some(n) ==> n@ == page_link(base, (meta.page + 1) as nat))
        }),
        r.link_header@ == link_header_text(r.links),
{
    let links = Links::new(resource_url, pairs, &meta);
    let link_header = links.header_value();
    PageResponse { meta, links, link_header }
}

/// A link as a JSON string, or `null` where there is none.
pub open spec fn optional_link_json(l: Option<String>) -> Seq<char> {
    match l {
        Some(u) => json_string_of(u@),
        None => "null"@,
    }
}

/// `{"data":[...],"meta":{"page":P,"totalPages":T},"links":{"first":..,
/// "last":..,"next":..,"prev":..,"self":..}}`
pub open spec fn success_text(data: Seq<JsonValue>, p: PageResponse) -> Seq<char> {
    "{\"data\":["@ + items_text(data) + "],\"meta\":{\"page\":"@ + decimal(p.meta.page as nat)
        + ",\"totalPages\":"@ + decimal(p.meta.total_pages as nat) + "},\"links\":{\"first\":"@
        + json_string_of(p.links.first@) + ",\"last\":"@ + json_string_of(p.links.last@) + ",\"next\":"@
        + optional_link_json(p.links.next) + ",\"prev\":"@ + optional_link_json(p.links.prev) + ",\"self\":"@
        + json_string_of(p.links.curr@) + "}}"@
}

fn append_link(s: &mut String, l: &Option<String>)
    ensures
        final(s)@ == old(s)@ + optional_link_json(*l),
{
    match l {
        Some(u) => {
            let q = json_string(u.as_str());
            s.append(q.as_str());
        },
        None => s.append("null"),
    }
}

/// The body of a successful response: the decoded items, the position and
/// the links.
pub fn success_body_text(data: &Vec<JsonValue>, page: &PageResponse) -> (r: String)
    ensures
        r@ == success_text(data@, *page),
{
    let mut s = String::from_str("{\"data\":[");
    let ghost start = s@;
    let mut i: usize = 0;
    while i < data.len()
        invariant
            0 <= i <= data.len(),
            s@ == start + items_text(data@.take(i as int)),
        decreases data.len() - i,
    {
        let ghost t = data@.take(i + 1);
        assert(t.drop_last() =~= data@.take(i as int));
        assert(t[t.len() - 1] == data@[i as int]);
        if i > 0 {
            crate::text::push_char(&mut s, ',');
        } else {
            assert(t[0] == data@[0]);
        }
        append_json(&mut s, &data[i]);
        assert(s@ =~= start + items_text(t));
        i = i + 1;
    }
    assert(data@.take(i as int) =~= data@);
    s.append("],\"meta\":{\"page\":");
    let n = usize_to_decimal(page.meta.page);
    s.append(n.as_str());
    s.append(",\"totalPages\":");
    let n = usize_to_decimal(page.meta.total_pages);
    s.append(n.as_str());
    s.append("},\"links\":{\"first\":");
    let q = json_string(page.links.first.as_str());
    s.append(q.as_str());
    s.append(",\"last\":");
    let q = json_string(page.links.last.as_str());
    s.append(q.as_str());
    s.append(",\"next\":");
    append_link(&mut s, &page.links.next);
    s.append(",\"prev\":");
    append_link(&mut s, &page.links.prev);
    s.append(",\"self\":");
    let q = json_string(page.links.curr.as_str());
    s.append(q.as_str());
    s.append("}}");
    assert(s@ =~= success_text(data@, *page));
    s
}

} // verus!
