//! Credentials and the address of the forwarded request.
use vstd::prelude::*;
use vstd::string::*;

use crate::errors::ProxyError;

verus! {

/// The standard, padded base64 encoding of the UTF-8 bytes of a text.
pub uninterp spec fn base64_of(s: Seq<char>) -> Seq<char>;

/// Relies on base64::encode: the standard alphabet with padding, a function
/// of the input bytes alone. It panics only where the encoded length would
/// overflow `usize`, which no string's length allows, as a string holds at
/// most `isize::MAX` bytes.
#[verifier::external_body]
fn base64_encode(s: &str) -> (r: String)
    ensures
        r@ == base64_of(s@),
{
    base64::encode(s)
}

/// `Basic <base64 of "key: ">`: the key as user name, with an empty password.
pub open spec fn basic_credentials(key: Seq<char>) -> Seq<char> {
    "Basic "@ + base64_of(key + ": "@)
}

/// The `Authorization` value for a static key.
pub fn basic_authorization(key: &str) -> (r: String)
    ensures
        r@ == basic_credentials(key@),
{
    let mut user = String::from_str(key);
    user.append(": ");
    let encoded = base64_encode(user.as_str());
    let mut r = String::from_str("Basic ");
    r.append(encoded.as_str());
    r
}

/// Picks the credentials of the forwarded request: the inbound
/// `Authorization` header as it came; else those made from the static key;
/// else the request fails before anything is sent.
pub fn resolve_auth(header: Option<String>, api_key: Option<&str>) -> (r: Result<String, ProxyError>)
    ensures
        header matches Some(h) ==> r matches Ok(a) && a@ == h@,
        header is None ==> (api_key matches Some(k) ==> r matches Ok(a) && a@ == basic_credentials(k@)),
        header is None && api_key is None ==> r matches Err(ProxyError::AuthMissing),
{
    match header {
        Some(h) => Ok(h),
        None => match api_key {
            Some(k) => Ok(basic_authorization(k)),
            None => Err(ProxyError::AuthMissing),
        },
    }
}

/// `base/path`, then `?` and the inbound query string where there is one.
pub open spec fn upstream_url_text(base: Seq<char>, path: Seq<char>, query: Option<Seq<char>>) -> Seq<char> {
    base + seq!['/'] + path + match query {
        Some(q) => seq!['?'] + q,
        None => Seq::empty(),
    }
}

/// The address of the forwarded request: the whole inbound query string
/// passes through untouched.
pub fn upstream_url(base: &str, path: &str, query: Option<&str>) -> (r: String)
    ensures
        r@ == upstream_url_text(base@, path@, match query { Some(q) => Some(q@), None => None }),
{
    let mut s = String::from_str(base);
    crate::text::push_char(&mut s, '/');
    s.append(path);
    match query {
        Some(q) => {
            crate::text::push_char(&mut s, '?');
            s.append(q);
        },
        None => {},
    }
    let ghost qv = match query { Some(q) => Some(q@), None => None };
    assert(s@ =~= upstream_url_text(base@, path@, qv));
    s
}

} // verus!
