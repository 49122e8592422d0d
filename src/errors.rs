//! The failures of the proxy pipeline, and the one shape in which callers
//! see them.
use vstd::prelude::*;
use vstd::string::*;

use crate::text::{decimal, usize_to_decimal};

verus! {

/// What an upstream sent back with a failure status: a JSON document, or
/// text that does not parse as one.
pub enum UpstreamBody {
    Json(String),
    Text(String),
}

/// Every way in which handling one request can fail.
pub enum ProxyError {
    /// No `Authorization` header came in and no static key is configured.
    AuthMissing,
    /// The upstream answered with a status outside 2xx.
    Upstream { status: u16, reason: String, body: Option<UpstreamBody> },
    /// The upstream's answer lacks the total-pages header.
    MissingHeader,
    /// The total-pages header is not an unsigned number.
    MalformedHeader,
    /// The forwarded request did not complete.
    Transport,
    /// The upstream's body does not have the expected shape.
    Decode,
}


/// Whether a text is one well-formed JSON document.
pub uninterp spec fn parses_as_json(s: Seq<char>) -> bool;

/// The lower-case hexadecimal digit of `d < 16`.
pub open spec fn lower_hex_digit(d: nat) -> char {
    if d < 10 {
        ((48 + d) as u8) as char
    } else {
        ((87 + d) as u8) as char
    }
}

/// One character inside a JSON string: `"` and `\` and the control
/// characters are escaped, the short forms where JSON has them, else as
/// `\u00xx`; every other character stands for itself.
pub open spec fn json_escape_char(c: char) -> Seq<char> {
    let u = c as u32;
    if c == '"' {
        seq!['\\', '"']
    } else if c == '\\' {
        seq!['\\', '\\']
    } else if u == 8 {
        seq!['\\', 'b']
    } else if u == 9 {
        seq!['\\', 't']
    } else if u == 10 {
        seq!['\\', 'n']
    } else if u == 12 {
        seq!['\\', 'f']
    } else if u == 13 {
        seq!['\\', 'r']
    } else if u < 32 {
        seq!['\\', 'u', '0', '0', lower_hex_digit(u as nat / 16), lower_hex_digit(u as nat % 16)]
    } else {
        seq![c]
    }
}

pub open spec fn json_escaped(s: Seq<char>) -> Seq<char>
    decreases s.len(),
{
    if s.len() == 0 {
        Seq::empty()
    } else {
        json_escaped(s.drop_last()) + json_escape_char(s.last())
    }
}

/// The JSON string literal, quoted and escaped, that holds a text.
pub open spec fn json_string_of(s: Seq<char>) -> Seq<char> {
    seq!['"'] + json_escaped(s) + seq!['"']
}

/// Relies on serde_json::from_str into serde_json::Value: it succeeds exactly
/// on one well-formed JSON document, whatever its contents.
#[verifier::external_body]
fn is_json(s: &str) -> (r: bool)
    ensures
        r == parses_as_json(s@),
{
    serde_json::from_str::<serde_json::Value>(s).is_ok()
}

/// Relies on the Display of serde_json::Value on a string value: the text
/// in quotes, with `"`, `\` and the control characters escaped as its
/// string formatter does, every other character as it is.
#[verifier::external_body]
pub(crate) fn json_string(s: &str) -> (r: String)
    ensures
        r@ == json_string_of(s@),
{
    serde_json::Value::String(s.to_owned()).to_string()
}

/// `b` is what `raw` is kept as: JSON where it parses, else text.
pub open spec fn body_holds(b: UpstreamBody, raw: Seq<char>) -> bool {
    match b {
        UpstreamBody::Json(t) => parses_as_json(raw) && t@ == raw,
        UpstreamBody::Text(t) => !parses_as_json(raw) && t@ == raw,
    }
}

pub open spec fn optional_body_holds(b: Option<UpstreamBody>, raw: Option<String>) -> bool {
    match (b, raw) {
        (Some(k), Some(t)) => body_holds(k, t@),
        (None, None) => true,
        _ => false,
    }
}

/// Keeps an upstream's failure body as JSON where it parses as JSON, and as
/// text otherwise.
pub fn classify_body(raw: String) -> (r: UpstreamBody)
    ensures
        body_holds(r, raw@),
{
    if is_json(raw.as_str()) {
        UpstreamBody::Json(raw)
    } else {
        UpstreamBody::Text(raw)
    }
}

pub open spec fn is_success(status: u16) -> bool {
    200 <= status < 300
}

/// Lets a 2xx answer through; any other status fails with the upstream's
/// status, its canonical reason and, where one could be read, its body.
pub fn check_status(status: u16, reason: &str, body: Option<String>) -> (r: Result<(), ProxyError>)
    ensures
        r is Ok <==> is_success(status),
        !is_success(status) ==> (r matches Err(ProxyError::Upstream { status: s, reason: m, body: b })
            && s == status && m@ == reason@ && optional_body_holds(b, body)),
{
    if 200 <= status && status < 300 {
        Ok(())
    } else {
        let b = match body {
            Some(t) => Some(classify_body(t)),
            None => None,
        };
        Err(ProxyError::Upstream { status, reason: String::from_str(reason), body: b })
    }
}

/// What a caller receives for a failure: a status and an error envelope.
pub struct ErrorResponse {
    pub status: u16,
    pub code: u16,
    pub message: String,
    pub upstream_body: Option<UpstreamBody>,
}

/// The status of every failure that did not come from the upstream but for
/// missing credentials.
pub const INTERNAL_ERROR_STATUS: u16 = 500;

/// The status of a request that came without credentials while no static key
/// is configured.
pub const AUTH_MISSING_STATUS: u16 = 400;

impl ProxyError {
    /// The one filter through which every failure reaches a caller. An
    /// upstream failure keeps its status, its reason and its body; every other
    /// failure gets a fixed status and a generic message, with no body.
    pub fn into_response(self) -> (r: ErrorResponse)
        ensures
            self matches ProxyError::Upstream { status, reason, body } ==> (r.status == status
                && r.code == status && r.message@ == reason@ && r.upstream_body == body),
            self is AuthMissing ==> r.status == AUTH_MISSING_STATUS && r.code == AUTH_MISSING_STATUS
                && r.message@ == "Request missing authorization header and API_KEY is unset"@
                && r.upstream_body is None,
            !(self is Upstream) && !(self is AuthMissing) ==> r.status == INTERNAL_ERROR_STATUS
                && r.code == INTERNAL_ERROR_STATUS && r.message@ == "Internal Server Error"@
                && r.upstream_body is None,
    {
        match self {
            ProxyError::Upstream { status, reason, body } => ErrorResponse {
                status,
                code: status,
                message: reason,
                upstream_body: body,
            },
            ProxyError::AuthMissing => ErrorResponse {
                status: AUTH_MISSING_STATUS,
                code: AUTH_MISSING_STATUS,
                message: String::from_str("Request missing authorization header and API_KEY is unset"),
                upstream_body: None,
            },
            _ => ErrorResponse {
                status: INTERNAL_ERROR_STATUS,
                code: INTERNAL_ERROR_STATUS,
                message: String::from_str("Internal Server Error"),
                upstream_body: None,
            },
        }
    }
}

/// The upstream body as it stands in an envelope: JSON as it came, text as a
/// JSON string, nothing as `null`.
pub open spec fn upstream_body_json(b: Option<UpstreamBody>) -> Seq<char> {
    match b {
        Some(UpstreamBody::Json(t)) => t@,
        Some(UpstreamBody::Text(t)) => json_string_of(t@),
        None => "null"@,
    }
}

/// `{"error":{"code":N,"message":"...","teamwork_response":...}}`
pub open spec fn envelope_text(code: u16, message: Seq<char>, b: Option<UpstreamBody>) -> Seq<char> {
    "{\"error\":{\"code\":"@ + decimal(code as nat) + ",\"message\":"@ + json_string_of(message)
        + ",\"teamwork_response\":"@ + upstream_body_json(b) + "}}"@
}

impl ErrorResponse {
    /// The JSON text of the error envelope.
    pub fn body_text(&self) -> (r: String)
        ensures
            r@ == envelope_text(self.code, self.message@, self.upstream_body),
    {
        let mut s = String::from_str("{\"error\":{\"code\":");
        let code = usize_to_decimal(self.code as usize);
        s.append(code.as_str());
        s.append(",\"message\":");
        let m = json_string(self.message.as_str());
        s.append(m.as_str());
        s.append(",\"teamwork_response\":");
        match &self.upstream_body {
            Some(UpstreamBody::Json(t)) => s.append(t.as_str()),
            Some(UpstreamBody::Text(t)) => {
                let q = json_string(t.as_str());
                s.append(q.as_str());
            },
            None => s.append("null"),
        }
        s.append("}}");
        s
    }
}

} // verus!
