use vstd::prelude::*;

use crate::config::ServerConfig;
use crate::detectors::prompt::strings_view;
use crate::errors::ProxyError;
use crate::json::{json_get, Json, JsonValue};
use crate::pipeline::context::ResponseContext;
use crate::proxy::validate::{chat_body_error, responses_body_error, validate_chat_body, validate_responses_body};
use crate::text::{
    ascii_lower_seq, eq_ignore_ascii_case, seq_starts_with, str_eq, str_starts_with,
    string_from_chars, chars_of, to_owned_string, trim_seq, trim_string,
};

verus! {

/// Headers as name and value pairs, by their views.
pub open spec fn headers_view(h: Seq<(String, String)>) -> Seq<(Seq<char>, Seq<char>)> {
    Seq::new(h.len(), |i: int| (h[i].0@, h[i].1@))
}

/// Header names match when they are equal but for ASCII case.
pub open spec fn same_name(a: Seq<char>, b: Seq<char>) -> bool {
    ascii_lower_seq(a) == ascii_lower_seq(b)
}

/// The value of the first header named `name`, from position `i` on.
pub open spec fn header_from(h: Seq<(Seq<char>, Seq<char>)>, name: Seq<char>, i: int) -> Option<Seq<char>>
    decreases h.len() - i,
{
    if i < 0 || i >= h.len() {
        None
    } else if same_name(h[i].0, name) {
        Some(h[i].1)
    } else {
        header_from(h, name, i + 1)
    }
}

/// The value of the first header named `name`, as a header map's `get` finds it.
pub open spec fn header_get(h: Seq<(Seq<char>, Seq<char>)>, name: Seq<char>) -> Option<Seq<char>> {
    header_from(h, name, 0)
}

/// The value of the first header named `name`.
pub fn header_value<'a>(headers: &'a Vec<(String, String)>, name: &str) -> (r: Option<&'a String>)
    ensures
        match r {
            Some(v) => header_get(headers_view(headers@), name@) == Some(v@),
            None => header_get(headers_view(headers@), name@) is None,
        },
{
    let ghost hv = headers_view(headers@);
    let mut i: usize = headers.len();
    let mut found: Option<usize> = None;
    // scan from the back so that the first match wins
    while i > 0
        invariant
            i <= headers.len(),
            hv == headers_view(headers@),
            match found {
                Some(k) => k < headers.len() && header_from(hv, name@, i as int) == Some(hv[k as int].1),
                None => header_from(hv, name@, i as int) is None,
            },
        decreases i,
    {
        i -= 1;
        if eq_ignore_ascii_case(headers[i].0.as_str(), name) {
            found = Some(i);
        }
    }
    match found {
        Some(k) => Some(&headers[k].1),
        None => None,
    }
}

/// Names of connection-level headers that a proxy does not pass on.
pub open spec fn hop_by_hop_names() -> Seq<Seq<char>> {
    seq![
        "connection"@,
        "keep-alive"@,
        "proxy-authenticate"@,
        "proxy-authorization"@,
        "te"@,
        "trailer"@,
        "transfer-encoding"@,
        "upgrade"@,
    ]
}

/// Names of headers that describe the upstream body as it was sent.
pub open spec fn body_metadata_names() -> Seq<Seq<char>> {
    seq!["content-length"@, "content-encoding"@, "content-md5"@, "etag"@]
}

/// The name, lower-cased, is one of `names`.
pub open spec fn name_in(name: Seq<char>, names: Seq<Seq<char>>) -> bool {
    names.contains(ascii_lower_seq(name))
}

fn name_among(name: &str, names: &Vec<String>) -> (r: bool)
    ensures
        r == exists|i: int| 0 <= i < names@.len() && same_name(name@, #[trigger] names@[i]@),
{
    let mut i: usize = 0;
    while i < names.len()
        invariant
            i <= names.len(),
            forall|k: int| 0 <= k < i ==> !same_name(name@, #[trigger] names@[k]@),
        decreases names.len() - i,
    {
        if eq_ignore_ascii_case(name, names[i].as_str()) {
            return true;
        }
        i += 1;
    }
    false
}

/// Lower-case ASCII names are their own lower-case form.
pub(crate) proof fn lemma_lower_names(names: Seq<Seq<char>>)
    requires
        forall|i: int, j: int|
            0 <= i < names.len() && 0 <= j < names[i].len() ==> !('A' <= #[trigger] names[i][j]
                <= 'Z'),
    ensures
        forall|i: int| 0 <= i < names.len() ==> ascii_lower_seq(#[trigger] names[i]) == names[i],
{
    assert forall|i: int| 0 <= i < names.len() implies ascii_lower_seq(#[trigger] names[i])
        == names[i] by {
        assert(ascii_lower_seq(names[i]) =~= names[i]);
    }
}

pub(crate) fn name_in_list(name: &str, names: Vec<String>, Ghost(spec_names): Ghost<Seq<Seq<char>>>) -> (r: bool)
    requires
        strings_view(names@) == spec_names,
        forall|i: int| 0 <= i < spec_names.len() ==> ascii_lower_seq(#[trigger] spec_names[i]) == spec_names[i],
    ensures
        r == name_in(name@, spec_names),
{
    let r = name_among(name, &names);
    proof {
        if r {
            let i = choose|i: int| 0 <= i < names@.len() && same_name(name@, #[trigger] names@[i]@);
            assert(spec_names[i] == names@[i]@);
            assert(spec_names[i] == ascii_lower_seq(name@));
        } else {
            if spec_names.contains(ascii_lower_seq(name@)) {
                let i = choose|i: int| 0 <= i < spec_names.len() && spec_names[i] == ascii_lower_seq(name@);
                assert(spec_names[i] == names@[i]@);
                assert(same_name(name@, names@[i]@));
            }
        }
    }
    r
}

/// Whether a header is connection-level (hop-by-hop).
pub fn is_hop_by_hop(name: &str) -> (r: bool)
    ensures
        r == name_in(name@, hop_by_hop_names()),
{
    let mut v: Vec<String> = Vec::new();
    v.push(to_owned_string("connection"));
    v.push(to_owned_string("keep-alive"));
    v.push(to_owned_string("proxy-authenticate"));
    v.push(to_owned_string("proxy-authorization"));
    v.push(to_owned_string("te"));
    v.push(to_owned_string("trailer"));
    v.push(to_owned_string("transfer-encoding"));
    v.push(to_owned_string("upgrade"));
    proof {
        reveal_strlit("connection");
        reveal_strlit("keep-alive");
        reveal_strlit("proxy-authenticate");
        reveal_strlit("proxy-authorization");
        reveal_strlit("te");
        reveal_strlit("trailer");
        reveal_strlit("transfer-encoding");
        reveal_strlit("upgrade");
        assert(strings_view(v@) =~= hop_by_hop_names());
        lemma_lower_names(hop_by_hop_names());
    }
    name_in_list(name, v, Ghost(hop_by_hop_names()))
}

/// Whether a header describes the upstream body (length, encoding,
/// checksum or entity tag).
pub fn is_body_metadata(name: &str) -> (r: bool)
    ensures
        r == name_in(name@, body_metadata_names()),
{
    let mut v: Vec<String> = Vec::new();
    v.push(to_owned_string("content-length"));
    v.push(to_owned_string("content-encoding"));
    v.push(to_owned_string("content-md5"));
    v.push(to_owned_string("etag"));
    proof {
        reveal_strlit("content-length");
        reveal_strlit("content-encoding");
        reveal_strlit("content-md5");
        reveal_strlit("etag");
        assert(strings_view(v@) =~= body_metadata_names());
        lemma_lower_names(body_metadata_names());
    }
    name_in_list(name, v, Ghost(body_metadata_names()))
}

pub fn is_chat_completions_path(path: &str) -> (r: bool)
    ensures
        r == (path@ == "/v1/chat/completions"@),
{
    str_eq(path, "/v1/chat/completions")
}

pub fn is_responses_path(path: &str) -> (r: bool)
    ensures
        r == (path@ == "/v1/responses"@),
{
    str_eq(path, "/v1/responses")
}

/// A path may be proxied only when the list names it exactly.
pub open spec fn path_allowed(path: Seq<char>, allowed: Seq<Seq<char>>) -> bool {
    allowed.contains(path)
}

pub fn is_allowed_path(path: &str, allowed_paths: &Vec<String>) -> (r: bool)
    ensures
        r == path_allowed(path@, strings_view(allowed_paths@)),
{
    let ghost av = strings_view(allowed_paths@);
    let mut i: usize = 0;
    while i < allowed_paths.len()
        invariant
            i <= allowed_paths.len(),
            av == strings_view(allowed_paths@),
            forall|k: int| 0 <= k < i ==> #[trigger] av[k] != path@,
        decreases allowed_paths.len() - i,
    {
        if str_eq(allowed_paths[i].as_str(), path) {
            assert(av[i as int] == path@);
            return true;
        }
        i += 1;
    }
    false
}

/// The event-stream media type starts the content type.
pub open spec fn event_stream_spec(h: Seq<(Seq<char>, Seq<char>)>) -> bool {
    match header_get(h, "content-type"@) {
        Some(v) => seq_starts_with(v, "text/event-stream"@),
        None => false,
    }
}

/// Whether upstream headers announce an event stream.
pub fn is_event_stream(headers: &Vec<(String, String)>) -> (r: bool)
    ensures
        r == event_stream_spec(headers_view(headers@)),
{
    match header_value(headers, "content-type") {
        Some(v) => str_starts_with(v.as_str(), "text/event-stream"),
        None => false,
    }
}

/// The text before the first `;`.
pub open spec fn before_semicolon(s: Seq<char>) -> Seq<char> {
    if exists|i: int| 0 <= i < s.len() && s[i] == ';' {
        s.subrange(0, choose|i: int| 0 <= i < s.len() && s[i] == ';' && forall|k: int| 0 <= k < i ==> s[k] != ';')
    } else {
        s
    }
}

/// The media type, trimmed and compared without regard to ASCII case, is
/// `application/json`.
pub open spec fn json_content_type_spec(h: Seq<(Seq<char>, Seq<char>)>) -> bool {
    match header_get(h, "content-type"@) {
        Some(v) => same_name(trim_seq(before_semicolon(v)), "application/json"@),
        None => false,
    }
}

fn media_type(v: &str) -> (r: String)
    ensures
        r@ == before_semicolon(v@),
{
    let cs = chars_of(v);
    let mut i: usize = 0;
    while i < cs.len() && cs[i] != ';'
        invariant
            i <= cs.len(),
            cs@ == v@,
            forall|k: int| 0 <= k < i ==> v@[k] != ';',
        decreases cs.len() - i,
    {
        i += 1;
    }
    proof {
        if i < cs.len() {
            let j = choose|j: int| 0 <= j < v@.len() && v@[j] == ';' && forall|k: int| 0 <= k < j ==> v@[k] != ';';
            assert(j == i);
        } else {
            assert(v@.subrange(0, i as int) =~= v@);
        }
    }
    string_from_chars(&cs, 0, i)
}

/// Whether the request says its body is JSON.
pub fn is_json_content_type(headers: &Vec<(String, String)>) -> (r: bool)
    ensures
        r == json_content_type_spec(headers_view(headers@)),
{
    match header_value(headers, "content-type") {
        Some(v) => {
            let m = media_type(v.as_str());
            let t = trim_string(m.as_str());
            eq_ignore_ascii_case(t.as_str(), "application/json")
        },
        None => false,
    }
}

/// The token of an `Authorization: Bearer ...` header.
pub open spec fn bearer_spec(h: Seq<(Seq<char>, Seq<char>)>) -> Option<Seq<char>> {
    match header_get(h, "authorization"@) {
        Some(v) => if seq_starts_with(v, "Bearer "@) {
            Some(v.subrange(7, v.len() as int))
        } else {
            None
        },
        None => None,
    }
}

/// The client's bearer token, if it sent one.
pub fn bearer_token(headers: &Vec<(String, String)>) -> (r: Option<String>)
    ensures
        match r {
            Some(t) => bearer_spec(headers_view(headers@)) == Some(t@),
            None => bearer_spec(headers_view(headers@)) is None,
        },
{
    match header_value(headers, "authorization") {
        Some(v) => {
            if str_starts_with(v.as_str(), "Bearer ") {
                proof {
                    reveal_strlit("Bearer ");
                }
                let cs = chars_of(v.as_str());
                Some(string_from_chars(&cs, 7, cs.len()))
            } else {
                None
            }
        },
        None => None,
    }
}

/// A lower-case hexadecimal digit.
pub open spec fn lower_hex(c: char) -> bool {
    ('0' <= c && c <= '9') || ('a' <= c && c <= 'f')
}

/// The hyphenated lower-case text of a random (version 4, RFC 4122
/// variant) UUID: 36 characters, hyphens at 8, 13, 18 and 23, hex digits
/// elsewhere, `4` at 14 and one of `8`, `9`, `a`, `b` at 19.
pub open spec fn uuid_v4_text(s: Seq<char>) -> bool {
    &&& s.len() == 36
    &&& forall|i: int|
        0 <= i < 36 ==> if i == 8 || i == 13 || i == 18 || i == 23 {
            s[i] == '-'
        } else {
            lower_hex(#[trigger] s[i])
        }
    &&& s[14] == '4'
    &&& (s[19] == '8' || s[19] == '9' || s[19] == 'a' || s[19] == 'b')
}

/// `Uuid::new_v4()` in its hyphenated text form (`Display` writes the
/// hyphenated lower-case form). The random bits themselves are not stated.
#[verifier::external_body]
fn new_uuid() -> (r: String)
    ensures
        uuid_v4_text(r@),
{
    uuid::Uuid::new_v4().to_string()
}

/// The request's `x-correlation-id`, or a fresh random identifier.
pub fn correlation_id(headers: &Vec<(String, String)>) -> (r: String)
    ensures
        match header_get(headers_view(headers@), "x-correlation-id"@) {
            Some(v) => r@ == v,
            None => uuid_v4_text(r@),
        },
{
    match header_value(headers, "x-correlation-id") {
        Some(v) => to_owned_string(v.as_str()),
        None => new_uuid(),
    }
}

/// The parse of a body as plain values: the value, or the parser's message.
pub open spec fn parsed_view(p: Result<JsonValue, String>) -> Result<Json, Seq<char>> {
    match p {
        Ok(v) => Ok(v@),
        Err(m) => Err(m@),
    }
}

/// The checks that come before the body's shape: the method must be POST,
/// the body non-empty, the content type JSON, and the body must parse.
pub open spec fn envelope_ok(
    method: Seq<char>,
    headers: Seq<(Seq<char>, Seq<char>)>,
    body: Seq<u8>,
) -> bool {
    method == "POST"@ && body.len() > 0 && json_content_type_spec(headers)
}

/// The error that the envelope checks give, if any; the parse error is
/// checked last.
pub open spec fn envelope_error_holds(
    method: Seq<char>,
    headers: Seq<(Seq<char>, Seq<char>)>,
    body: Seq<u8>,
    parsed: Result<Json, Seq<char>>,
    r: Result<(), ProxyError>,
) -> bool {
    if method != "POST"@ {
        r matches Err(ProxyError::MethodNotAllowed)
    } else if body.len() == 0 {
        r matches Err(ProxyError::MissingBody)
    } else if !json_content_type_spec(headers) {
        r matches Err(ProxyError::UnsupportedContentType)
    } else {
        match parsed {
            Err(m) => r matches Err(ProxyError::InvalidJson(x)) && x@ == m,
            Ok(_) => true,
        }
    }
}

fn check_envelope(method: &str, headers: &Vec<(String, String)>, body: &[u8], parsed: &Result<
    JsonValue,
    String,
>) -> (r: Result<(), ProxyError>)
    ensures
        envelope_ok(method@, headers_view(headers@), body@) && parsed is Ok ==> r is Ok,
        !(envelope_ok(method@, headers_view(headers@), body@) && parsed is Ok) ==> envelope_error_holds(
            method@,
            headers_view(headers@),
            body@,
            parsed_view(*parsed),
            r,
        ),
{
    if !str_eq(method, "POST") {
        return Err(ProxyError::MethodNotAllowed);
    }
    if body.len() == 0 {
        return Err(ProxyError::MissingBody);
    }
    if !is_json_content_type(headers) {
        return Err(ProxyError::UnsupportedContentType);
    }
    match parsed {
        Ok(_) => Ok(()),
        Err(m) => Err(ProxyError::InvalidJson(to_owned_string(m.as_str()))),
    }
}

/// Checks a chat-completions request before it is proxied: method, body,
/// content type, that the body parses (`parsed` is the parse of `body`),
/// then the shape of the parsed body.
pub fn validate_chat_envelope(
    method: &str,
    headers: &Vec<(String, String)>,
    body: &[u8],
    parsed: &Result<JsonValue, String>,
) -> (r: Result<(), ProxyError>)
    ensures
        !(envelope_ok(method@, headers_view(headers@), body@) && parsed is Ok) ==> envelope_error_holds(
            method@,
            headers_view(headers@),
            body@,
            parsed_view(*parsed),
            r,
        ),
        envelope_ok(method@, headers_view(headers@), body@) ==> (parsed matches Ok(v) ==> match chat_body_error(v@) {
            None => r is Ok,
            Some(m) => r matches Err(ProxyError::InvalidChatRequest(x)) && x@ == m,
        }),
{
    match check_envelope(method, headers, body, parsed) {
        Ok(()) => {},
        Err(e) => {
            return Err(e);
        },
    }
    match parsed {
        Ok(v) => validate_chat_body(v),
        Err(m) => Err(ProxyError::InvalidJson(to_owned_string(m.as_str()))),
    }
}

/// Checks a Responses-API request before it is proxied, in the same way.
pub fn validate_responses_envelope(
    method: &str,
    headers: &Vec<(String, String)>,
    body: &[u8],
    parsed: &Result<JsonValue, String>,
) -> (r: Result<(), ProxyError>)
    ensures
        !(envelope_ok(method@, headers_view(headers@), body@) && parsed is Ok) ==> envelope_error_holds(
            method@,
            headers_view(headers@),
            body@,
            parsed_view(*parsed),
            r,
        ),
        envelope_ok(method@, headers_view(headers@), body@) ==> (parsed matches Ok(v) ==> match responses_body_error(v@) {
            None => r is Ok,
            Some(m) => r matches Err(ProxyError::InvalidResponsesRequest(x)) && x@ == m,
        }),
{
    match check_envelope(method, headers, body, parsed) {
        Ok(()) => {},
        Err(e) => {
            return Err(e);
        },
    }
    match parsed {
        Ok(v) => validate_responses_body(v),
        Err(m) => Err(ProxyError::InvalidJson(to_owned_string(m.as_str()))),
    }
}

pub open spec fn unit_result(r: Result<JsonValue, ProxyError>) -> Result<(), ProxyError> {
    match r {
        Ok(_) => Ok(()),
        Err(e) => Err(e),
    }
}

/// The outcome of admitting a request, exactly: a path not on the
/// allow-list is refused; with strict validation a chat-completions or
/// Responses-API request must pass its envelope checks and its body shape;
/// then the body is the parsed JSON, or `null` when empty.
pub open spec fn admit_holds(
    allowed: Seq<Seq<char>>,
    strict: bool,
    method: Seq<char>,
    path: Seq<char>,
    headers: Seq<(Seq<char>, Seq<char>)>,
    body: Seq<u8>,
    parsed: Result<Json, Seq<char>>,
    r: Result<JsonValue, ProxyError>,
) -> bool {
    let checked = strict && (path == "/v1/chat/completions"@ || path == "/v1/responses"@);
    if !path_allowed(path, allowed) {
        r matches Err(ProxyError::PathNotAllowed)
    } else if checked && !(envelope_ok(method, headers, body) && parsed is Ok) {
        envelope_error_holds(method, headers, body, parsed, unit_result(r))
    } else if checked && path == "/v1/chat/completions"@ && chat_body_error(parsed->Ok_0) is Some {
        r matches Err(ProxyError::InvalidChatRequest(x)) && x@ == chat_body_error(parsed->Ok_0)->Some_0
    } else if checked && path == "/v1/responses"@ && responses_body_error(parsed->Ok_0) is Some {
        r matches Err(ProxyError::InvalidResponsesRequest(x)) && x@ == responses_body_error(
            parsed->Ok_0,
        )->Some_0
    } else if body.len() == 0 {
        r matches Ok(v) && v@ == Json::Null
    } else {
        match parsed {
            Ok(p) => r matches Ok(v) && v@ == p,
            Err(m) => r matches Err(ProxyError::InvalidJson(x)) && x@ == m,
        }
    }
}

/// The requests that admission refuses.
pub open spec fn admit_refused(
    allowed: Seq<Seq<char>>,
    strict: bool,
    method: Seq<char>,
    path: Seq<char>,
    headers: Seq<(Seq<char>, Seq<char>)>,
    body: Seq<u8>,
    parsed: Result<Json, Seq<char>>,
) -> bool {
    let checked = strict && (path == "/v1/chat/completions"@ || path == "/v1/responses"@);
    ||| !path_allowed(path, allowed)
    ||| checked && !(envelope_ok(method, headers, body) && parsed is Ok)
    ||| checked && path == "/v1/chat/completions"@ && chat_body_error(parsed->Ok_0) is Some
    ||| checked && path == "/v1/responses"@ && responses_body_error(parsed->Ok_0) is Some
    ||| body.len() > 0 && parsed is Err
}

/// What the proxy makes of a request before any detector runs. `path` is
/// the request path without its query and `parsed` the parse of `body`.
pub fn admit_request(
    server: &ServerConfig,
    method: &str,
    path: &str,
    headers: &Vec<(String, String)>,
    body: &[u8],
    parsed: &Result<JsonValue, String>,
) -> (r: Result<JsonValue, ProxyError>)
    ensures
        admit_holds(
            strings_view(server.allowed_paths@),
            server.strict_chat_validation,
            method@,
            path@,
            headers_view(headers@),
            body@,
            parsed_view(*parsed),
            r,
        ),
        r is Err <==> admit_refused(
            strings_view(server.allowed_paths@),
            server.strict_chat_validation,
            method@,
            path@,
            headers_view(headers@),
            body@,
            parsed_view(*parsed),
        ),
{
    proof {
        reveal_strlit("/v1/chat/completions");
        reveal_strlit("/v1/responses");
        assert("/v1/chat/completions"@.len() != "/v1/responses"@.len());
    }
    if !is_allowed_path(path, &server.allowed_paths) {
        return Err(ProxyError::PathNotAllowed);
    }
    if server.strict_chat_validation {
        if is_chat_completions_path(path) {
            match validate_chat_envelope(method, headers, body, parsed) {
                Ok(()) => {},
                Err(e) => {
                    return Err(e);
                },
            }
        } else if is_responses_path(path) {
            match validate_responses_envelope(method, headers, body, parsed) {
                Ok(()) => {},
                Err(e) => {
                    return Err(e);
                },
            }
        }
    }
    if body.len() == 0 {
        return Ok(JsonValue::Null);
    }
    match parsed {
        Ok(v) => Ok(v.deep_clone()),
        Err(m) => Err(ProxyError::InvalidJson(to_owned_string(m.as_str()))),
    }
}

/// The status sent to the client: the upstream status when it is a valid
/// HTTP status code, else 502.
pub fn response_status(status: u16) -> (r: u16)
    ensures
        r == if 100 <= status <= 999 {
            status
        } else {
            502
        },
{
    if 100 <= status && status <= 999 {
        status
    } else {
        502
    }
}

/// The headers the firewall sets on every proxied response.
pub open spec fn firewall_header_names() -> Seq<Seq<char>> {
    seq!["cache-control"@, "x-content-type-options"@, "x-llm-firewall"@, "x-correlation-id"@]
}

/// An upstream header the client receives as it is: not connection-level,
/// not body metadata, and not one the firewall sets itself.
pub open spec fn passes_through(name: Seq<char>, is_stream: bool) -> bool {
    &&& !name_in(name, hop_by_hop_names())
    &&& !name_in(name, body_metadata_names())
    &&& !name_in(name, firewall_header_names())
    &&& !(is_stream && same_name(name, "content-type"@))
}

/// The upstream headers that pass through, in order.
pub open spec fn kept_headers(up: Seq<(Seq<char>, Seq<char>)>, is_stream: bool) -> Seq<
    (Seq<char>, Seq<char>),
>
    decreases up.len(),
{
    if up.len() == 0 {
        Seq::empty()
    } else {
        let rest = kept_headers(up.drop_last(), is_stream);
        if passes_through(up.last().0, is_stream) {
            rest.push(up.last())
        } else {
            rest
        }
    }
}

/// The headers the firewall adds after the upstream ones.
pub open spec fn added_headers(is_stream: bool, correlation_id: Seq<char>) -> Seq<
    (Seq<char>, Seq<char>),
> {
    (if is_stream {
        seq![("content-type"@, "text/event-stream"@)]
    } else {
        Seq::empty()
    }) + seq![
        ("cache-control"@, "no-store"@),
        ("x-content-type-options"@, "nosniff"@),
        ("x-llm-firewall"@, "protected"@),
        ("x-correlation-id"@, correlation_id),
    ]
}

pub open spec fn response_headers_spec(
    up: Seq<(Seq<char>, Seq<char>)>,
    is_stream: bool,
    correlation_id: Seq<char>,
) -> Seq<(Seq<char>, Seq<char>)> {
    kept_headers(up, is_stream) + added_headers(is_stream, correlation_id)
}

fn header_pair(name: &str, value: &str) -> (r: (String, String))
    ensures
        r.0@ == name@,
        r.1@ == value@,
{
    (to_owned_string(name), to_owned_string(value))
}

fn is_firewall_header(name: &str) -> (r: bool)
    ensures
        r == name_in(name@, firewall_header_names()),
{
    let mut v: Vec<String> = Vec::new();
    v.push(to_owned_string("cache-control"));
    v.push(to_owned_string("x-content-type-options"));
    v.push(to_owned_string("x-llm-firewall"));
    v.push(to_owned_string("x-correlation-id"));
    proof {
        reveal_strlit("cache-control");
        reveal_strlit("x-content-type-options");
        reveal_strlit("x-llm-firewall");
        reveal_strlit("x-correlation-id");
        assert(strings_view(v@) =~= firewall_header_names());
        lemma_lower_names(firewall_header_names());
    }
    name_in_list(name, v, Ghost(firewall_header_names()))
}

/// The headers of the response sent to the client: the upstream headers
/// that pass through, then `content-type: text/event-stream` for a stream,
/// then the firewall's own headers.
pub fn response_headers(upstream: &Vec<(String, String)>, is_stream: bool, correlation_id: &str) -> (r: Vec<
    (String, String),
>)
    ensures
        headers_view(r@) == response_headers_spec(headers_view(upstream@), is_stream, correlation_id@),
{
    let ghost uv = headers_view(upstream@);
    let mut out: Vec<(String, String)> = Vec::new();
    let mut i: usize = 0;
    assert(headers_view(out@) =~= kept_headers(uv.take(0), is_stream));
    while i < upstream.len()
        invariant
            i <= upstream.len(),
            uv == headers_view(upstream@),
            headers_view(out@) == kept_headers(uv.take(i as int), is_stream),
        decreases upstream.len() - i,
    {
        let name = upstream[i].0.as_str();
        let pass = !is_hop_by_hop(name) && !is_body_metadata(name) && !is_firewall_header(name) && !(
        is_stream && eq_ignore_ascii_case(name, "content-type"));
        let ghost before = headers_view(out@);
        if pass {
            out.push(header_pair(name, upstream[i].1.as_str()));
        }
        proof {
            assert(uv.take(i + 1).drop_last() =~= uv.take(i as int));
            assert(uv.take(i + 1).last() == uv[i as int]);
            assert(headers_view(out@) =~= kept_headers(uv.take(i + 1), is_stream));
        }
        i += 1;
    }
    assert(uv.take(upstream.len() as int) =~= uv);
    let ghost kept = headers_view(out@);
    if is_stream {
        out.push(header_pair("content-type", "text/event-stream"));
    }
    out.push(header_pair("cache-control", "no-store"));
    out.push(header_pair("x-content-type-options", "nosniff"));
    out.push(header_pair("x-llm-firewall", "protected"));
    out.push(header_pair("x-correlation-id", correlation_id));
    assert(headers_view(out@) =~= response_headers_spec(uv, is_stream, correlation_id@));
    out
}

/// The body sent to the client: the override when a detector set one, else
/// the (possibly redacted) response text.
pub fn response_body(ctx: &ResponseContext) -> (r: String)
    ensures
        r@ == match ctx.override_response {
            Some(o) => o@,
            None => ctx.body_text@,
        },
{
    match &ctx.override_response {
        Some(o) => to_owned_string(o.as_str()),
        None => to_owned_string(ctx.body_text.as_str()),
    }
}

/// A response is handled as an event stream when the upstream says so or
/// the request asked for `"stream": true`.
pub open spec fn stream_spec(h: Seq<(Seq<char>, Seq<char>)>, body: Json) -> bool {
    event_stream_spec(h) || json_get(body, "stream"@) == Some(Json::Bool(true))
}

pub fn is_stream_response(upstream: &Vec<(String, String)>, body: &JsonValue) -> (r: bool)
    ensures
        r == stream_spec(headers_view(upstream@), body@),
{
    if is_event_stream(upstream) {
        return true;
    }
    match body.get("stream") {
        Some(JsonValue::Bool(b)) => *b,
        _ => false,
    }
}

proof fn lemma_header_push(s: Seq<(Seq<char>, Seq<char>)>, e: (Seq<char>, Seq<char>), m: Seq<char>, i: int)
    requires
        0 <= i <= s.len(),
    ensures
        header_from(s.push(e), m, i) == match header_from(s, m, i) {
            Some(v) => Some(v),
            None => if same_name(e.0, m) {
                Some(e.1)
            } else {
                None
            },
        },
    decreases s.len() - i,
{
    if i < s.len() {
        assert(s.push(e)[i] == s[i]);
        lemma_header_push(s, e, m, i + 1);
    } else {
        assert(s.push(e)[i] == e);
        assert(header_from(s.push(e), m, i + 1) is None);
    }
}

proof fn lemma_header_shift(a: Seq<(Seq<char>, Seq<char>)>, b: Seq<(Seq<char>, Seq<char>)>, m: Seq<char>, i: int)
    requires
        0 <= i <= a.len(),
        forall|k: int| 0 <= k < a.len() ==> !same_name(#[trigger] a[k].0, m),
    ensures
        header_from(a + b, m, i) == header_from(b, m, 0),
    decreases a.len() + b.len() - i,
{
    if i < a.len() {
        assert((a + b)[i] == a[i]);
        lemma_header_shift(a, b, m, i + 1);
    } else {
        lemma_header_tail(a, b, m, 0);
    }
}

proof fn lemma_header_tail(a: Seq<(Seq<char>, Seq<char>)>, b: Seq<(Seq<char>, Seq<char>)>, m: Seq<char>, j: int)
    requires
        0 <= j <= b.len(),
    ensures
        header_from(a + b, m, a.len() + j) == header_from(b, m, j),
    decreases b.len() - j,
{
    if j < b.len() {
        assert((a + b)[a.len() + j] == b[j]);
        lemma_header_tail(a, b, m, j + 1);
    }
}

/// The kept headers answer a lookup as the upstream headers do for a name
/// that passes through, and not at all for any other.
proof fn lemma_kept_lookup(up: Seq<(Seq<char>, Seq<char>)>, is_stream: bool, m: Seq<char>)
    ensures
        header_get(kept_headers(up, is_stream), m) == if passes_through(m, is_stream) {
            header_get(up, m)
        } else {
            None
        },
    decreases up.len(),
{
    if up.len() > 0 {
        let init = up.drop_last();
        let e = up.last();
        lemma_kept_lookup(init, is_stream, m);
        assert(up =~= init.push(e));
        lemma_header_push(init, e, m, 0);
        let rest = kept_headers(init, is_stream);
        if passes_through(e.0, is_stream) {
            lemma_header_push(rest, e, m, 0);
        }
    }
}

proof fn lemma_kept_names(up: Seq<(Seq<char>, Seq<char>)>, is_stream: bool)
    ensures
        forall|k: int|
            0 <= k < kept_headers(up, is_stream).len() ==> passes_through(
                #[trigger] kept_headers(up, is_stream)[k].0,
                is_stream,
            ),
    decreases up.len(),
{
    if up.len() > 0 {
        let rest = kept_headers(up.drop_last(), is_stream);
        lemma_kept_names(up.drop_last(), is_stream);
        let kept = kept_headers(up, is_stream);
        assert forall|k: int| 0 <= k < kept.len() implies passes_through(#[trigger] kept[k].0, is_stream) by {
            if k < rest.len() {
                assert(kept[k] == rest[k]);
            }
        }
    }
}

/// What every proxied response carries: `cache-control: no-store`,
/// `x-content-type-options: nosniff`, `x-llm-firewall: protected` and the
/// request's correlation id; `content-type: text/event-stream` for a
/// stream; no connection-level header; and any other upstream header that
/// passes through, as the upstream sent it.
pub proof fn response_headers_are_protected(
    up: Seq<(Seq<char>, Seq<char>)>,
    is_stream: bool,
    correlation_id: Seq<char>,
)
    ensures
        ({
            let h = response_headers_spec(up, is_stream, correlation_id);
            &&& header_get(h, "cache-control"@) == Some("no-store"@)
            &&& header_get(h, "x-content-type-options"@) == Some("nosniff"@)
            &&& header_get(h, "x-llm-firewall"@) == Some("protected"@)
            &&& header_get(h, "x-correlation-id"@) == Some(correlation_id)
            &&& is_stream ==> header_get(h, "content-type"@) == Some("text/event-stream"@)
            &&& forall|k: int| 0 <= k < h.len() ==> !name_in(#[trigger] h[k].0, hop_by_hop_names())
            &&& forall|m: Seq<char>| passes_through(m, is_stream) ==> #[trigger] header_get(h, m)
                == header_get(up, m)
        }),
{
    reveal_strlit("cache-control");
    reveal_strlit("x-content-type-options");
    reveal_strlit("x-llm-firewall");
    reveal_strlit("x-correlation-id");
    reveal_strlit("content-type");
    reveal_strlit("connection");
    reveal_strlit("keep-alive");
    reveal_strlit("proxy-authenticate");
    reveal_strlit("proxy-authorization");
    reveal_strlit("te");
    reveal_strlit("trailer");
    reveal_strlit("transfer-encoding");
    reveal_strlit("upgrade");
    let kept = kept_headers(up, is_stream);
    let added = added_headers(is_stream, correlation_id);
    let h = kept + added;
    lemma_kept_names(up, is_stream);
    lemma_lower_names(firewall_header_names());
    lemma_lower_names(hop_by_hop_names());
    lemma_lower_names(seq!["content-type"@]);
    let fixed = seq!["cache-control"@, "x-content-type-options"@, "x-llm-firewall"@, "x-correlation-id"@];
    assert(fixed == firewall_header_names());
    // firewall headers: no kept header has their names
    assert forall|j: int| 0 <= j < 4 implies header_get(h, #[trigger] fixed[j]) == header_get(added, fixed[j]) by {
        assert(ascii_lower_seq(fixed[j]) == fixed[j]);
        assert forall|k: int| 0 <= k < kept.len() implies !same_name(#[trigger] kept[k].0, fixed[j]) by {
            assert(firewall_header_names().contains(fixed[j]));
        }
        lemma_header_shift(kept, added, fixed[j], 0);
    }
    assert(header_get(h, "cache-control"@) == header_get(added, "cache-control"@));
    assert(header_get(h, "x-content-type-options"@) == header_get(added, "x-content-type-options"@));
    assert(header_get(h, "x-llm-firewall"@) == header_get(added, "x-llm-firewall"@));
    assert(header_get(h, "x-correlation-id"@) == header_get(added, "x-correlation-id"@));
    assert(ascii_lower_seq("content-type"@) =~= "content-type"@);
    assert(ascii_lower_seq("cache-control"@) =~= "cache-control"@);
    assert(ascii_lower_seq("x-content-type-options"@) =~= "x-content-type-options"@);
    assert(ascii_lower_seq("x-llm-firewall"@) =~= "x-llm-firewall"@);
    assert(ascii_lower_seq("x-correlation-id"@) =~= "x-correlation-id"@);
    assert(header_get(added, "cache-control"@) == Some("no-store"@)
        && header_get(added, "x-content-type-options"@) == Some("nosniff"@)) by {
        reveal_with_fuel(header_from, 6);
    }
    assert(header_get(added, "x-llm-firewall"@) == Some("protected"@)) by {
        reveal_with_fuel(header_from, 6);
    }
    assert(header_get(added, "x-correlation-id"@) == Some(correlation_id)) by {
        reveal_with_fuel(header_from, 6);
    }
    if is_stream {
        assert forall|k: int| 0 <= k < kept.len() implies !same_name(#[trigger] kept[k].0, "content-type"@) by {}
        lemma_header_shift(kept, added, "content-type"@, 0);
    }
    // no connection-level header
    assert forall|k: int| 0 <= k < h.len() implies !name_in(#[trigger] h[k].0, hop_by_hop_names()) by {
        if k < kept.len() {
            assert(h[k] == kept[k]);
        } else {
            let a = h[k].0;
            assert(h[k] == added[k - kept.len()]);
            assert(ascii_lower_seq(a) == a);
            if hop_by_hop_names().contains(a) {
                let q = choose|q: int| 0 <= q < hop_by_hop_names().len() && hop_by_hop_names()[q] == a;
                assert(hop_by_hop_names()[q].len() == a.len());
            }
        }
    }
    // everything else passes through
    assert forall|m: Seq<char>| passes_through(m, is_stream) implies #[trigger] header_get(h, m)
        == header_get(up, m) by {
        lemma_kept_lookup(up, is_stream, m);
        lemma_header_tail(kept, added, m, 0);
        assert forall|k: int| 0 <= k < added.len() implies !same_name(#[trigger] added[k].0, m) by {
            if !is_stream || k > 0 {
                let q = if is_stream { k - 1 } else { k };
                assert(firewall_header_names().contains(added[k].0)) by {
                    assert(firewall_header_names()[q] == added[k].0);
                }
                assert(ascii_lower_seq(added[k].0) == added[k].0);
            }
        }
        lemma_none_found(kept, added, m);
    }
}

/// A lookup that finds nothing in either part finds nothing in the whole.
proof fn lemma_none_found(a: Seq<(Seq<char>, Seq<char>)>, b: Seq<(Seq<char>, Seq<char>)>, m: Seq<char>)
    requires
        forall|k: int| 0 <= k < b.len() ==> !same_name(#[trigger] b[k].0, m),
    ensures
        header_get(a + b, m) == header_get(a, m),
{
    lemma_concat_lookup(a, b, m, 0);
    lemma_absent(b, m, 0);
}

proof fn lemma_absent(b: Seq<(Seq<char>, Seq<char>)>, m: Seq<char>, j: int)
    requires
        0 <= j <= b.len(),
        forall|k: int| 0 <= k < b.len() ==> !same_name(#[trigger] b[k].0, m),
    ensures
        header_from(b, m, j) is None,
    decreases b.len() - j,
{
    if j < b.len() {
        lemma_absent(b, m, j + 1);
    }
}

proof fn lemma_concat_lookup(a: Seq<(Seq<char>, Seq<char>)>, b: Seq<(Seq<char>, Seq<char>)>, m: Seq<char>, i: int)
    requires
        0 <= i <= a.len(),
    ensures
        header_from(a + b, m, i) == match header_from(a, m, i) {
            Some(v) => Some(v),
            None => header_from(b, m, 0),
        },
    decreases a.len() - i,
{
    if i < a.len() {
        assert((a + b)[i] == a[i]);
        lemma_concat_lookup(a, b, m, i + 1);
    } else {
        lemma_header_tail(a, b, m, 0);
    }
}

} // verus!
