use vstd::prelude::*;
use vstd::utf8::encode_utf8;

use crate::detectors::prompt::strings_view;
use crate::matching::{regex_check, regex_ok, regex_replace_all, regex_replaced};
use crate::pipeline::context::{lemma_results_push, result_view, results_view, DetectorActionTaken, DetectorResult, RequestContext, ResponseContext};
use crate::text::{chars_of, push_all, string_from_chars, to_owned_string};

verus! {

/// What `Sha256::digest` computes of the bytes.
pub uninterp spec fn sha256_digest(data: Seq<u8>) -> Seq<u8>;

/// The lower-case hexadecimal digit of a value below sixteen.
pub open spec fn hex_digit(n: int) -> char {
    if n < 10 {
        (48 + n) as char
    } else {
        (87 + n) as char
    }
}

/// Two lower-case hexadecimal digits per byte, high nibble first.
pub open spec fn hex_of(bytes: Seq<u8>) -> Seq<char>
    decreases bytes.len(),
{
    if bytes.len() == 0 {
        Seq::empty()
    } else {
        hex_of(bytes.drop_last()) + seq![
            hex_digit(bytes.last() as int / 16),
            hex_digit(bytes.last() as int % 16),
        ]
    }
}

/// `Sha256::digest` of the bytes. The digest is named; its 32-byte length is
/// the one fact stated besides.
#[verifier::external_body]
fn sha256(data: &[u8]) -> (r: Vec<u8>)
    ensures
        r@ == sha256_digest(data@),
        r@.len() == 32,
{
    <sha2::Sha256 as sha2::Digest>::digest(data).to_vec()
}

/// `hex::encode`: two lower-case hexadecimal digits per byte, in order.
#[verifier::external_body]
fn hex_encode(data: &[u8]) -> (r: String)
    ensures
        r@ == hex_of(data@),
{
    hex::encode(data)
}

/// The hexadecimal SHA-256 digest of a secret's UTF-8 bytes: how API keys
/// appear in audit records and how clients are told apart.
pub fn hash_secret(secret: &str) -> (r: String)
    ensures
        r@ == hex_of(sha256_digest(encode_utf8(secret@))),
{
    let digest = sha256(secret.as_bytes());
    hex_encode(digest.as_slice())
}

/// The patterns whose matches audit text never shows: US social security
/// numbers, card numbers, e-mail addresses, API key prefixes and
/// credential assignments.
pub open spec fn audit_patterns() -> Seq<Seq<char>> {
    seq![
        "\\b\\d{3}-\\d{2}-\\d{4}\\b"@,
        "\\b(?:\\d[ -]*?){13,19}\\b"@,
        "\\b[A-Za-z0-9._%+-]+@[A-Za-z0-9.-]+\\.[A-Za-z]{2,}\\b"@,
        "\\b(?:sk|pk|rk|xox[baprs])-[-A-Za-z0-9_]{8,}\\b"@,
        "(?i)(\"?(?:api[_-]?key|authorization|access[_-]?token|refresh[_-]?token|password|secret)\"?\\s*[:=]\\s*)\"?[^\",\\s}]{6,}\"?"@,
    ]
}

/// The text after the first `n` audit patterns, each of those that compile
/// replacing its matches with `[REDACTED]`.
pub open spec fn audit_prefix(patterns: Seq<Seq<char>>, n: int, text: Seq<char>) -> Seq<char>
    decreases n,
{
    if n <= 0 {
        text
    } else {
        let t = audit_prefix(patterns, n - 1, text);
        if regex_ok(patterns[n - 1]) {
            regex_replaced(patterns[n - 1], t, "[REDACTED]"@)
        } else {
            t
        }
    }
}

pub open spec fn sanitize_for_audit_spec(text: Seq<char>) -> Seq<char> {
    audit_prefix(audit_patterns(), 5, text)
}

fn audit_pattern_list() -> (r: Vec<String>)
    ensures
        strings_view(r@) == audit_patterns(),
{
    let mut v: Vec<String> = Vec::new();
    v.push(to_owned_string("\\b\\d{3}-\\d{2}-\\d{4}\\b"));
    v.push(to_owned_string("\\b(?:\\d[ -]*?){13,19}\\b"));
    v.push(to_owned_string("\\b[A-Za-z0-9._%+-]+@[A-Za-z0-9.-]+\\.[A-Za-z]{2,}\\b"));
    v.push(to_owned_string("\\b(?:sk|pk|rk|xox[baprs])-[-A-Za-z0-9_]{8,}\\b"));
    v.push(
        to_owned_string(
            "(?i)(\"?(?:api[_-]?key|authorization|access[_-]?token|refresh[_-]?token|password|secret)\"?\\s*[:=]\\s*)\"?[^\",\\s}]{6,}\"?",
        ),
    );
    assert(strings_view(v@) =~= audit_patterns());
    v
}

/// Text as the audit log may show it: each audit pattern in turn replaces
/// its matches with `[REDACTED]`.
pub fn sanitize_for_audit(text: &str) -> (r: String)
    ensures
        r@ == sanitize_for_audit_spec(text@),
{
    let patterns = audit_pattern_list();
    let mut current = to_owned_string(text);
    let mut i: usize = 0;
    while i < patterns.len()
        invariant
            i <= patterns.len(),
            strings_view(patterns@) == audit_patterns(),
            current@ == audit_prefix(audit_patterns(), i as int, text@),
        decreases patterns.len() - i,
    {
        assert(audit_patterns()[i as int] == patterns@[i as int]@);
        match regex_check(patterns[i].as_str()) {
            Ok(()) => {
                current = regex_replace_all(patterns[i].as_str(), current.as_str(), "[REDACTED]");
            },
            Err(_) => {},
        }
        i += 1;
    }
    assert(audit_patterns().len() == 5);
    current
}

/// At most the first `n` characters.
pub open spec fn take_chars(s: Seq<char>, n: int) -> Seq<char> {
    if s.len() <= n {
        s
    } else {
        s.subrange(0, n)
    }
}

/// The sanitized text cut to `max_chars` characters.
pub fn preview(text: &str, max_chars: usize) -> (r: String)
    ensures
        r@ == take_chars(sanitize_for_audit_spec(text@), max_chars as int),
{
    let sanitized = sanitize_for_audit(text);
    let cs = chars_of(sanitized.as_str());
    let n = if cs.len() <= max_chars {
        cs.len()
    } else {
        max_chars
    };
    let r = string_from_chars(&cs, 0, n);
    assert(r@ =~= take_chars(sanitize_for_audit_spec(text@), max_chars as int));
    r
}

/// Which previews an audit record suppresses.
#[derive(Clone, Copy, PartialEq, Eq, Structural)]
pub enum PreviewMode {
    Normal,
    SuppressRequest,
    SuppressResponse,
}

/// One audit record, with previews and reason already sanitized.
pub struct AuditRecord {
    pub event: String,
    pub correlation_id: String,
    pub path: String,
    pub method: String,
    pub client_ip: Option<String>,
    pub api_key_hash: Option<String>,
    pub prompt_tokens: usize,
    pub request_detectors: Vec<DetectorResult>,
    pub response_detectors: Option<Vec<DetectorResult>>,
    pub status: Option<u16>,
    pub request_preview: String,
    pub response_preview: Option<String>,
    pub reason: Option<String>,
}

pub open spec fn opt_str_view(o: Option<String>) -> Option<Seq<char>> {
    match o {
        Some(s) => Some(s@),
        None => None,
    }
}

/// A copy of an audit trail.
pub fn copy_results(v: &Vec<DetectorResult>) -> (r: Vec<DetectorResult>)
    ensures
        results_view(r@) == results_view(v@),
{
    let mut out: Vec<DetectorResult> = Vec::new();
    let mut i: usize = 0;
    while i < v.len()
        invariant
            i <= v.len(),
            results_view(out@) == results_view(v@.take(i as int)),
        decreases v.len() - i,
    {
        let reason = match &v[i].reason {
            Some(s) => Some(to_owned_string(s.as_str())),
            None => None,
        };
        let ghost before = out@;
        let item = DetectorResult { detector: v[i].detector, action: v[i].action, reason };
        assert(result_view(item) == result_view(v@[i as int]));
        out.push(item);
        proof {
            lemma_results_push(before, item);
            lemma_results_push(v@.take(i as int), v@[i as int]);
            assert(v@.take(i + 1) =~= v@.take(i as int).push(v@[i as int]));
        }
        i += 1;
    }
    assert(v@.take(v.len() as int) =~= v@);
    out
}

fn copy_opt(o: &Option<String>) -> (r: Option<String>)
    ensures
        opt_str_view(r) == opt_str_view(*o),
{
    match o {
        Some(s) => Some(to_owned_string(s.as_str())),
        None => None,
    }
}

/// Writes sanitized audit records; previews keep at most `body_chars`
/// characters.
pub struct AuditLogger {
    pub body_chars: usize,
}

/// The audit record `r` of a request `req` (with `request_body` the text of
/// its current body) and, when there is one, its response `res`: event,
/// identity, the API key's hash, token estimate and entries as given; a
/// suppressed preview or reason where the mode asks, else sanitized and
/// shortened ones.
pub open spec fn audit_record_of(
    l: AuditLogger,
    event: Seq<char>,
    req: RequestContext,
    request_body: Seq<char>,
    res: Option<ResponseContext>,
    reason: Option<Seq<char>>,
    preview_mode: PreviewMode,
    r: AuditRecord,
) -> bool {
    &&& r.event@ == event
    &&& r.correlation_id@ == req.correlation_id@
    &&& r.path@ == req.path@
    &&& r.method@ == req.method@
    &&& opt_str_view(r.client_ip) == opt_str_view(req.client_ip)
    &&& opt_str_view(r.api_key_hash) == match req.api_key {
        Some(k) => Some(hex_of(sha256_digest(encode_utf8(k@)))),
        None => None,
    }
    &&& r.prompt_tokens == req.prompt_tokens
    &&& results_view(r.request_detectors@) == results_view(req.detector_results@)
    &&& match res {
        Some(x) => r.response_detectors matches Some(d) && results_view(d@) == results_view(
            x.detector_results@,
        ) && r.status == Some(x.status),
        None => r.response_detectors is None && r.status is None,
    }
    &&& r.request_preview@ == if preview_mode == PreviewMode::SuppressRequest {
        "[suppressed: blocked request]"@
    } else {
        take_chars(sanitize_for_audit_spec(request_body), l.body_chars as int)
    }
    &&& opt_str_view(r.response_preview) == match res {
        Some(x) => Some(
            if preview_mode == PreviewMode::SuppressResponse {
                "[suppressed: blocked response]"@
            } else {
                take_chars(sanitize_for_audit_spec(x.body_text@), l.body_chars as int)
            },
        ),
        None => None,
    }
    &&& opt_str_view(r.reason) == match reason {
        Some(m) => Some(
            if preview_mode == PreviewMode::Normal {
                sanitize_for_audit_spec(m)
            } else {
                "blocked by firewall policy"@
            },
        ),
        None => None,
    }
}

impl AuditLogger {
    pub fn new(body_chars: usize) -> (r: AuditLogger)
        ensures
            r.body_chars == body_chars,
    {
        AuditLogger { body_chars }
    }

    /// The audit record of a request and, when there is one, its response.
    /// `request_body` is the text of the request's current body. A blocked
    /// request or response has its preview suppressed and its reason
    /// replaced; otherwise previews and reason are sanitized.
    pub fn record(
        &self,
        event: &str,
        req: &RequestContext,
        request_body: &str,
        res: Option<&ResponseContext>,
        reason: Option<String>,
        preview_mode: PreviewMode,
    ) -> (r: AuditRecord)
        ensures
            audit_record_of(
                *self,
                event@,
                *req,
                request_body@,
                match res {
                    Some(x) => Some(*x),
                    None => None,
                },
                opt_str_view(reason),
                preview_mode,
                r,
            ),
    {
        let api_key_hash = match &req.api_key {
            Some(k) => Some(hash_secret(k.as_str())),
            None => None,
        };
        let request_preview = if preview_mode == PreviewMode::SuppressRequest {
            to_owned_string("[suppressed: blocked request]")
        } else {
            preview(request_body, self.body_chars)
        };
        let (response_detectors, status, response_preview) = match res {
            Some(x) => {
                let p = if preview_mode == PreviewMode::SuppressResponse {
                    to_owned_string("[suppressed: blocked response]")
                } else {
                    preview(x.body_text.as_str(), self.body_chars)
                };
                (Some(copy_results(&x.detector_results)), Some(x.status), Some(p))
            },
            None => (None, None, None),
        };
        let reason = match reason {
            Some(m) => Some(
                if preview_mode == PreviewMode::Normal {
                    sanitize_for_audit(m.as_str())
                } else {
                    to_owned_string("blocked by firewall policy")
                },
            ),
            None => None,
        };
        AuditRecord {
            event: to_owned_string(event),
            correlation_id: to_owned_string(req.correlation_id.as_str()),
            path: to_owned_string(req.path.as_str()),
            method: to_owned_string(req.method.as_str()),
            client_ip: copy_opt(&req.client_ip),
            api_key_hash,
            prompt_tokens: req.prompt_tokens,
            request_detectors: copy_results(&req.detector_results),
            response_detectors,
            status,
            request_preview,
            response_preview,
            reason,
        }
    }
}

} // verus!
