use vstd::prelude::*;

use crate::json::{entries_view, lemma_object_view, Json, JsonValue};
use crate::text::{push_all, to_owned_string};

verus! {

/// Why a configuration could not be loaded.
#[derive(Debug)]
pub enum ConfigError {
    /// Reading the file failed; the text is the I/O error's message.
    Io(String),
    /// The file is not valid YAML for the configuration; the text is the parser's message.
    Yaml(String),
    /// The configuration breaks one of the validation rules.
    Invalid(String),
}

/// HTTP 403 Forbidden.
pub const STATUS_FORBIDDEN: u16 = 403;

/// HTTP 429 Too Many Requests.
pub const STATUS_TOO_MANY_REQUESTS: u16 = 429;

/// A detector's verdict against a request or response.
#[derive(Debug)]
pub enum DetectorError {
    Blocked { detector: &'static str, reason: String, status: u16 },
    Failed { detector: &'static str, reason: String },
}

/// Why the proxy refused or could not complete a request.
#[derive(Debug)]
pub enum ProxyError {
    BodyTooLarge,
    PathNotAllowed,
    MethodNotAllowed,
    UnsupportedContentType,
    MissingBody,
    InvalidChatRequest(String),
    InvalidResponsesRequest(String),
    /// The body is not valid JSON; the text is the parser's message.
    InvalidJson(String),
    Detector(DetectorError),
    MissingUpstreamApiKey(String),
    /// The upstream call failed; the text is the client library's message.
    Upstream(String),
    ResponseTooLarge,
}

impl DetectorError {
    /// A block answered with 403.
    pub fn blocked(detector: &'static str, reason: String) -> (r: DetectorError)
        ensures
            r == (DetectorError::Blocked { detector, reason, status: STATUS_FORBIDDEN }),
    {
        DetectorError::Blocked { detector, reason, status: STATUS_FORBIDDEN }
    }

    /// A block answered with 429.
    pub fn rate_limited(detector: &'static str, reason: String) -> (r: DetectorError)
        ensures
            r == (DetectorError::Blocked { detector, reason, status: STATUS_TOO_MANY_REQUESTS }),
    {
        DetectorError::Blocked { detector, reason, status: STATUS_TOO_MANY_REQUESTS }
    }

    /// A detector that could not run.
    pub fn failed(detector: &'static str, reason: String) -> (r: DetectorError)
        ensures
            r == (DetectorError::Failed { detector, reason }),
    {
        DetectorError::Failed { detector, reason }
    }

    pub open spec fn message_spec(&self) -> Seq<char> {
        match self {
            DetectorError::Blocked { detector, reason, .. } => "blocked by "@ + detector@ + ": "@
                + reason@,
            DetectorError::Failed { detector, reason } => detector@ + " failed: "@ + reason@,
        }
    }

    /// The error's text: `blocked by {detector}: {reason}` or `{detector} failed: {reason}`.
    pub fn message(&self) -> (r: String)
        ensures
            r@ == self.message_spec(),
    {
        match self {
            DetectorError::Blocked { detector, reason, .. } => {
                let mut s = to_owned_string("blocked by ");
                push_all(&mut s, detector);
                push_all(&mut s, ": ");
                push_all(&mut s, reason.as_str());
                s
            },
            DetectorError::Failed { detector, reason } => {
                let mut s = to_owned_string(detector);
                push_all(&mut s, " failed: ");
                push_all(&mut s, reason.as_str());
                s
            },
        }
    }
}

impl ConfigError {
    pub open spec fn message_spec(&self) -> Seq<char> {
        match self {
            ConfigError::Io(m) => "I/O error: "@ + m@,
            ConfigError::Yaml(m) => "YAML error: "@ + m@,
            ConfigError::Invalid(m) => "invalid config: "@ + m@,
        }
    }

    /// The error's text.
    pub fn message(&self) -> (r: String)
        ensures
            r@ == self.message_spec(),
    {
        let (prefix, m) = match self {
            ConfigError::Io(m) => ("I/O error: ", m),
            ConfigError::Yaml(m) => ("YAML error: ", m),
            ConfigError::Invalid(m) => ("invalid config: ", m),
        };
        let mut s = to_owned_string(prefix);
        push_all(&mut s, m.as_str());
        s
    }
}

impl ProxyError {
    pub open spec fn status_spec(&self) -> u16 {
        match self {
            ProxyError::BodyTooLarge | ProxyError::ResponseTooLarge => 413,
            ProxyError::PathNotAllowed => 404,
            ProxyError::MethodNotAllowed => 405,
            ProxyError::UnsupportedContentType => 415,
            ProxyError::MissingBody
            | ProxyError::InvalidChatRequest(_)
            | ProxyError::InvalidResponsesRequest(_)
            | ProxyError::InvalidJson(_) => 400,
            ProxyError::Detector(DetectorError::Blocked { status, .. }) => *status,
            ProxyError::Detector(DetectorError::Failed { .. }) => 500,
            ProxyError::MissingUpstreamApiKey(_) => 500,
            ProxyError::Upstream(_) => 502,
        }
    }

    /// The HTTP status the client is answered with.
    pub fn status_code(&self) -> (r: u16)
        ensures
            r == self.status_spec(),
    {
        match self {
            ProxyError::BodyTooLarge | ProxyError::ResponseTooLarge => 413,
            ProxyError::PathNotAllowed => 404,
            ProxyError::MethodNotAllowed => 405,
            ProxyError::UnsupportedContentType => 415,
            ProxyError::MissingBody
            | ProxyError::InvalidChatRequest(_)
            | ProxyError::InvalidResponsesRequest(_)
            | ProxyError::InvalidJson(_) => 400,
            ProxyError::Detector(DetectorError::Blocked { status, .. }) => *status,
            ProxyError::Detector(DetectorError::Failed { .. }) => 500,
            ProxyError::MissingUpstreamApiKey(_) => 500,
            ProxyError::Upstream(_) => 502,
        }
    }

    pub open spec fn message_spec(&self) -> Seq<char> {
        match self {
            ProxyError::BodyTooLarge => "request body is too large"@,
            ProxyError::PathNotAllowed => "endpoint is not allowed by firewall policy"@,
            ProxyError::MethodNotAllowed => "method not allowed for this endpoint"@,
            ProxyError::UnsupportedContentType => "content-type must be application/json"@,
            ProxyError::MissingBody => "request body is required"@,
            ProxyError::InvalidChatRequest(m) => "invalid OpenAI chat completion request: "@ + m@,
            ProxyError::InvalidResponsesRequest(m) => "invalid OpenAI responses request: "@ + m@,
            ProxyError::InvalidJson(m) => "invalid JSON request body: "@ + m@,
            ProxyError::Detector(e) => "detector error: "@ + e.message_spec(),
            ProxyError::MissingUpstreamApiKey(v) =>
                "upstream API key is required but environment variable "@ + v@
                    + " is unset or empty"@,
            ProxyError::Upstream(m) => "upstream request failed: "@ + m@,
            ProxyError::ResponseTooLarge => "upstream response exceeded max_response_buffer"@,
        }
    }

    /// The error's full text.
    pub fn message(&self) -> (r: String)
        ensures
            r@ == self.message_spec(),
    {
        match self {
            ProxyError::BodyTooLarge => to_owned_string("request body is too large"),
            ProxyError::PathNotAllowed => to_owned_string(
                "endpoint is not allowed by firewall policy",
            ),
            ProxyError::MethodNotAllowed => to_owned_string("method not allowed for this endpoint"),
            ProxyError::UnsupportedContentType => to_owned_string(
                "content-type must be application/json",
            ),
            ProxyError::MissingBody => to_owned_string("request body is required"),
            ProxyError::InvalidChatRequest(m) => {
                let mut s = to_owned_string("invalid OpenAI chat completion request: ");
                push_all(&mut s, m.as_str());
                s
            },
            ProxyError::InvalidResponsesRequest(m) => {
                let mut s = to_owned_string("invalid OpenAI responses request: ");
                push_all(&mut s, m.as_str());
                s
            },
            ProxyError::InvalidJson(m) => {
                let mut s = to_owned_string("invalid JSON request body: ");
                push_all(&mut s, m.as_str());
                s
            },
            ProxyError::Detector(e) => {
                let mut s = to_owned_string("detector error: ");
                let d = e.message();
                push_all(&mut s, d.as_str());
                s
            },
            ProxyError::MissingUpstreamApiKey(v) => {
                let mut s = to_owned_string(
                    "upstream API key is required but environment variable ",
                );
                push_all(&mut s, v.as_str());
                push_all(&mut s, " is unset or empty");
                s
            },
            ProxyError::Upstream(m) => {
                let mut s = to_owned_string("upstream request failed: ");
                push_all(&mut s, m.as_str());
                s
            },
            ProxyError::ResponseTooLarge => to_owned_string(
                "upstream response exceeded max_response_buffer",
            ),
        }
    }

    pub open spec fn client_message_spec(&self) -> Seq<char> {
        match self {
            ProxyError::Detector(DetectorError::Blocked { detector, reason, .. }) =>
                "Blocked by firewall detector "@ + detector@ + ": "@ + reason@,
            ProxyError::MissingUpstreamApiKey(_) => "upstream authentication is not configured"@,
            ProxyError::Upstream(_) => "upstream request failed"@,
            _ => self.message_spec(),
        }
    }

    /// The message placed in the JSON error body sent to the client: blocks
    /// name the detector and its reason, upstream problems are not detailed.
    pub fn client_message(&self) -> (r: String)
        ensures
            r@ == self.client_message_spec(),
    {
        match self {
            ProxyError::Detector(DetectorError::Blocked { detector, reason, .. }) => {
                let mut s = to_owned_string("Blocked by firewall detector ");
                push_all(&mut s, detector);
                push_all(&mut s, ": ");
                push_all(&mut s, reason.as_str());
                s
            },
            ProxyError::MissingUpstreamApiKey(_) => to_owned_string(
                "upstream authentication is not configured",
            ),
            ProxyError::Upstream(_) => to_owned_string("upstream request failed"),
            _ => self.message(),
        }
    }

    /// The JSON error body sent to the client:
    /// `{"error": {"message": <client message>, "type": "llm_firewall_error"}}`.
    pub fn error_body(&self) -> (r: JsonValue)
        ensures
            r@ == Json::Object(
                seq![
                    (
                        "error"@,
                        Json::Object(
                            seq![
                                ("message"@, Json::Str(self.client_message_spec())),
                                ("type"@, Json::Str("llm_firewall_error"@)),
                            ],
                        ),
                    ),
                ],
            ),
    {
        let mut inner: Vec<(String, JsonValue)> = Vec::new();
        inner.push((to_owned_string("message"), JsonValue::Str(self.client_message())));
        inner.push((to_owned_string("type"), JsonValue::Str(to_owned_string("llm_firewall_error"))));
        proof {
            lemma_object_view(inner);
        }
        let inner_value = JsonValue::Object(inner);
        let mut outer: Vec<(String, JsonValue)> = Vec::new();
        outer.push((to_owned_string("error"), inner_value));
        proof {
            lemma_object_view(outer);
        }
        let r = JsonValue::Object(outer);
        proof {
            assert(entries_view(outer@) =~= seq![("error"@, inner_value@)]);
            assert(entries_view(inner@) =~= seq![
                ("message"@, Json::Str(self.client_message_spec())),
                ("type"@, Json::Str("llm_firewall_error"@)),
            ]);
        }
        r
    }
}

} // verus!
