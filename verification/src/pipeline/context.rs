use vstd::prelude::*;

use crate::errors::DetectorError;
use crate::json::{Json, JsonValue};

verus! {

/// What a detector did with a request or response.
#[derive(Debug, Clone, Copy, PartialEq, Eq, Structural)]
pub enum DetectorActionTaken {
    Pass,
    Block,
    Redact,
    Modify,
    LogOnly,
}

/// One detector's entry in the audit trail of a request or response.
#[derive(Debug, Clone)]
pub struct DetectorResult {
    pub detector: &'static str,
    pub action: DetectorActionTaken,
    pub reason: Option<String>,
}

/// An audit entry as plain values: detector name, action, reason.
pub open spec fn result_view(r: DetectorResult) -> (Seq<char>, DetectorActionTaken, Option<Seq<char>>) {
    (
        r.detector@,
        r.action,
        match r.reason {
            Some(s) => Some(s@),
            None => None,
        },
    )
}

pub open spec fn results_view(rs: Seq<DetectorResult>) -> Seq<
    (Seq<char>, DetectorActionTaken, Option<Seq<char>>),
> {
    Seq::new(rs.len(), |i: int| result_view(rs[i]))
}

pub proof fn lemma_results_push(rs: Seq<DetectorResult>, r: DetectorResult)
    ensures
        results_view(rs.push(r)) == results_view(rs).push(result_view(r)),
{
    assert(results_view(rs.push(r)) =~= results_view(rs).push(result_view(r)));
}

/// An audit trail as plain values.
pub type Trail = Seq<(Seq<char>, DetectorActionTaken, Option<Seq<char>>)>;

/// One detector's run: it let the request or response through and added
/// one entry that is no block, or it blocked and added the matching block
/// entry.
pub open spec fn step(before: Trail, after: Trail, r: Result<(), DetectorError>, name: Seq<char>) -> bool {
    match r {
        Ok(()) => {
            &&& after.len() == before.len() + 1
            &&& forall|i: int| 0 <= i < before.len() ==> #[trigger] after[i] == before[i]
            &&& after[before.len() as int].0 == name
            &&& after[before.len() as int].1 != DetectorActionTaken::Block
        },
        Err(DetectorError::Blocked { detector, reason, .. }) => {
            &&& detector@ == name
            &&& after == before.push((name, DetectorActionTaken::Block, Some(reason@)))
        },
        Err(DetectorError::Failed { .. }) => false,
    }
}

/// A request on its way through the detectors.
pub struct RequestContext {
    pub correlation_id: String,
    pub method: String,
    pub path: String,
    /// Request headers as name and value pairs.
    pub headers: Vec<(String, String)>,
    pub body: JsonValue,
    /// The client's address in text form, when known.
    pub client_ip: Option<String>,
    pub api_key: Option<String>,
    pub modified_body: Option<JsonValue>,
    pub detector_results: Vec<DetectorResult>,
    pub prompt_tokens: usize,
}

/// An upstream response on its way back through the detectors.
pub struct ResponseContext {
    pub correlation_id: String,
    pub status: u16,
    /// Response headers as name and value pairs.
    pub headers: Vec<(String, String)>,
    pub body_text: String,
    pub is_stream: bool,
    pub override_response: Option<String>,
    pub detector_results: Vec<DetectorResult>,
}

impl RequestContext {
    /// The body detectors see: the modified body once a detector has set one.
    pub open spec fn current_body_spec(&self) -> JsonValue {
        match self.modified_body {
            Some(b) => b,
            None => self.body,
        }
    }

    pub open spec fn current_view(&self) -> Json {
        self.current_body_spec()@
    }

    pub open spec fn results(&self) -> Seq<(Seq<char>, DetectorActionTaken, Option<Seq<char>>)> {
        results_view(self.detector_results@)
    }

    /// The fields that detectors never touch.
    pub open spec fn same_request(&self, other: &RequestContext) -> bool {
        &&& self.correlation_id == other.correlation_id
        &&& self.method == other.method
        &&& self.path == other.path
        &&& self.headers == other.headers
        &&& self.body == other.body
        &&& self.client_ip == other.client_ip
        &&& self.api_key == other.api_key
    }

    pub fn current_body(&self) -> (r: &JsonValue)
        ensures
            *r == self.current_body_spec(),
    {
        match &self.modified_body {
            Some(b) => b,
            None => &self.body,
        }
    }

    /// The body to modify in place; a copy of the original body becomes the
    /// modified body when there is none yet.
    pub fn current_body_mut(&mut self) -> (r: &mut JsonValue)
        ensures
            (*r)@ == old(self).current_view(),
            final(self).modified_body == Some(*final(r)),
            final(self).same_request(old(self)),
            final(self).detector_results == old(self).detector_results,
            final(self).prompt_tokens == old(self).prompt_tokens,
    {
        if self.modified_body.is_none() {
            self.modified_body = Some(self.body.deep_clone());
        }
        match &mut self.modified_body {
            Some(b) => b,
            None => {
                proof {
                    assert(false);
                }
                &mut self.body
            },
        }
    }

    /// Records that `detector` let the request pass.
    pub fn record_pass(&mut self, detector: &'static str)
        ensures
            final(self).results() == old(self).results().push((detector@, DetectorActionTaken::Pass, None)),
            final(self).same_request(old(self)),
            final(self).modified_body == old(self).modified_body,
            final(self).prompt_tokens == old(self).prompt_tokens,
    {
        let r = DetectorResult { detector, action: DetectorActionTaken::Pass, reason: None };
        proof {
            lemma_results_push(self.detector_results@, r);
        }
        self.detector_results.push(r);
    }

    /// Records what `detector` did and why.
    pub fn record(&mut self, detector: &'static str, action: DetectorActionTaken, reason: String)
        ensures
            final(self).results() == old(self).results().push((detector@, action, Some(reason@))),
            final(self).same_request(old(self)),
            final(self).modified_body == old(self).modified_body,
            final(self).prompt_tokens == old(self).prompt_tokens,
    {
        let r = DetectorResult { detector, action, reason: Some(reason) };
        proof {
            lemma_results_push(self.detector_results@, r);
        }
        self.detector_results.push(r);
    }
}

impl ResponseContext {
    pub open spec fn results(&self) -> Seq<(Seq<char>, DetectorActionTaken, Option<Seq<char>>)> {
        results_view(self.detector_results@)
    }

    /// The fields that detectors never touch.
    pub open spec fn same_response(&self, other: &ResponseContext) -> bool {
        &&& self.correlation_id == other.correlation_id
        &&& self.status == other.status
        &&& self.headers == other.headers
        &&& self.is_stream == other.is_stream
        &&& self.override_response == other.override_response
    }

    /// Records that `detector` let the response pass.
    pub fn record_pass(&mut self, detector: &'static str)
        ensures
            final(self).results() == old(self).results().push((detector@, DetectorActionTaken::Pass, None)),
            final(self).same_response(old(self)),
            final(self).body_text == old(self).body_text,
    {
        let r = DetectorResult { detector, action: DetectorActionTaken::Pass, reason: None };
        proof {
            lemma_results_push(self.detector_results@, r);
        }
        self.detector_results.push(r);
    }

    /// Records what `detector` did and why.
    pub fn record(&mut self, detector: &'static str, action: DetectorActionTaken, reason: String)
        ensures
            final(self).results() == old(self).results().push((detector@, action, Some(reason@))),
            final(self).same_response(old(self)),
            final(self).body_text == old(self).body_text,
    {
        let r = DetectorResult { detector, action, reason: Some(reason) };
        proof {
            lemma_results_push(self.detector_results@, r);
        }
        self.detector_results.push(r);
    }
}

} // verus!
