use vstd::prelude::*;
use vstd::utf8::{decode_utf8, valid_utf8};

use crate::config::ServerConfig;
use crate::detectors::prompt::strings_view;
use crate::errors::{DetectorError, ProxyError};
use crate::json::{Json, JsonValue};
use crate::pipeline::context::{results_view, DetectorActionTaken, RequestContext, ResponseContext};
use crate::pipeline::engine::{lemma_run_ok, request_run, run_outcome, Pipeline};
use crate::proxy::handler::{
    admit_holds, admit_refused, admit_request, bearer_spec, bearer_token, correlation_id, header_get,
    headers_view, is_stream_response, parsed_view, response_body, response_headers,
    response_headers_spec, response_status, stream_spec, uuid_v4_text,
};
use crate::proxy::upstream::{forwarded_headers, upstream_url, ForwardPlan, UpstreamClient};
use crate::text::{all_ws, to_owned_string};
use crate::utils::audit::{audit_record_of, AuditLogger, AuditRecord, PreviewMode};
use crate::utils::metrics::{bump, counts, Metrics};

verus! {

/// What `String::from_utf8_lossy` makes of the bytes.
pub uninterp spec fn utf8_lossy(bytes: Seq<u8>) -> Seq<char>;

/// `String::from_utf8_lossy`: the bytes as text, invalid sequences replaced
/// by U+FFFD. Stated besides the name: valid UTF-8 comes back as it is.
#[verifier::external_body]
fn lossy_text(bytes: &[u8]) -> (r: String)
    ensures
        r@ == utf8_lossy(bytes@),
        valid_utf8(bytes@) ==> r@ == decode_utf8(bytes@),
{
    String::from_utf8_lossy(bytes).into_owned()
}

/// A request run of `p0` that left `p1`, started from a context with no
/// modified body, no entries and no token estimate, left `c1`, and ended
/// with `r`.
pub open spec fn request_ran(p0: Pipeline, p1: Pipeline, c1: RequestContext, r: Result<(), DetectorError>) -> bool {
    exists|ps: Seq<Pipeline>, ctxs: Seq<RequestContext>, rs: Seq<Result<(), DetectorError>>|
        #[trigger] request_run(p0, p1, ps, ctxs, rs) && ctxs[0].modified_body is None
            && ctxs[0].results() == Seq::<(Seq<char>, DetectorActionTaken, Option<Seq<char>>)>::empty()
            && ctxs[0].prompt_tokens == 0 && ctxs[0].same_request(&c1) && ctxs.last() == c1
            && r == (if rs.len() > 0 && rs.last() is Err {
            rs.last()
        } else {
            Ok(())
        })
}

/// The context the response detectors start from: the request's
/// correlation id, the upstream's status and headers, the body text, whether
/// the response is handled as a stream, no override and no entries yet.
pub open spec fn response_start(
    c: ResponseContext,
    req: RequestContext,
    status: u16,
    headers: Seq<(Seq<char>, Seq<char>)>,
    text: Seq<char>,
) -> bool {
    &&& c.correlation_id@ == req.correlation_id@
    &&& c.status == status
    &&& headers_view(c.headers@) == headers
    &&& c.body_text@ == text
    &&& c.is_stream == stream_spec(headers, req.current_view())
    &&& c.override_response is None
    &&& c.results() == Seq::<(Seq<char>, DetectorActionTaken, Option<Seq<char>>)>::empty()
}

/// Whether `extra` more bytes still fit under a limit of `max`.
pub fn fits_within(current: usize, extra: usize, max: usize) -> (r: bool)
    ensures
        r == (current + extra <= max),
{
    current <= max && extra <= max - current
}

fn copy_pairs(v: &Vec<(String, String)>) -> (r: Vec<(String, String)>)
    ensures
        headers_view(r@) == headers_view(v@),
{
    let mut out: Vec<(String, String)> = Vec::new();
    let mut i: usize = 0;
    while i < v.len()
        invariant
            i <= v.len(),
            headers_view(out@) == headers_view(v@.take(i as int)),
        decreases v.len() - i,
    {
        let ghost before = out@;
        let pair = (to_owned_string(v[i].0.as_str()), to_owned_string(v[i].1.as_str()));
        out.push(pair);
        proof {
            assert(headers_view(out@) =~= headers_view(before).push((v@[i as int].0@, v@[i as int].1@)));
            assert(headers_view(v@.take(i + 1)) =~= headers_view(v@.take(i as int)).push(
                (v@[i as int].0@, v@[i as int].1@),
            ));
        }
        i += 1;
    }
    assert(v@.take(v.len() as int) =~= v@);
    out
}

pub open spec fn opt_text(o: Option<String>) -> Option<Seq<char>> {
    match o {
        Some(s) => Some(s@),
        None => None,
    }
}

fn copy_opt_string(o: &Option<String>) -> (r: Option<String>)
    ensures
        opt_text(r) == opt_text(*o),
{
    match o {
        Some(s) => Some(to_owned_string(s.as_str())),
        None => None,
    }
}

/// A request as it arrived.
pub struct IncomingRequest {
    pub method: String,
    /// The path without its query.
    pub path: String,
    pub path_and_query: String,
    pub headers: Vec<(String, String)>,
    pub body: Vec<u8>,
    pub client_ip: Option<String>,
}

/// What to do with a request.
pub enum RequestDecision {
    /// Answer the client with the error; nothing goes upstream.
    Reject { error: ProxyError, audit: Option<AuditRecord> },
    /// Send the request upstream as planned: the original body, or the
    /// current body of `ctx` when `reserialize` is set.
    Forward { ctx: RequestContext, plan: ForwardPlan, reserialize: bool },
}

/// What to answer once the upstream has responded.
pub enum ResponseDecision {
    Reject { error: ProxyError, audit: Option<AuditRecord> },
    Respond { status: u16, headers: Vec<(String, String)>, body: String, audit: AuditRecord },
}

/// The counters after one more request started and one more count of
/// `which` (when given).
pub open spec fn counted(before: Metrics, which: Option<int>) -> Seq<u64> {
    let started = counts(before).update(0, bump(before.requests_started));
    match which {
        Some(k) => started.update(k, bump(counts(before)[k])),
        None => started,
    }
}

/// The counters after one more count of `k`.
pub open spec fn counted_once(before: Metrics, k: int) -> Seq<u64> {
    counts(before).update(k, bump(counts(before)[k]))
}

/// The proxy's state: its settings, detectors, upstream, audit and counters.
pub struct ProxyCore {
    pub server: ServerConfig,
    pub pipeline: Pipeline,
    pub upstream: UpstreamClient,
    pub audit: AuditLogger,
    pub metrics: Metrics,
}

impl ProxyCore {
    pub open spec fn wf(&self) -> bool {
        self.pipeline.wf()
    }

    /// Everything but the counters and the detectors' own state is kept.
    pub open spec fn same_settings(&self, other: &ProxyCore) -> bool {
        &&& self.server == other.server
        &&& self.upstream == other.upstream
        &&& self.audit == other.audit
        &&& self.pipeline.request_names() == other.pipeline.request_names()
        &&& self.pipeline.response_first_names() == other.pipeline.response_first_names()
        &&& self.pipeline.response_rest_names() == other.pipeline.response_rest_names()
    }

    /// Decides what happens to a request. `body_fits` tells whether the body
    /// stayed within `max_body_size` while it was read, `parsed` is the JSON
    /// parse of the body and `env_key` the value of the upstream key's
    /// environment variable. A body too large, a refused request, a
    /// detector block or a missing required upstream key answers the client
    /// without calling the upstream; otherwise the request is forwarded.
    pub fn begin_request(
        &mut self,
        req: &IncomingRequest,
        body_fits: bool,
        parsed: &Result<JsonValue, String>,
        env_key: Option<String>,
    ) -> (d: RequestDecision)
        requires
            old(self).wf(),
        ensures
            final(self).wf(),
            final(self).same_settings(old(self)),
            ({
                let refused = admit_refused(
                    strings_view(old(self).server.allowed_paths@),
                    old(self).server.strict_chat_validation,
                    req.method@,
                    req.path@,
                    headers_view(req.headers@),
                    req.body@,
                    parsed_view(*parsed),
                );
                let key_ok = env_key matches Some(k) && !all_ws(k@);
                if !body_fits {
                    &&& d matches RequestDecision::Reject { error: ProxyError::BodyTooLarge, audit: None }
                    &&& counts(final(self).metrics) == counted(old(self).metrics, Some(6))
                    &&& final(self).pipeline == old(self).pipeline
                } else if refused {
                    &&& d matches RequestDecision::Reject { error, audit: None }
                    &&& admit_holds(
                        strings_view(old(self).server.allowed_paths@),
                        old(self).server.strict_chat_validation,
                        req.method@,
                        req.path@,
                        headers_view(req.headers@),
                        req.body@,
                        parsed_view(*parsed),
                        Err(error),
                    )
                    &&& counts(final(self).metrics) == counted(old(self).metrics, Some(4))
                    &&& final(self).pipeline == old(self).pipeline
                } else {
                    match d {
                        RequestDecision::Reject { error: ProxyError::Detector(e), audit: Some(rec) } => {
                            &&& run_outcome(
                                Seq::empty(),
                                results_view(rec.request_detectors@),
                                Err(e),
                                old(self).pipeline.request_names(),
                            )
                            &&& exists|c1: RequestContext|
                                #[trigger] request_ran(old(self).pipeline, final(self).pipeline, c1, Err(e))
                                    && results_view(rec.request_detectors@) == c1.results()
                                    && audit_record_of(
                                    old(self).audit,
                                    "blocked_request"@,
                                    c1,
                                    ""@,
                                    None,
                                    Some(e.message_spec()),
                                    PreviewMode::SuppressRequest,
                                    rec,
                                )
                            &&& rec.event@ == "blocked_request"@
                            &&& rec.request_preview@ == "[suppressed: blocked request]"@
                            &&& counts(final(self).metrics) == counted(old(self).metrics, Some(2))
                        },
                        RequestDecision::Reject { error: ProxyError::MissingUpstreamApiKey(n), audit: None } => {
                            &&& !key_ok && old(self).upstream.require_api_key
                            &&& n@ == old(self).upstream.api_key_env@
                            &&& counts(final(self).metrics) == counted(old(self).metrics, Some(5))
                        },
                        RequestDecision::Forward { ctx, plan, reserialize } => {
                            &&& run_outcome(
                                Seq::empty(),
                                ctx.results(),
                                Ok(()),
                                old(self).pipeline.request_names(),
                            )
                            &&& admit_holds(
                                strings_view(old(self).server.allowed_paths@),
                                old(self).server.strict_chat_validation,
                                req.method@,
                                req.path@,
                                headers_view(req.headers@),
                                req.body@,
                                parsed_view(*parsed),
                                Ok(ctx.body),
                            )
                            &&& request_ran(old(self).pipeline, final(self).pipeline, ctx, Ok(()))
                            &&& match header_get(headers_view(req.headers@), "x-correlation-id"@) {
                                Some(v) => ctx.correlation_id@ == v,
                                None => uuid_v4_text(ctx.correlation_id@),
                            }
                            &&& ctx.method@ == req.method@
                            &&& ctx.path@ == req.path_and_query@
                            &&& headers_view(ctx.headers@) == headers_view(req.headers@)
                            &&& opt_text(ctx.client_ip) == opt_text(req.client_ip)
                            &&& match ctx.api_key {
                                Some(k) => bearer_spec(headers_view(req.headers@)) == Some(k@),
                                None => bearer_spec(headers_view(req.headers@)) is None,
                            }
                            &&& plan.url@ == upstream_url(old(self).upstream.base_url@, req.path_and_query@)
                            &&& headers_view(plan.headers@) == forwarded_headers(headers_view(req.headers@))
                            &&& (key_ok || !old(self).upstream.require_api_key)
                            &&& (plan.bearer is Some <==> key_ok)
                            &&& (plan.bearer matches Some(b) ==> (env_key matches Some(k) && b@ == k@))
                            &&& reserialize == ctx.modified_body is Some
                            &&& counts(final(self).metrics) == counted(old(self).metrics, None)
                        },
                        _ => false,
                    }
                }
            }),
    {
        self.metrics.request_started();
        if !body_fits {
            self.metrics.proxy_error();
            return RequestDecision::Reject { error: ProxyError::BodyTooLarge, audit: None };
        }
        let cid = correlation_id(&req.headers);
        let api_key = bearer_token(&req.headers);
        let body = match admit_request(
            &self.server,
            req.method.as_str(),
            req.path.as_str(),
            &req.headers,
            req.body.as_slice(),
            parsed,
        ) {
            Ok(b) => b,
            Err(e) => {
                self.metrics.validation_error();
                return RequestDecision::Reject { error: e, audit: None };
            },
        };
        let mut ctx = RequestContext {
            correlation_id: cid,
            method: to_owned_string(req.method.as_str()),
            path: to_owned_string(req.path_and_query.as_str()),
            headers: copy_pairs(&req.headers),
            body,
            client_ip: copy_opt_string(&req.client_ip),
            api_key,
            modified_body: None,
            detector_results: Vec::new(),
            prompt_tokens: 0,
        };
        assert(ctx.results() =~= Seq::empty());
        let ghost names = self.pipeline.request_names();
        let ghost c0 = ctx;
        let ran = self.pipeline.run_request(&mut ctx);
        match ran {
            Ok(()) => {
                proof {
                    lemma_run_ok(Seq::empty(), ctx.results(), ran, names);
                    assert(request_ran(old(self).pipeline, self.pipeline, ctx, Ok(())));
                }
            },
            Err(err) => {
                proof {
                    assert(request_ran(old(self).pipeline, self.pipeline, ctx, Err(err)));
                }
                self.metrics.request_blocked();
                let rec = self.audit.record(
                    "blocked_request",
                    &ctx,
                    "",
                    None,
                    Some(err.message()),
                    PreviewMode::SuppressRequest,
                );
                return RequestDecision::Reject { error: ProxyError::Detector(err), audit: Some(rec) };
            },
        }
        match self.upstream.prepare_forward(req.path_and_query.as_str(), &req.headers, env_key) {
            Ok(plan) => {
                let reserialize = ctx.modified_body.is_some();
                RequestDecision::Forward { ctx, plan, reserialize }
            },
            Err(e) => {
                self.metrics.upstream_error();
                RequestDecision::Reject { error: e, audit: None }
            },
        }
    }

    /// Reading the upstream body failed with `message`: the client is
    /// answered 502, and the failure counts as a proxy error.
    pub fn response_read_failed(&mut self, message: String) -> (r: ProxyError)
        ensures
            r matches ProxyError::Upstream(m) && m@ == message@,
            counts(final(self).metrics) == counted_once(old(self).metrics, 6),
            final(self).same_settings(old(self)),
            final(self).pipeline == old(self).pipeline,
    {
        self.metrics.proxy_error();
        ProxyError::Upstream(message)
    }

    /// The upstream call failed with `message`: the client is answered 502.
    pub fn upstream_failed(&mut self, message: String) -> (r: ProxyError)
        ensures
            r matches ProxyError::Upstream(m) && m@ == message@,
            counts(final(self).metrics) == counted_once(old(self).metrics, 5),
            final(self).same_settings(old(self)),
            final(self).pipeline == old(self).pipeline,
    {
        self.metrics.upstream_error();
        ProxyError::Upstream(message)
    }

    /// Decides what the client receives once the upstream has answered with
    /// `status`, `headers` and the body bytes (`body_fits` tells whether they
    /// stayed within `max_response_buffer`). The response detectors run on
    /// the body text; a block answers with the error, otherwise the
    /// (possibly redacted) body goes out with the firewall's headers.
    /// `request_body` is the text of the request's current body, for the
    /// audit preview, and `parse` reads tool-call payloads as JSON.
    pub fn finish_response<F: Fn(&str) -> Option<JsonValue>>(
        &mut self,
        req: &RequestContext,
        request_body: &str,
        status: u16,
        headers: &Vec<(String, String)>,
        body_fits: bool,
        body: &[u8],
        parse: F,
    ) -> (d: ResponseDecision)
        requires
            old(self).wf(),
            forall|t: &str| call_requires(parse, (t,)),
        ensures
            final(self).wf(),
            final(self).same_settings(old(self)),
            if !body_fits {
                &&& d matches ResponseDecision::Reject { error: ProxyError::ResponseTooLarge, audit: None }
                &&& counts(final(self).metrics) == counted_once(old(self).metrics, 6)
            } else {
                let is_stream = stream_spec(headers_view(headers@), req.current_view());
                let names = old(self).pipeline.response_first_names()
                    + old(self).pipeline.response_rest_names();
                match d {
                    ResponseDecision::Reject { error: ProxyError::Detector(e), audit: Some(rec) } => {
                        &&& rec.response_detectors matches Some(rd) && run_outcome(
                            Seq::empty(),
                            results_view(rd@),
                            Err(e),
                            names,
                        )
                        &&& exists|c0: ResponseContext, c1: ResponseContext|
                            #[trigger] old(self).pipeline.response_run(parse, c0, c1, Err(e))
                                && response_start(
                                c0,
                                *req,
                                status,
                                headers_view(headers@),
                                utf8_lossy(body@),
                            ) && audit_record_of(
                                old(self).audit,
                                "blocked_response"@,
                                *req,
                                request_body@,
                                Some(c1),
                                Some(e.message_spec()),
                                PreviewMode::SuppressResponse,
                                rec,
                            )
                        &&& rec.event@ == "blocked_response"@
                        &&& opt_text(rec.response_preview) == Some(
                            "[suppressed: blocked response]"@,
                        )
                        &&& counts(final(self).metrics) == counted_once(old(self).metrics, 3)
                    },
                    ResponseDecision::Respond { status: s, headers: h, body: b, audit: rec } => {
                        &&& s == if 100 <= status <= 999 {
                            status
                        } else {
                            502
                        }
                        &&& headers_view(h@) == response_headers_spec(
                            headers_view(headers@),
                            is_stream,
                            req.correlation_id@,
                        )
                        &&& rec.response_detectors matches Some(rd) && run_outcome(
                            Seq::empty(),
                            results_view(rd@),
                            Ok(()),
                            names,
                        )
                        &&& exists|c0: ResponseContext, c1: ResponseContext|
                            #[trigger] old(self).pipeline.response_run(parse, c0, c1, Ok(()))
                                && response_start(
                                c0,
                                *req,
                                status,
                                headers_view(headers@),
                                utf8_lossy(body@),
                            ) && b@ == c1.body_text@ && audit_record_of(
                                old(self).audit,
                                "allowed"@,
                                *req,
                                request_body@,
                                Some(c1),
                                None,
                                PreviewMode::Normal,
                                rec,
                            )
                        &&& rec.event@ == "allowed"@
                        &&& counts(final(self).metrics) == counted_once(old(self).metrics, 1)
                    },
                    _ => false,
                }
            },
    {
        if !body_fits {
            self.metrics.proxy_error();
            return ResponseDecision::Reject { error: ProxyError::ResponseTooLarge, audit: None };
        }
        let body_text = lossy_text(body);
        let is_stream = is_stream_response(headers, req.current_body());
        let mut ctx = ResponseContext {
            correlation_id: to_owned_string(req.correlation_id.as_str()),
            status,
            headers: copy_pairs(headers),
            body_text,
            is_stream,
            override_response: None,
            detector_results: Vec::new(),
        };
        assert(ctx.results() =~= Seq::empty());
        let ghost c0 = ctx;
        let ghost names = self.pipeline.response_first_names() + self.pipeline.response_rest_names();
        let ran = self.pipeline.run_response(&mut ctx, parse);
        match ran {
            Ok(()) => {
                proof {
                    lemma_run_ok(Seq::empty(), ctx.results(), ran, names);
                }
            },
            Err(err) => {
                proof {
                    assert(response_start(c0, *req, status, headers_view(headers@), utf8_lossy(body@)));
                    assert(self.pipeline.response_run(parse, c0, ctx, Err(err)));
                }
                self.metrics.response_blocked();
                let rec = self.audit.record(
                    "blocked_response",
                    req,
                    request_body,
                    Some(&ctx),
                    Some(err.message()),
                    PreviewMode::SuppressResponse,
                );
                return ResponseDecision::Reject { error: ProxyError::Detector(err), audit: Some(rec) };
            },
        }
        proof {
            assert(response_start(c0, *req, status, headers_view(headers@), utf8_lossy(body@)));
            assert(ran == Ok::<(), DetectorError>(())) by {
                if let Ok(u) = ran {
                    assert(u == ());
                }
            }
            assert(self.pipeline.response_run(parse, c0, ctx, Ok(())));
            assert(ctx.override_response is None);
        }
        self.metrics.request_allowed();
        let rec = self.audit.record("allowed", req, request_body, Some(&ctx), None, PreviewMode::Normal);
        let out_headers = response_headers(headers, is_stream, req.correlation_id.as_str());
        let out_body = response_body(&ctx);
        assert(out_body@ == ctx.body_text@);
        ResponseDecision::Respond { status: response_status(status), headers: out_headers, body: out_body, audit: rec }
    }
}

} // verus!
