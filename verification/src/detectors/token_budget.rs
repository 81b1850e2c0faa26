use vstd::prelude::*;
use vstd::utf8::encode_utf8;

use dashmap::DashMap;
use std::time::Instant;

use crate::config::TokenBudgetConfig;
use crate::errors::{DetectorError, STATUS_FORBIDDEN};
use crate::pipeline::context::{step, DetectorActionTaken, RequestContext, ResponseContext};
use crate::text::{decimal, push_all, push_decimal, to_owned_string};
use crate::utils::audit::{hash_secret, hex_of, sha256_digest};
use crate::utils::token_counter::{estimate_prompt_tokens, prompt_tokens_spec, saturate};

verus! {

#[verifier::external_type_specification]
#[verifier::external_body]
#[verifier::reject_recursive_types(K)]
#[verifier::reject_recursive_types(V)]
#[verifier::reject_recursive_types(S)]
pub struct ExDashMap<K, V, S>(dashmap::DashMap<K, V, S>);

#[verifier::external_type_specification]
#[verifier::external_body]
pub struct ExInstant(std::time::Instant);

/// A principal's window start and tokens used, by principal.
pub type UsageMap = DashMap<String, (u128, usize)>;

/// What a usage map holds: for each principal, the start of its window (in
/// nanoseconds since the detector was made) and the tokens used in it.
pub uninterp spec fn usage_contents(m: UsageMap) -> Map<Seq<char>, (u128, usize)>;

/// `DashMap::new`: an empty map.
#[verifier::external_body]
fn usage_new() -> (r: UsageMap)
    ensures
        usage_contents(r) =~= Map::empty(),
{
    DashMap::new()
}

/// `DashMap::get`, copying out the value held for `key`, if any.
#[verifier::external_body]
fn usage_get(m: &UsageMap, key: &str) -> (r: Option<(u128, usize)>)
    ensures
        r == (if usage_contents(*m).dom().contains(key@) {
            Some(usage_contents(*m)[key@])
        } else {
            None
        }),
{
    m.get(key).map(|e| *e.value())
}

/// `DashMap::insert`: the map afterwards holds `value` for `key` and is
/// otherwise unchanged.
#[verifier::external_body]
fn usage_insert(m: &mut UsageMap, key: String, value: (u128, usize))
    ensures
        usage_contents(*final(m)) == usage_contents(*old(m)).insert(key@, value),
{
    m.insert(key, value);
}

/// `Instant::now`. Nothing is stated of the instant.
#[verifier::external_body]
fn clock_now() -> Instant {
    Instant::now()
}

/// Nanoseconds elapsed since `epoch` (`Instant::elapsed`), a reading of the
/// clock: nothing is stated of its value.
#[verifier::external_body]
fn nanos_since(epoch: &Instant) -> u128 {
    epoch.elapsed().as_nanos()
}

/// Who a request is counted against: the hash of its API key, else its
/// client address, else `anonymous`.
pub open spec fn principal_spec(api_key: Option<String>, client_ip: Option<String>) -> Seq<char> {
    match api_key {
        Some(k) => hex_of(sha256_digest(encode_utf8(k@))),
        None => match client_ip {
            Some(ip) => ip@,
            None => "anonymous"@,
        },
    }
}

/// The principal a request is counted against.
pub fn principal(ctx: &RequestContext) -> (r: String)
    ensures
        r@ == principal_spec(ctx.api_key, ctx.client_ip),
{
    match &ctx.api_key {
        Some(k) => hash_secret(k.as_str()),
        None => match &ctx.client_ip {
            Some(ip) => to_owned_string(ip.as_str()),
            None => to_owned_string("anonymous"),
        },
    }
}

/// The window a principal is in at `now`: a fresh one when it has none or
/// when more than `window` nanoseconds have passed since its start.
pub open spec fn current_window(old: Option<(u128, usize)>, now: u128, window: u128) -> (u128, usize) {
    match old {
        Some((start, used)) => if (if now >= start {
            now - start
        } else {
            0
        }) > window {
            (now, 0)
        } else {
            (start, used)
        },
        None => (now, 0),
    }
}

pub open spec fn request_reason(tokens: int, limit: int) -> Seq<char> {
    "request used "@ + decimal(tokens as nat) + " estimated tokens, limit is "@ + decimal(
        limit as nat,
    )
}

pub open spec fn window_reason(total: int, limit: int) -> Seq<char> {
    "token window would use "@ + decimal(total as nat) + " estimated tokens, limit is "@
        + decimal(limit as nat)
}

/// What judging a request at time `now` does: the estimate is recorded;
/// a request over the per-request limit is blocked with 403 and leaves the
/// usage as it was; otherwise the principal's window (fresh when absent or
/// expired) is kept, and the request is blocked with 403 when the window
/// would go over its limit, else its tokens are added and it passes.
pub open spec fn budget_outcome(
    before: TokenBudgetDetector,
    after: TokenBudgetDetector,
    ctx_before: RequestContext,
    ctx_after: RequestContext,
    r: Result<(), DetectorError>,
    now: u128,
) -> bool {
    let tokens = saturate(prompt_tokens_spec(ctx_before.current_view()));
    let p = principal_spec(ctx_before.api_key, ctx_before.client_ip);
    let u = before.usage();
    let w = current_window(
        if u.dom().contains(p) {
            Some(u[p])
        } else {
            None
        },
        now,
        before.window(),
    );
    &&& ctx_after.prompt_tokens == tokens
    &&& if tokens > before.max_request() {
        &&& r matches Err(DetectorError::Blocked { detector, reason, status })
            && detector@ == "token_budget"@ && reason@ == request_reason(
            tokens as int,
            before.max_request() as int,
        ) && status == STATUS_FORBIDDEN
        &&& after.usage() == u
        &&& ctx_after.results() == ctx_before.results().push(
            (
                "token_budget"@,
                DetectorActionTaken::Block,
                Some(request_reason(tokens as int, before.max_request() as int)),
            ),
        )
    } else if w.1 + tokens > before.max_window() {
        &&& r matches Err(DetectorError::Blocked { detector, reason, status })
            && detector@ == "token_budget"@ && reason@ == window_reason(
            w.1 + tokens,
            before.max_window() as int,
        ) && status == STATUS_FORBIDDEN
        &&& after.usage() == u.insert(p, w)
        &&& ctx_after.results() == ctx_before.results().push(
            (
                "token_budget"@,
                DetectorActionTaken::Block,
                Some(window_reason(w.1 + tokens, before.max_window() as int)),
            ),
        )
    } else {
        &&& r is Ok
        &&& after.usage() == u.insert(p, (w.0, (w.1 + tokens) as usize))
        &&& ctx_after.results() == ctx_before.results().push(
            ("token_budget"@, DetectorActionTaken::Pass, None),
        )
    }
}

/// Caps the estimated tokens of one request and of each principal's
/// requests within a time window.
pub struct TokenBudgetDetector {
    max_request_tokens: usize,
    max_window_tokens: usize,
    window_nanos: u128,
    epoch: Instant,
    usage: UsageMap,
}

impl TokenBudgetDetector {
    pub closed spec fn max_request(&self) -> usize {
        self.max_request_tokens
    }

    pub closed spec fn max_window(&self) -> usize {
        self.max_window_tokens
    }

    /// The window's length in nanoseconds.
    pub closed spec fn window(&self) -> u128 {
        self.window_nanos
    }

    /// Each principal's window start and tokens used.
    pub closed spec fn usage(&self) -> Map<Seq<char>, (u128, usize)> {
        usage_contents(self.usage)
    }

    /// No principal's window holds more tokens than the window allows.
    pub open spec fn wf(&self) -> bool {
        forall|p: Seq<char>| #[trigger]
            self.usage().dom().contains(p) ==> self.usage()[p].1 <= self.max_window()
    }

    pub fn new(config: &TokenBudgetConfig) -> (r: TokenBudgetDetector)
        ensures
            r.wf(),
            r.max_request() == config.max_request_tokens,
            r.max_window() == config.max_window_tokens,
            r.window() == config.window_secs as int * 1_000_000_000,
            r.usage() == Map::<Seq<char>, (u128, usize)>::empty(),
    {
        let window_nanos = config.window_secs as u128 * 1_000_000_000u128;
        TokenBudgetDetector {
            max_request_tokens: config.max_request_tokens,
            max_window_tokens: config.max_window_tokens,
            window_nanos,
            epoch: clock_now(),
            usage: usage_new(),
        }
    }

    pub fn name(&self) -> (r: &'static str)
        ensures
            r@ == "token_budget"@,
    {
        "token_budget"
    }

    /// Reads the clock, then judges the request at that time.
    pub fn inspect_request(&mut self, ctx: &mut RequestContext) -> (r: Result<(), DetectorError>)
        requires
            old(self).wf(),
        ensures
            step(old(ctx).results(), final(ctx).results(), r, "token_budget"@),
            final(self).wf(),
            final(ctx).same_request(old(ctx)),
            final(ctx).modified_body == old(ctx).modified_body,
            final(ctx).prompt_tokens == saturate(prompt_tokens_spec(old(ctx).current_view())),
            exists|now: u128| budget_outcome(*old(self), *final(self), *old(ctx), *final(ctx), r, now),
    {
        let now = nanos_since(&self.epoch);
        let r = self.inspect_request_at(ctx, now);
        assert(budget_outcome(*old(self), *self, *old(ctx), *ctx, r, now));
        r
    }

    /// Estimates the request's tokens and records the estimate. A request
    /// over the per-request limit is blocked with 403. Otherwise the
    /// principal's window (fresh when absent or expired) is kept, and the
    /// request is blocked with 403 when the window would go over its limit,
    /// else its tokens are added to the window and it passes.
    pub fn inspect_request_at(&mut self, ctx: &mut RequestContext, now: u128) -> (r: Result<
        (),
        DetectorError,
    >)
        requires
            old(self).wf(),
        ensures
            step(old(ctx).results(), final(ctx).results(), r, "token_budget"@),
            final(self).wf(),
            final(self).max_request() == old(self).max_request(),
            final(self).max_window() == old(self).max_window(),
            final(self).window() == old(self).window(),
            final(ctx).same_request(old(ctx)),
            final(ctx).modified_body == old(ctx).modified_body,
            budget_outcome(*old(self), *final(self), *old(ctx), *final(ctx), r, now),
    {
        let tokens = estimate_prompt_tokens(ctx.current_body());
        ctx.prompt_tokens = tokens;
        if tokens > self.max_request_tokens {
            let mut reason = to_owned_string("request used ");
            push_decimal(&mut reason, tokens as u128);
            push_all(&mut reason, " estimated tokens, limit is ");
            push_decimal(&mut reason, self.max_request_tokens as u128);
            ctx.record(self.name(), DetectorActionTaken::Block, reason.clone());
            return Err(DetectorError::blocked(self.name(), reason));
        }
        let who = principal(ctx);
        let (mut start, mut used) = match usage_get(&self.usage, who.as_str()) {
            Some(e) => e,
            None => (now, 0),
        };
        let elapsed: u128 = if now >= start {
            now - start
        } else {
            0
        };
        if elapsed > self.window_nanos {
            start = now;
            used = 0;
        }
        let total: u128 = used as u128 + tokens as u128;
        if total > self.max_window_tokens as u128 {
            let mut reason = to_owned_string("token window would use ");
            push_decimal(&mut reason, total);
            push_all(&mut reason, " estimated tokens, limit is ");
            push_decimal(&mut reason, self.max_window_tokens as u128);
            let ghost key = who@;
            usage_insert(&mut self.usage, who, (start, used));
            assert forall|q: Seq<char>| #[trigger] self.usage().dom().contains(q) implies self.usage()[q].1
                <= self.max_window() by {
                if q != key {
                    assert(old(self).usage().dom().contains(q));
                }
            }
            ctx.record(self.name(), DetectorActionTaken::Block, reason.clone());
            return Err(DetectorError::blocked(self.name(), reason));
        }
        let new_used: usize = used + tokens;
        let ghost key = who@;
        usage_insert(&mut self.usage, who, (start, new_used));
        assert forall|q: Seq<char>| #[trigger] self.usage().dom().contains(q) implies self.usage()[q].1
            <= self.max_window() by {
            if q != key {
                assert(old(self).usage().dom().contains(q));
            }
        }
        ctx.record_pass(self.name());
        Ok(())
    }

    /// Responses are not inspected: the response passes.
    pub fn inspect_response(&self, ctx: &mut ResponseContext) -> (r: Result<(), DetectorError>)
        ensures
            r is Ok,
            final(ctx).same_response(old(ctx)),
            final(ctx).body_text == old(ctx).body_text,
            final(ctx).results() == old(ctx).results().push(
                ("token_budget"@, DetectorActionTaken::Pass, None),
            ),
    {
        ctx.record_pass(self.name());
        Ok(())
    }
}

} // verus!
