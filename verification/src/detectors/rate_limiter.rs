use vstd::prelude::*;

use crate::config::RateLimiterConfig;
use crate::detectors::token_budget::{principal, principal_spec};
use crate::errors::{DetectorError, STATUS_TOO_MANY_REQUESTS};
use crate::pipeline::context::{step, DetectorActionTaken, RequestContext, ResponseContext};
use crate::text::to_owned_string;

verus! {

/// A keyed `governor` rate limiter (`DefaultKeyedRateLimiter<String>`): one
/// cell budget per key, refilled over time. Its state is hidden from
/// verification; what a check answers depends on the clock.
#[verifier::external_body]
pub struct KeyedLimiter {
    inner: governor::DefaultKeyedRateLimiter<String>,
}

/// The keys a limiter holds state for: every key it has checked (governor's
/// keyed store makes an entry for a key on its first check and, unless asked
/// to shrink, keeps it).
pub uninterp spec fn limiter_keys(l: KeyedLimiter) -> Set<Seq<char>>;

/// `RateLimiter::keyed(Quota::per_minute(n))`: a limiter whose keyed store
/// starts empty. Nothing else is stated of its state.
#[verifier::external_body]
fn limiter_new(per_minute: u32) -> (r: KeyedLimiter)
    requires
        per_minute >= 1,
    ensures
        limiter_keys(r) == Set::<Seq<char>>::empty(),
{
    let n = std::num::NonZeroU32::new(per_minute).expect("at least one request per minute");
    KeyedLimiter { inner: governor::RateLimiter::keyed(governor::Quota::per_minute(n)) }
}

/// `RateLimiter::check_key`: whether a cell for `key` is let through now.
/// The check is recorded under `key` (its store makes or updates the key's
/// entry). A key's first check is always let through (a fresh key's state
/// lies one burst of at least one cell ahead); otherwise the answer depends
/// on the clock and on earlier checks, and nothing is stated of it.
#[verifier::external_body]
fn limiter_check(limiter: &mut KeyedLimiter, key: &String) -> (r: bool)
    ensures
        limiter_keys(*final(limiter)) == limiter_keys(*old(limiter)).insert(key@),
        !limiter_keys(*old(limiter)).contains(key@) ==> r,
{
    limiter.inner.check_key(key).is_ok()
}

pub open spec fn rate_reason() -> Seq<char> {
    "request rate limit exceeded"@
}

/// Limits each principal to a number of requests per minute.
pub struct RateLimitDetector {
    per_minute: u32,
    limiter: KeyedLimiter,
}

impl RateLimitDetector {
    pub closed spec fn per_minute(&self) -> u32 {
        self.per_minute
    }

    /// The principals checked so far.
    pub closed spec fn keys(&self) -> Set<Seq<char>> {
        limiter_keys(self.limiter)
    }

    /// A limiter of `requests_per_minute` requests per minute and
    /// principal, raised to one when it is zero.
    pub fn new(config: &RateLimiterConfig) -> (r: Result<RateLimitDetector, String>)
        ensures
            r matches Ok(d) && d.per_minute() == (if config.requests_per_minute == 0 {
                1
            } else {
                config.requests_per_minute
            }) && d.keys() == Set::<Seq<char>>::empty(),
    {
        let per_minute = if config.requests_per_minute < 1 {
            1
        } else {
            config.requests_per_minute
        };
        Ok(RateLimitDetector { per_minute, limiter: limiter_new(per_minute) })
    }

    pub fn name(&self) -> (r: &'static str)
        ensures
            r@ == "rate_limiter"@,
    {
        "rate_limiter"
    }

    /// Checks the request's principal (the hash of its API key, else its
    /// client address, else `anonymous`) against the limiter, then records
    /// what it answered.
    pub fn inspect_request(&mut self, ctx: &mut RequestContext) -> (r: Result<(), DetectorError>)
        ensures
            final(self).per_minute() == old(self).per_minute(),
            final(self).keys() == old(self).keys().insert(
                principal_spec(old(ctx).api_key, old(ctx).client_ip),
            ),
            !old(self).keys().contains(principal_spec(old(ctx).api_key, old(ctx).client_ip)) ==> r is Ok,
            step(old(ctx).results(), final(ctx).results(), r, "rate_limiter"@),
            final(ctx).same_request(old(ctx)),
            final(ctx).modified_body == old(ctx).modified_body,
            final(ctx).prompt_tokens == old(ctx).prompt_tokens,
            rate_outcome(old(ctx).results(), final(ctx).results(), r),
    {
        let who = principal(ctx);
        let allowed = limiter_check(&mut self.limiter, &who);
        Self::apply_decision(ctx, allowed)
    }

    /// What the limiter's answer means for the request: let through, it
    /// passes; refused, it is blocked with 429.
    pub fn apply_decision(ctx: &mut RequestContext, allowed: bool) -> (r: Result<(), DetectorError>)
        ensures
            final(ctx).same_request(old(ctx)),
            final(ctx).modified_body == old(ctx).modified_body,
            final(ctx).prompt_tokens == old(ctx).prompt_tokens,
            allowed ==> r is Ok && final(ctx).results() == old(ctx).results().push(
                ("rate_limiter"@, DetectorActionTaken::Pass, None),
            ),
            !allowed ==> (r matches Err(DetectorError::Blocked { detector, reason, status })
                && detector@ == "rate_limiter"@ && reason@ == rate_reason() && status
                == STATUS_TOO_MANY_REQUESTS && final(ctx).results() == old(ctx).results().push(
                ("rate_limiter"@, DetectorActionTaken::Block, Some(rate_reason())),
            )),
    {
        if allowed {
            ctx.record_pass("rate_limiter");
            Ok(())
        } else {
            let reason = to_owned_string("request rate limit exceeded");
            ctx.record("rate_limiter", DetectorActionTaken::Block, reason.clone());
            Err(DetectorError::rate_limited("rate_limiter", reason))
        }
    }

    /// Responses are not inspected: the response passes.
    pub fn inspect_response(&self, ctx: &mut ResponseContext) -> (r: Result<(), DetectorError>)
        ensures
            r is Ok,
            final(ctx).same_response(old(ctx)),
            final(ctx).body_text == old(ctx).body_text,
            final(ctx).results() == old(ctx).results().push(
                ("rate_limiter"@, DetectorActionTaken::Pass, None),
            ),
    {
        ctx.record_pass(self.name());
        Ok(())
    }
}

/// A rate-limit check either passed the request or blocked it with 429.
pub open spec fn rate_outcome(
    before: Seq<(Seq<char>, DetectorActionTaken, Option<Seq<char>>)>,
    after: Seq<(Seq<char>, DetectorActionTaken, Option<Seq<char>>)>,
    r: Result<(), DetectorError>,
) -> bool {
    ||| r is Ok && after == before.push(("rate_limiter"@, DetectorActionTaken::Pass, None))
    ||| r matches Err(DetectorError::Blocked { detector, reason, status }) && detector@
        == "rate_limiter"@ && reason@ == rate_reason() && status == STATUS_TOO_MANY_REQUESTS
        && after == before.push(("rate_limiter"@, DetectorActionTaken::Block, Some(rate_reason())))
}

} // verus!
