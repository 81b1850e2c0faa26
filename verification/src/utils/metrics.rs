use vstd::prelude::*;

use crate::text::{decimal, push_all, push_decimal};

verus! {

/// One counter in the Prometheus text format: help line, type line, sample.
pub open spec fn counter_block(name: Seq<char>, help: Seq<char>, value: u64) -> Seq<char> {
    "# HELP "@ + name + " "@ + help + "\n# TYPE "@ + name + " counter\n"@ + name + " "@
        + decimal(value as nat) + "\n"@
}

/// Request and error counters of the proxy.
pub struct Metrics {
    pub requests_started: u64,
    pub requests_allowed: u64,
    pub request_blocks: u64,
    pub response_blocks: u64,
    pub validation_errors: u64,
    pub upstream_errors: u64,
    pub proxy_errors: u64,
}

/// One more, wrapping around at the top as the atomic counters do.
pub open spec fn bump(n: u64) -> u64 {
    if n == u64::MAX {
        0
    } else {
        (n + 1) as u64
    }
}

/// `requests_started` .. `proxy_errors` in the order the text lists them.
pub open spec fn counts(m: Metrics) -> Seq<u64> {
    seq![
        m.requests_started,
        m.requests_allowed,
        m.request_blocks,
        m.response_blocks,
        m.validation_errors,
        m.upstream_errors,
        m.proxy_errors,
    ]
}

/// The metrics page: each counter with its help text, in a fixed order.
pub open spec fn prometheus_text(m: Metrics) -> Seq<char> {
    counter_block(
        "llm_firewall_requests_started_total"@,
        "Total requests received"@,
        m.requests_started,
    ) + counter_block(
        "llm_firewall_requests_allowed_total"@,
        "Requests allowed after inspection"@,
        m.requests_allowed,
    ) + counter_block(
        "llm_firewall_request_blocks_total"@,
        "Requests blocked before upstream forwarding"@,
        m.request_blocks,
    ) + counter_block(
        "llm_firewall_response_blocks_total"@,
        "Upstream responses blocked after inspection"@,
        m.response_blocks,
    ) + counter_block(
        "llm_firewall_validation_errors_total"@,
        "Requests rejected by protocol/schema validation"@,
        m.validation_errors,
    ) + counter_block(
        "llm_firewall_upstream_errors_total"@,
        "Requests that failed while preparing or calling upstream"@,
        m.upstream_errors,
    ) + counter_block(
        "llm_firewall_proxy_errors_total"@,
        "Proxy-level request/response handling errors"@,
        m.proxy_errors,
    )
}

fn push_counter(out: &mut String, name: &str, help: &str, value: u64)
    ensures
        final(out)@ == old(out)@ + counter_block(name@, help@, value),
{
    let ghost start = out@;
    push_all(out, "# HELP ");
    push_all(out, name);
    push_all(out, " ");
    push_all(out, help);
    push_all(out, "\n# TYPE ");
    push_all(out, name);
    push_all(out, " counter\n");
    push_all(out, name);
    push_all(out, " ");
    push_decimal(out, value as u128);
    push_all(out, "\n");
    assert(out@ =~= start + counter_block(name@, help@, value));
}

fn wrapping_inc(n: u64) -> (r: u64)
    ensures
        r == bump(n),
{
    if n == u64::MAX {
        0
    } else {
        n + 1
    }
}

impl Metrics {
    pub fn request_started(&mut self)
        ensures
            counts(*final(self)) == counts(*old(self)).update(0, bump(old(self).requests_started)),
    {
        self.requests_started = wrapping_inc(self.requests_started);
    }

    pub fn request_allowed(&mut self)
        ensures
            counts(*final(self)) == counts(*old(self)).update(1, bump(old(self).requests_allowed)),
    {
        self.requests_allowed = wrapping_inc(self.requests_allowed);
    }

    pub fn request_blocked(&mut self)
        ensures
            counts(*final(self)) == counts(*old(self)).update(2, bump(old(self).request_blocks)),
    {
        self.request_blocks = wrapping_inc(self.request_blocks);
    }

    pub fn response_blocked(&mut self)
        ensures
            counts(*final(self)) == counts(*old(self)).update(3, bump(old(self).response_blocks)),
    {
        self.response_blocks = wrapping_inc(self.response_blocks);
    }

    pub fn validation_error(&mut self)
        ensures
            counts(*final(self)) == counts(*old(self)).update(
                4,
                bump(old(self).validation_errors),
            ),
    {
        self.validation_errors = wrapping_inc(self.validation_errors);
    }

    pub fn upstream_error(&mut self)
        ensures
            counts(*final(self)) == counts(*old(self)).update(5, bump(old(self).upstream_errors)),
    {
        self.upstream_errors = wrapping_inc(self.upstream_errors);
    }

    pub fn proxy_error(&mut self)
        ensures
            counts(*final(self)) == counts(*old(self)).update(6, bump(old(self).proxy_errors)),
    {
        self.proxy_errors = wrapping_inc(self.proxy_errors);
    }

    /// The counters in the Prometheus text format.
    pub fn render_prometheus(&self) -> (r: String)
        ensures
            r@ == prometheus_text(*self),
    {
        let mut out = String::new();
        push_counter(
            &mut out,
            "llm_firewall_requests_started_total",
            "Total requests received",
            self.requests_started,
        );
        push_counter(
            &mut out,
            "llm_firewall_requests_allowed_total",
            "Requests allowed after inspection",
            self.requests_allowed,
        );
        push_counter(
            &mut out,
            "llm_firewall_request_blocks_total",
            "Requests blocked before upstream forwarding",
            self.request_blocks,
        );
        push_counter(
            &mut out,
            "llm_firewall_response_blocks_total",
            "Upstream responses blocked after inspection",
            self.response_blocks,
        );
        push_counter(
            &mut out,
            "llm_firewall_validation_errors_total",
            "Requests rejected by protocol/schema validation",
            self.validation_errors,
        );
        push_counter(
            &mut out,
            "llm_firewall_upstream_errors_total",
            "Requests that failed while preparing or calling upstream",
            self.upstream_errors,
        );
        push_counter(
            &mut out,
            "llm_firewall_proxy_errors_total",
            "Proxy-level request/response handling errors",
            self.proxy_errors,
        );
        assert(out@ =~= prometheus_text(*self));
        out
    }
}

impl Default for Metrics {
    fn default() -> (r: Metrics)
        ensures
            counts(r) == seq![0u64, 0u64, 0u64, 0u64, 0u64, 0u64, 0u64],
    {
        Metrics {
            requests_started: 0,
            requests_allowed: 0,
            request_blocks: 0,
            response_blocks: 0,
            validation_errors: 0,
            upstream_errors: 0,
            proxy_errors: 0,
        }
    }
}

} // verus!
