use vstd::prelude::*;

use crate::config::{rules_view, DetectorsConfig, InjectionConfig};
use crate::detectors::dlp::{dlp_request_outcome, dlp_response_outcome, dlp_rules_compile, DlpDetector};
use crate::detectors::injection::{injection_request_outcome, kept_patterns, InjectionDetector};
use crate::detectors::output_sanitizer::{
    sanitizer_patterns, sanitizer_patterns_compile, sanitizer_response_outcome, OutputSanitizer,
};
use crate::detectors::rate_limiter::{rate_outcome, RateLimitDetector};
use crate::detectors::system_prompt::{system_prompt_outcome, SystemPromptDetector};
use crate::detectors::token_budget::{budget_outcome, principal_spec, TokenBudgetDetector};
use crate::detectors::prompt::strings_view;
use crate::detectors::tool_call::{
    tool_payloads, tool_payloads_spec, tool_request_outcome, tool_response_outcome, ToolCallDetector,
};
use crate::errors::DetectorError;
use crate::json::JsonValue;
use crate::matching::{ac_build_outcome, ac_ok, regex_compile_outcome, regex_ok};
use crate::pipeline::context::{step, DetectorActionTaken, RequestContext, ResponseContext, Trail};

verus! {

/// The entries a run added, one per detector in `names`, none a block.
pub open spec fn trail_passed(added: Trail, names: Seq<Seq<char>>) -> bool {
    &&& added.len() == names.len()
    &&& forall|i: int|
        0 <= i < added.len() ==> (#[trigger] added[i]).0 == names[i] && added[i].1
            != DetectorActionTaken::Block
}

/// What a run of the detectors in `names` leaves: every detector passed and
/// the run succeeded; or the first detectors passed, the next one blocked,
/// its block entry is the last one added, the run failed with its error and
/// no later detector ran.
#[verifier::opaque]
pub open spec fn run_outcome(before: Trail, after: Trail, r: Result<(), DetectorError>, names: Seq<Seq<char>>) -> bool {
    &&& before.len() <= after.len()
    &&& forall|i: int| 0 <= i < before.len() ==> #[trigger] after[i] == before[i]
    &&& if r is Ok {
        trail_passed(after.skip(before.len() as int), names)
    } else {
        match r {
            Err(DetectorError::Blocked { detector, reason, .. }) => {
                let added = after.skip(before.len() as int);
                let k = added.len() as int;
                &&& 1 <= k <= names.len()
                &&& trail_passed(added.drop_last(), names.take(k - 1))
                &&& detector@ == names[k - 1]
                &&& added.last() == (names[k - 1], DetectorActionTaken::Block, Some(reason@))
            },
            _ => false,
        }
    }
}

pub open spec fn opt_name(on: bool, name: Seq<char>) -> Seq<Seq<char>> {
    if on {
        seq![name]
    } else {
        Seq::empty()
    }
}

/// Extending a run that has passed so far by one more detector.
pub proof fn lemma_run_extend(
    before: Trail,
    mid: Trail,
    after: Trail,
    names: Seq<Seq<char>>,
    name: Seq<char>,
    prev: Result<(), DetectorError>,
    r: Result<(), DetectorError>,
)
    requires
        prev is Ok,
        run_outcome(before, mid, prev, names),
        step(mid, after, r, name),
    ensures
        run_outcome(before, after, r, names.push(name)),
{
    reveal(run_outcome);
    let n = before.len() as int;
    let added_mid = mid.skip(n);
    let added = after.skip(n);
    match r {
        Ok(()) => {
            assert forall|i: int| 0 <= i < added.len() implies (#[trigger] added[i]).0 == names.push(
                name,
            )[i] && added[i].1 != DetectorActionTaken::Block by {
                assert(added[i] == after[n + i]);
                if i < added_mid.len() {
                    assert(added_mid[i] == mid[n + i]);
                }
            }
        },
        Err(DetectorError::Blocked { detector, reason, .. }) => {
            assert(added.drop_last() =~= added_mid);
            assert(names.push(name).take(names.len() as int) =~= names);
        },
        Err(DetectorError::Failed { .. }) => {},
    }
}

/// A blocked run of the first detectors of a longer list is a blocked run
/// of the whole list.
pub proof fn lemma_run_prefix(
    before: Trail,
    after: Trail,
    r: Result<(), DetectorError>,
    pre: Seq<Seq<char>>,
    full: Seq<Seq<char>>,
)
    requires
        run_outcome(before, after, r, pre),
        r is Err,
        pre.len() <= full.len(),
        full.take(pre.len() as int) == pre,
    ensures
        run_outcome(before, after, r, full),
{
    reveal(run_outcome);
    if let Err(DetectorError::Blocked { detector, reason, .. }) = r {
        let k = after.skip(before.len() as int).len() as int;
        assert(full.take(k - 1) =~= pre.take(k - 1));
        assert(full[k - 1] == full.take(pre.len() as int)[k - 1]);
    }
}

/// A run that passed, followed by a second run, is one run of both lists.
pub proof fn lemma_run_concat(
    a: Trail,
    b: Trail,
    c: Trail,
    r1: Result<(), DetectorError>,
    r2: Result<(), DetectorError>,
    n1: Seq<Seq<char>>,
    n2: Seq<Seq<char>>,
)
    requires
        r1 is Ok,
        run_outcome(a, b, r1, n1),
        run_outcome(b, c, r2, n2),
    ensures
        run_outcome(a, c, r2, n1 + n2),
{
    reveal(run_outcome);
    let la = a.len() as int;
    let lb = b.len() as int;
    let ab = b.skip(la);
    let bc = c.skip(lb);
    let ac = c.skip(la);
    assert(lb == la + n1.len());
    assert forall|i: int| 0 <= i < la implies #[trigger] c[i] == a[i] by {
        assert(c[i] == b[i]);
    }
    assert forall|i: int| 0 <= i < ac.len() implies #[trigger] ac[i] == if i < n1.len() {
        ab[i]
    } else {
        bc[i - n1.len()]
    } by {
        if i < n1.len() {
            assert(c[la + i] == b[la + i]);
        }
    }
    if r2 is Ok {
        assert forall|i: int| 0 <= i < ac.len() implies (#[trigger] ac[i]).0 == (n1 + n2)[i]
            && ac[i].1 != DetectorActionTaken::Block by {
            if i < n1.len() {
                assert(ab[i].0 == n1[i]);
            } else {
                assert(bc[i - n1.len()].0 == n2[i - n1.len()]);
            }
        }
    } else {
        if let Err(DetectorError::Blocked { detector, reason, .. }) = r2 {
            let k2 = bc.len() as int;
            let k = ac.len() as int;
            assert(k == n1.len() + k2);
            assert((n1 + n2).take(k - 1) =~= n1 + n2.take(k2 - 1));
            assert((n1 + n2)[k - 1] == n2[k2 - 1]);
            assert(ac.last() == bc.last());
            let d = ac.drop_last();
            assert forall|i: int| 0 <= i < d.len() implies (#[trigger] d[i]).0 == (n1 + n2).take(k - 1)[i]
                && d[i].1 != DetectorActionTaken::Block by {
                if i < n1.len() {
                    assert(d[i] == ab[i]);
                } else {
                    assert(d[i] == bc.drop_last()[i - n1.len()]);
                }
            }
        }
    }
}

/// Which passing result a run reports makes no difference.
pub proof fn lemma_run_ok(before: Trail, after: Trail, prev: Result<(), DetectorError>, names: Seq<Seq<char>>)
    requires
        prev is Ok,
        run_outcome(before, after, prev, names),
    ensures
        run_outcome(before, after, Ok(()), names),
{
    reveal(run_outcome);
}

/// A run of no detector.
pub proof fn lemma_run_empty(t: Trail, r: Result<(), DetectorError>)
    requires
        r is Ok,
    ensures
        run_outcome(t, t, r, Seq::empty()),
{
    reveal(run_outcome);
    assert(t.skip(t.len() as int) =~= Seq::<(Seq<char>, DetectorActionTaken, Option<Seq<char>>)>::empty());
}

fn request_step_rate(d: &mut RateLimitDetector, ctx: &mut RequestContext) -> (r: Result<(), DetectorError>)
    ensures
        final(d).per_minute() == old(d).per_minute(),
        final(d).keys() == old(d).keys().insert(principal_spec(old(ctx).api_key, old(ctx).client_ip)),
        !old(d).keys().contains(principal_spec(old(ctx).api_key, old(ctx).client_ip)) ==> r is Ok,
        final(ctx).same_request(old(ctx)),
        step(old(ctx).results(), final(ctx).results(), r, "rate_limiter"@),
        final(ctx).modified_body == old(ctx).modified_body,
        final(ctx).prompt_tokens == old(ctx).prompt_tokens,
        rate_outcome(old(ctx).results(), final(ctx).results(), r),
{
    d.inspect_request(ctx)
}

fn request_step_budget(d: &mut TokenBudgetDetector, ctx: &mut RequestContext) -> (r: Result<(), DetectorError>)
    requires
        old(d).wf(),
    ensures
        final(d).wf(),
        final(ctx).same_request(old(ctx)),
        step(old(ctx).results(), final(ctx).results(), r, "token_budget"@),
        final(ctx).modified_body == old(ctx).modified_body,
        exists|now: u128| budget_outcome(*old(d), *final(d), *old(ctx), *final(ctx), r, now),
{
    d.inspect_request(ctx)
}

fn request_step_injection(d: &InjectionDetector, ctx: &mut RequestContext) -> (r: Result<(), DetectorError>)
    requires
        d.wf(),
    ensures
        final(ctx).same_request(old(ctx)),
        step(old(ctx).results(), final(ctx).results(), r, "prompt_injection"@),
        injection_request_outcome(*d, *old(ctx), *final(ctx), r),
{
    d.inspect_request(ctx)
}

fn request_step_dlp(d: &DlpDetector, ctx: &mut RequestContext) -> (r: Result<(), DetectorError>)
    requires
        d.wf(),
    ensures
        final(ctx).same_request(old(ctx)),
        step(old(ctx).results(), final(ctx).results(), r, "dlp"@),
        dlp_request_outcome(*d, *old(ctx), *final(ctx), r),
{
    d.inspect_request(ctx)
}

fn request_step_system(d: &SystemPromptDetector, ctx: &mut RequestContext) -> (r: Result<(), DetectorError>)
    ensures
        final(ctx).same_request(old(ctx)),
        step(old(ctx).results(), final(ctx).results(), r, "system_prompt"@),
        system_prompt_outcome(*d, *old(ctx), *final(ctx), r),
{
    d.inspect_request(ctx)
}

fn request_step_tools(d: &ToolCallDetector, ctx: &mut RequestContext) -> (r: Result<(), DetectorError>)
    ensures
        final(ctx).same_request(old(ctx)),
        step(old(ctx).results(), final(ctx).results(), r, "tool_call"@),
        tool_request_outcome(*d, *old(ctx), *final(ctx), r),
{
    d.inspect_request(ctx)
}

fn response_step_dlp(d: &DlpDetector, ctx: &mut ResponseContext) -> (r: Result<(), DetectorError>)
    requires
        d.wf(),
    ensures
        final(ctx).same_response(old(ctx)),
        step(old(ctx).results(), final(ctx).results(), r, "dlp"@),
        dlp_response_outcome(*d, *old(ctx), *final(ctx), r),
{
    d.inspect_response(ctx)
}

fn response_step_tools(d: &ToolCallDetector, ctx: &mut ResponseContext, parsed: &Vec<JsonValue>) -> (r: Result<(), DetectorError>)
    ensures
        final(ctx).same_response(old(ctx)),
        step(old(ctx).results(), final(ctx).results(), r, "tool_call"@),
        tool_response_outcome(*d, parsed@, *old(ctx), *final(ctx), r),
{
    d.inspect_response(ctx, parsed)
}

fn response_step_sanitizer(d: &OutputSanitizer, ctx: &mut ResponseContext) -> (r: Result<(), DetectorError>)
    requires
        d.wf(),
    ensures
        final(ctx).same_response(old(ctx)),
        step(old(ctx).results(), final(ctx).results(), r, "output_sanitizer"@),
        sanitizer_response_outcome(*d, *old(ctx), *final(ctx), r),
{
    d.inspect_response(ctx)
}

/// The values among `outs`, in order, leaving out the payloads that did not
/// parse.
pub open spec fn somes(outs: Seq<Option<JsonValue>>) -> Seq<JsonValue>
    decreases outs.len(),
{
    if outs.len() == 0 {
        Seq::empty()
    } else {
        let p = somes(outs.drop_last());
        match outs.last() {
            Some(v) => p.push(v),
            None => p,
        }
    }
}

/// `o` is what `parse` may return on a text `t`.
pub open spec fn parsed_one<F: Fn(&str) -> Option<JsonValue>>(parse: F, t: Seq<char>, o: Option<JsonValue>) -> bool {
    exists|s: &str| s@ == t && #[trigger] call_ensures(parse, (s,), o)
}

/// `outs` holds, for each of `texts`, what `parse` returned on it.
pub open spec fn parse_results<F: Fn(&str) -> Option<JsonValue>>(
    parse: F,
    texts: Seq<Seq<char>>,
    outs: Seq<Option<JsonValue>>,
) -> bool {
    &&& outs.len() == texts.len()
    &&& forall|i: int| 0 <= i < texts.len() ==> #[trigger] parsed_one(parse, texts[i], outs[i])
}

/// The request detectors, as stages of a run.
#[derive(Clone, Copy)]
pub enum RequestStage {
    RateLimiter,
    TokenBudget,
    Injection,
    Dlp,
    SystemPrompt,
    ToolCall,
}

pub open spec fn opt_stage(on: bool, s: RequestStage) -> Seq<RequestStage> {
    if on {
        seq![s]
    } else {
        Seq::empty()
    }
}

/// The name a stage's detector records its entries under.
pub open spec fn stage_name(s: RequestStage) -> Seq<char> {
    match s {
        RequestStage::RateLimiter => "rate_limiter"@,
        RequestStage::TokenBudget => "token_budget"@,
        RequestStage::Injection => "prompt_injection"@,
        RequestStage::Dlp => "dlp"@,
        RequestStage::SystemPrompt => "system_prompt"@,
        RequestStage::ToolCall => "tool_call"@,
    }
}

pub open spec fn stage_names(s: Seq<RequestStage>) -> Seq<Seq<char>> {
    s.map_values(|x: RequestStage| stage_name(x))
}

/// One stage of a request run, from pipeline `pa` and context `c0` to
/// pipeline `pb` and context `c1` with result `r`, as that detector's own
/// contract states it. Only the rate limiter and token budget stages change
/// the pipeline, and each only its own detector's state: the rate limiter
/// records the request's principal, the token budget its usage.
pub open spec fn request_stage(
    pa: Pipeline,
    pb: Pipeline,
    stage: RequestStage,
    c0: RequestContext,
    c1: RequestContext,
    r: Result<(), DetectorError>,
) -> bool {
    match stage {
        RequestStage::RateLimiter => {
            &&& pa.rate_limiter_det() is Some
            &&& pb.rate_limiter_det() is Some
            &&& pb.same_but_rate(pa)
            &&& pb.rate_limiter_det()->0.per_minute() == pa.rate_limiter_det()->0.per_minute()
            &&& pb.rate_limiter_det()->0.keys() == pa.rate_limiter_det()->0.keys().insert(
                principal_spec(c0.api_key, c0.client_ip),
            )
            &&& (!pa.rate_limiter_det()->0.keys().contains(principal_spec(c0.api_key, c0.client_ip))
                ==> r is Ok)
            &&& c1.same_request(&c0)
            &&& c1.modified_body == c0.modified_body
            &&& c1.prompt_tokens == c0.prompt_tokens
            &&& rate_outcome(c0.results(), c1.results(), r)
        },
        RequestStage::TokenBudget => {
            &&& pa.token_budget_det() is Some
            &&& pb.token_budget_det() is Some
            &&& pb.same_but_budget_state(pa)
            &&& c1.same_request(&c0)
            &&& c1.modified_body == c0.modified_body
            &&& exists|now: u128|
                budget_outcome(pa.token_budget_det()->0, pb.token_budget_det()->0, c0, c1, r, now)
        },
        RequestStage::Injection => pb == pa && match pa.injection_det() {
            Some(d) => injection_request_outcome(d, c0, c1, r),
            None => false,
        },
        RequestStage::Dlp => pb == pa && match pa.dlp_det() {
            Some(d) => dlp_request_outcome(d, c0, c1, r),
            None => false,
        },
        RequestStage::SystemPrompt => pb == pa && match pa.system_prompt_det() {
            Some(d) => system_prompt_outcome(d, c0, c1, r),
            None => false,
        },
        RequestStage::ToolCall => pb == pa && match pa.tool_call_det() {
            Some(d) => tool_request_outcome(d, c0, c1, r),
            None => false,
        },
    }
}

/// The stages done so far: stage `i` went from `ps[i]`, `ctxs[i]` to
/// `ps[i + 1]`, `ctxs[i + 1]` with result `rs[i]` as its contract states,
/// and every stage but possibly the last passed.
pub open spec fn chain_holds(
    stages: Seq<RequestStage>,
    ps: Seq<Pipeline>,
    ctxs: Seq<RequestContext>,
    rs: Seq<Result<(), DetectorError>>,
) -> bool {
    &&& ctxs.len() == rs.len() + 1
    &&& ps.len() == rs.len() + 1
    &&& rs.len() == stages.len()
    &&& forall|i: int|
        0 <= i < rs.len() ==> request_stage(ps[i], ps[i + 1], stages[i], ctxs[i], ctxs[i + 1], #[trigger] rs[i])
    &&& forall|i: int| 0 <= i < rs.len() - 1 ==> (#[trigger] rs[i]) is Ok
}

/// A request run, exactly: the pipeline's stages ran in order from `p0` to
/// `p1`, each as its detector's contract states, on the context the stage
/// before it left; the run stopped early only at a stage that failed.
pub open spec fn request_run(
    p0: Pipeline,
    p1: Pipeline,
    ps: Seq<Pipeline>,
    ctxs: Seq<RequestContext>,
    rs: Seq<Result<(), DetectorError>>,
) -> bool {
    let stages = p0.request_stages();
    &&& rs.len() <= stages.len()
    &&& chain_holds(stages.take(rs.len() as int), ps, ctxs, rs)
    &&& ps[0] == p0
    &&& ps.last() == p1
    &&& rs.len() < stages.len() ==> rs.len() > 0 && rs.last() is Err
}

proof fn lemma_chain_push(
    stages: Seq<RequestStage>,
    ps: Seq<Pipeline>,
    ctxs: Seq<RequestContext>,
    rs: Seq<Result<(), DetectorError>>,
    stage: RequestStage,
    p: Pipeline,
    c: RequestContext,
    r: Result<(), DetectorError>,
)
    requires
        chain_holds(stages, ps, ctxs, rs),
        rs.len() == 0 || rs.last() is Ok,
        request_stage(ps.last(), p, stage, ctxs.last(), c, r),
    ensures
        chain_holds(stages.push(stage), ps.push(p), ctxs.push(c), rs.push(r)),
{
    let rs2 = rs.push(r);
    let cs2 = ctxs.push(c);
    let ps2 = ps.push(p);
    let st2 = stages.push(stage);
    assert forall|i: int| 0 <= i < rs2.len() implies request_stage(
        ps2[i],
        ps2[i + 1],
        st2[i],
        cs2[i],
        cs2[i + 1],
        #[trigger] rs2[i],
    ) by {
        if i < rs.len() {
            assert(rs2[i] == rs[i]);
            assert(request_stage(ps[i], ps[i + 1], stages[i], ctxs[i], ctxs[i + 1], rs[i]));
        }
    }
    assert forall|i: int| 0 <= i < rs2.len() - 1 implies (#[trigger] rs2[i]) is Ok by {
        if i < rs.len() - 1 {
            assert(rs2[i] == rs[i]);
        } else {
            assert(rs2[i] == rs.last());
        }
    }
}

proof fn lemma_all_present(p: Pipeline, a: Seq<RequestStage>, b: Seq<RequestStage>)
    requires
        forall|i: int| 0 <= i < a.len() ==> p.has_stage(#[trigger] a[i]),
        forall|i: int| 0 <= i < b.len() ==> p.has_stage(#[trigger] b[i]),
    ensures
        forall|i: int| 0 <= i < (a + b).len() ==> p.has_stage(#[trigger] (a + b)[i]),
{
    assert forall|i: int| 0 <= i < (a + b).len() implies p.has_stage(#[trigger] (a + b)[i]) by {
        if i < a.len() {
            assert((a + b)[i] == a[i]);
        } else {
            assert((a + b)[i] == b[i - a.len()]);
        }
    }
}

proof fn lemma_names_concat(a: Seq<RequestStage>, b: Seq<RequestStage>)
    ensures
        stage_names(a + b) == stage_names(a) + stage_names(b),
{
    assert(stage_names(a + b) =~= stage_names(a) + stage_names(b));
}

proof fn lemma_names_opt(on: bool, s: RequestStage)
    ensures
        stage_names(opt_stage(on, s)) == opt_name(on, stage_name(s)),
{
    assert(stage_names(opt_stage(on, s)) =~= opt_name(on, stage_name(s)));
}

/// The injection patterns kept (non-blank, lower-cased) make an automaton,
/// or none is kept.
pub open spec fn injection_builds(config: InjectionConfig) -> bool {
    let kept = kept_patterns(strings_view(config.patterns@));
    kept.len() == 0 || ac_ok(kept)
}

/// Every enabled detector can be built from its configuration.
pub open spec fn pipeline_builds(config: DetectorsConfig) -> bool {
    &&& config.injection.enabled ==> injection_builds(config.injection)
    &&& config.dlp.enabled ==> dlp_rules_compile(config.dlp.rules@)
    &&& config.output_sanitizer.enabled ==> sanitizer_patterns_compile()
}

/// `m` is the error of the first enabled detector, in pipeline order, that
/// cannot be built: the automaton builder's message for the injection
/// patterns, else the regex error of the first DLP pattern that does not
/// compile, else that of a sanitizer pattern.
pub open spec fn pipeline_build_error(config: DetectorsConfig, m: Seq<char>) -> bool {
    if config.injection.enabled && !injection_builds(config.injection) {
        ac_build_outcome(kept_patterns(strings_view(config.injection.patterns@))) == Err::<
            (),
            Seq<char>,
        >(m)
    } else if config.dlp.enabled && !dlp_rules_compile(config.dlp.rules@) {
        let rules = config.dlp.rules@;
        exists|i: int|
            0 <= i < rules.len() && regex_compile_outcome(rules[i].pattern@) == Err::<(), Seq<char>>(m)
                && (forall|k: int| 0 <= k < i ==> regex_ok(#[trigger] rules[k].pattern@))
    } else {
        exists|i: int|
            0 <= i < sanitizer_patterns().len() && regex_compile_outcome(
                #[trigger] sanitizer_patterns()[i],
            ) == Err::<(), Seq<char>>(m)
    }
}

/// Each detector of `p` is there exactly when its section of `config`
/// enables it, and is built from that section: the rate limiter's per-minute
/// limit (zero counts as one) with no principal checked yet, the token budget's limits and window (with no
/// usage yet), the kept injection patterns and action, the DLP rules, the
/// system prompt's mode and text, the tool allow-list, and the sanitizer's
/// action over its fixed patterns.
pub open spec fn detectors_built(p: Pipeline, config: DetectorsConfig) -> bool {
    &&& (p.rate_limiter_det() is Some <==> config.rate_limiter.enabled)
    &&& (p.rate_limiter_det() matches Some(d) ==> d.per_minute() == (if config.rate_limiter.requests_per_minute
        == 0 {
        1
    } else {
        config.rate_limiter.requests_per_minute
    }) && d.keys() == Set::<Seq<char>>::empty())
    &&& (p.token_budget_det() is Some <==> config.token_budget.enabled)
    &&& (p.token_budget_det() matches Some(d) ==> {
        &&& d.max_request() == config.token_budget.max_request_tokens
        &&& d.max_window() == config.token_budget.max_window_tokens
        &&& d.window() == config.token_budget.window_secs as int * 1_000_000_000
        &&& d.usage() == Map::<Seq<char>, (u128, usize)>::empty()
    })
    &&& (p.injection_det() is Some <==> config.injection.enabled)
    &&& (p.injection_det() matches Some(d) ==> d.patterns_spec() == kept_patterns(
        strings_view(config.injection.patterns@),
    ) && d.action_spec() == config.injection.action)
    &&& (p.dlp_det() is Some <==> config.dlp.enabled)
    &&& (p.dlp_det() matches Some(d) ==> d.rules_spec() == rules_view(config.dlp.rules@))
    &&& (p.system_prompt_det() is Some <==> config.system_prompt.enabled)
    &&& (p.system_prompt_det() matches Some(d) ==> d.mode == config.system_prompt.mode
        && d.prompt@ == config.system_prompt.prompt@)
    &&& (p.tool_call_det() is Some <==> config.tool_call.enabled)
    &&& (p.tool_call_det() matches Some(d) ==> d.allowed() == strings_view(config.tool_call.allowed_tools@))
    &&& (p.output_sanitizer_det() is Some <==> config.output_sanitizer.enabled)
    &&& (p.output_sanitizer_det() matches Some(d) ==> d.action_spec() == config.output_sanitizer.action
        && d.patterns_spec() == sanitizer_patterns())
}

/// The configured detectors, in the order they run.
pub struct Pipeline {
    rate_limiter: Option<RateLimitDetector>,
    token_budget: Option<TokenBudgetDetector>,
    injection: Option<InjectionDetector>,
    dlp: Option<DlpDetector>,
    system_prompt: Option<SystemPromptDetector>,
    tool_call: Option<ToolCallDetector>,
    output_sanitizer: Option<OutputSanitizer>,
}

impl Pipeline {
    pub closed spec fn rate_limiter_det(&self) -> Option<RateLimitDetector> {
        self.rate_limiter
    }

    pub closed spec fn token_budget_det(&self) -> Option<TokenBudgetDetector> {
        self.token_budget
    }

    pub closed spec fn injection_det(&self) -> Option<InjectionDetector> {
        self.injection
    }

    pub closed spec fn dlp_det(&self) -> Option<DlpDetector> {
        self.dlp
    }

    pub closed spec fn system_prompt_det(&self) -> Option<SystemPromptDetector> {
        self.system_prompt
    }

    pub closed spec fn tool_call_det(&self) -> Option<ToolCallDetector> {
        self.tool_call
    }

    pub closed spec fn output_sanitizer_det(&self) -> Option<OutputSanitizer> {
        self.output_sanitizer
    }

    /// Every detector present is ready to run.
    pub open spec fn wf(&self) -> bool {
        &&& (self.token_budget_det() matches Some(t) ==> t.wf())
        &&& (self.injection_det() matches Some(d) ==> d.wf())
        &&& (self.dlp_det() matches Some(d) ==> d.wf())
        &&& (self.output_sanitizer_det() matches Some(d) ==> d.wf())
    }

    /// The request detectors, in the order they run.
    pub open spec fn request_names(&self) -> Seq<Seq<char>> {
        opt_name(self.rate_limiter_det() is Some, "rate_limiter"@) + opt_name(
            self.token_budget_det() is Some,
            "token_budget"@,
        ) + opt_name(self.injection_det() is Some, "prompt_injection"@) + opt_name(
            self.dlp_det() is Some,
            "dlp"@,
        ) + opt_name(self.system_prompt_det() is Some, "system_prompt"@) + opt_name(
            self.tool_call_det() is Some,
            "tool_call"@,
        )
    }

    /// The request stages, in the order they run.
    pub open spec fn request_stages(&self) -> Seq<RequestStage> {
        opt_stage(self.rate_limiter_det() is Some, RequestStage::RateLimiter) + opt_stage(
            self.token_budget_det() is Some,
            RequestStage::TokenBudget,
        ) + opt_stage(self.injection_det() is Some, RequestStage::Injection) + opt_stage(
            self.dlp_det() is Some,
            RequestStage::Dlp,
        ) + opt_stage(self.system_prompt_det() is Some, RequestStage::SystemPrompt) + opt_stage(
            self.tool_call_det() is Some,
            RequestStage::ToolCall,
        )
    }

    /// The response detectors that run before tool calls are checked.
    pub open spec fn response_first_names(&self) -> Seq<Seq<char>> {
        opt_name(self.dlp_det() is Some, "dlp"@)
    }

    /// The response detectors that run on the parsed tool-call payloads and after.
    pub open spec fn response_rest_names(&self) -> Seq<Seq<char>> {
        opt_name(self.tool_call_det() is Some, "tool_call"@) + opt_name(
            self.output_sanitizer_det() is Some,
            "output_sanitizer"@,
        )
    }

    pub open spec fn checks_tool_calls(&self) -> bool {
        self.tool_call_det() is Some
    }

    /// Builds the enabled detectors in pipeline order; fails with the first
    /// detector that cannot be built.
    pub fn from_config(config: &DetectorsConfig) -> (r: Result<Pipeline, String>)
        ensures
            r is Ok <==> pipeline_builds(*config),
            r matches Err(m) ==> pipeline_build_error(*config, m@),
            r matches Ok(p) ==> detectors_built(p, *config),
            r matches Ok(p) ==> p.wf() && p.request_names() == opt_name(
                config.rate_limiter.enabled,
                "rate_limiter"@,
            ) + opt_name(config.token_budget.enabled, "token_budget"@) + opt_name(
                config.injection.enabled,
                "prompt_injection"@,
            ) + opt_name(config.dlp.enabled, "dlp"@) + opt_name(
                config.system_prompt.enabled,
                "system_prompt"@,
            ) + opt_name(config.tool_call.enabled, "tool_call"@) && p.response_first_names()
                == opt_name(config.dlp.enabled, "dlp"@) && p.response_rest_names() == opt_name(
                config.tool_call.enabled,
                "tool_call"@,
            ) + opt_name(config.output_sanitizer.enabled, "output_sanitizer"@),
    {
        let rate_limiter = if config.rate_limiter.enabled {
            match RateLimitDetector::new(&config.rate_limiter) {
                Ok(d) => Some(d),
                Err(m) => {
                    return Err(m);
                },
            }
        } else {
            None
        };
        let token_budget = if config.token_budget.enabled {
            Some(TokenBudgetDetector::new(&config.token_budget))
        } else {
            None
        };
        let injection = if config.injection.enabled {
            match InjectionDetector::new(&config.injection) {
                Ok(d) => Some(d),
                Err(m) => {
                    return Err(m);
                },
            }
        } else {
            None
        };
        let dlp = if config.dlp.enabled {
            match DlpDetector::new(&config.dlp) {
                Ok(d) => Some(d),
                Err(m) => {
                    return Err(m);
                },
            }
        } else {
            None
        };
        let system_prompt = if config.system_prompt.enabled {
            Some(SystemPromptDetector::new(&config.system_prompt))
        } else {
            None
        };
        let tool_call = if config.tool_call.enabled {
            Some(ToolCallDetector::new(&config.tool_call))
        } else {
            None
        };
        let output_sanitizer = if config.output_sanitizer.enabled {
            match OutputSanitizer::new(&config.output_sanitizer) {
                Ok(d) => Some(d),
                Err(m) => {
                    return Err(m);
                },
            }
        } else {
            None
        };
        Ok(
            Pipeline {
                rate_limiter,
                token_budget,
                injection,
                dlp,
                system_prompt,
                tool_call,
                output_sanitizer,
            },
        )
    }

    /// Whether the detector of a stage is configured.
    pub open spec fn has_stage(&self, s: RequestStage) -> bool {
        match s {
            RequestStage::RateLimiter => self.rate_limiter_det() is Some,
            RequestStage::TokenBudget => self.token_budget_det() is Some,
            RequestStage::Injection => self.injection_det() is Some,
            RequestStage::Dlp => self.dlp_det() is Some,
            RequestStage::SystemPrompt => self.system_prompt_det() is Some,
            RequestStage::ToolCall => self.tool_call_det() is Some,
        }
    }

    /// Equal in every detector but the rate limiter.
    pub open spec fn same_but_rate(&self, other: Pipeline) -> bool {
        &&& self.token_budget_det() == other.token_budget_det()
        &&& self.injection_det() == other.injection_det()
        &&& self.dlp_det() == other.dlp_det()
        &&& self.system_prompt_det() == other.system_prompt_det()
        &&& self.tool_call_det() == other.tool_call_det()
        &&& self.output_sanitizer_det() == other.output_sanitizer_det()
    }

    /// Equal in every detector but the token budget.
    pub open spec fn same_but_budget_state(&self, other: Pipeline) -> bool {
        &&& self.rate_limiter_det() == other.rate_limiter_det()
        &&& self.injection_det() == other.injection_det()
        &&& self.dlp_det() == other.dlp_det()
        &&& self.system_prompt_det() == other.system_prompt_det()
        &&& self.tool_call_det() == other.tool_call_det()
        &&& self.output_sanitizer_det() == other.output_sanitizer_det()
    }

    /// The same detectors with the same settings; only the rate limiter's
    /// and token budget's state may differ.
    pub open spec fn same_config(&self, other: Pipeline) -> bool {
        &&& (self.rate_limiter_det() is Some <==> other.rate_limiter_det() is Some)
        &&& (self.rate_limiter_det() is Some ==> self.rate_limiter_det()->0.per_minute()
            == other.rate_limiter_det()->0.per_minute())
        &&& (self.token_budget_det() is Some <==> other.token_budget_det() is Some)
        &&& self.injection_det() == other.injection_det()
        &&& self.dlp_det() == other.dlp_det()
        &&& self.system_prompt_det() == other.system_prompt_det()
        &&& self.tool_call_det() == other.tool_call_det()
        &&& self.output_sanitizer_det() == other.output_sanitizer_det()
    }

    /// Pipelines with the same configuration run the same stages.
    proof fn lemma_same_config(&self, other: Pipeline)
        requires
            self.same_config(other),
        ensures
            self.request_names() == other.request_names(),
            self.request_stages() == other.request_stages(),
            self.response_first_names() == other.response_first_names(),
            self.response_rest_names() == other.response_rest_names(),
            self.checks_tool_calls() == other.checks_tool_calls(),
    {
        assert(self.token_budget is Some == other.token_budget is Some);
        assert(self.rate_limiter is Some == other.rate_limiter is Some);
    }

    proof fn lemma_opt_present(&self, on: bool, s: RequestStage)
        requires
            on ==> self.has_stage(s),
        ensures
            forall|i: int| 0 <= i < opt_stage(on, s).len() ==> self.has_stage(#[trigger] opt_stage(on, s)[i]),
    {
    }

    /// Every stage of the run has its detector configured.
    proof fn lemma_stages_present(&self)
        ensures
            forall|i: int|
                0 <= i < self.request_stages().len() ==> self.has_stage(#[trigger] self.request_stages()[i]),
    {
        let a = opt_stage(self.rate_limiter is Some, RequestStage::RateLimiter);
        let b = opt_stage(self.token_budget is Some, RequestStage::TokenBudget);
        let c = opt_stage(self.injection is Some, RequestStage::Injection);
        let d = opt_stage(self.dlp is Some, RequestStage::Dlp);
        let e = opt_stage(self.system_prompt is Some, RequestStage::SystemPrompt);
        let f = opt_stage(self.tool_call is Some, RequestStage::ToolCall);
        self.lemma_opt_present(self.rate_limiter is Some, RequestStage::RateLimiter);
        self.lemma_opt_present(self.token_budget is Some, RequestStage::TokenBudget);
        self.lemma_opt_present(self.injection is Some, RequestStage::Injection);
        self.lemma_opt_present(self.dlp is Some, RequestStage::Dlp);
        self.lemma_opt_present(self.system_prompt is Some, RequestStage::SystemPrompt);
        self.lemma_opt_present(self.tool_call is Some, RequestStage::ToolCall);
        lemma_all_present(*self, a, b);
        lemma_all_present(*self, a + b, c);
        lemma_all_present(*self, a + b + c, d);
        lemma_all_present(*self, a + b + c + d, e);
        lemma_all_present(*self, a + b + c + d + e, f);
    }

    /// The request names are the names of the request stages.
    proof fn lemma_request_names(&self)
        ensures
            self.request_names() == stage_names(self.request_stages()),
    {
        let a = opt_stage(self.rate_limiter is Some, RequestStage::RateLimiter);
        let b = opt_stage(self.token_budget is Some, RequestStage::TokenBudget);
        let c = opt_stage(self.injection is Some, RequestStage::Injection);
        let d = opt_stage(self.dlp is Some, RequestStage::Dlp);
        let e = opt_stage(self.system_prompt is Some, RequestStage::SystemPrompt);
        let f = opt_stage(self.tool_call is Some, RequestStage::ToolCall);
        lemma_names_opt(self.rate_limiter is Some, RequestStage::RateLimiter);
        lemma_names_opt(self.token_budget is Some, RequestStage::TokenBudget);
        lemma_names_opt(self.injection is Some, RequestStage::Injection);
        lemma_names_opt(self.dlp is Some, RequestStage::Dlp);
        lemma_names_opt(self.system_prompt is Some, RequestStage::SystemPrompt);
        lemma_names_opt(self.tool_call is Some, RequestStage::ToolCall);
        lemma_names_concat(a, b);
        lemma_names_concat(a + b, c);
        lemma_names_concat(a + b + c, d);
        lemma_names_concat(a + b + c + d, e);
        lemma_names_concat(a + b + c + d + e, f);
    }

    /// The request stages, in the order they run.
    fn stage_list(&self) -> (v: Vec<RequestStage>)
        ensures
            v@ == self.request_stages(),
    {
        let mut v: Vec<RequestStage> = Vec::new();
        if self.rate_limiter.is_some() {
            v.push(RequestStage::RateLimiter);
        }
        assert(v@ =~= opt_stage(self.rate_limiter is Some, RequestStage::RateLimiter));
        let ghost a = v@;
        if self.token_budget.is_some() {
            v.push(RequestStage::TokenBudget);
        }
        assert(v@ =~= a + opt_stage(self.token_budget is Some, RequestStage::TokenBudget));
        let ghost a = v@;
        if self.injection.is_some() {
            v.push(RequestStage::Injection);
        }
        assert(v@ =~= a + opt_stage(self.injection is Some, RequestStage::Injection));
        let ghost a = v@;
        if self.dlp.is_some() {
            v.push(RequestStage::Dlp);
        }
        assert(v@ =~= a + opt_stage(self.dlp is Some, RequestStage::Dlp));
        let ghost a = v@;
        if self.system_prompt.is_some() {
            v.push(RequestStage::SystemPrompt);
        }
        assert(v@ =~= a + opt_stage(self.system_prompt is Some, RequestStage::SystemPrompt));
        let ghost a = v@;
        if self.tool_call.is_some() {
            v.push(RequestStage::ToolCall);
        }
        assert(v@ =~= a + opt_stage(self.tool_call is Some, RequestStage::ToolCall));
        v
    }

    /// Runs the detector of one request stage other than the token budget.
    fn run_plain_stage(&self, stage: RequestStage, ctx: &mut RequestContext) -> (r: Result<(), DetectorError>)
        requires
            self.wf(),
            self.has_stage(stage),
            !(stage is TokenBudget),
            !(stage is RateLimiter),
        ensures
            final(ctx).same_request(old(ctx)),
            step(old(ctx).results(), final(ctx).results(), r, stage_name(stage)),
            request_stage(*self, *self, stage, *old(ctx), *final(ctx), r),
    {
        match stage {
            RequestStage::Injection => match &self.injection {
                Some(d) => request_step_injection(d, ctx),
                None => Ok(()),
            },
            RequestStage::Dlp => match &self.dlp {
                Some(d) => request_step_dlp(d, ctx),
                None => Ok(()),
            },
            RequestStage::SystemPrompt => match &self.system_prompt {
                Some(d) => request_step_system(d, ctx),
                None => Ok(()),
            },
            RequestStage::ToolCall => match &self.tool_call {
                Some(d) => request_step_tools(d, ctx),
                None => Ok(()),
            },
            RequestStage::TokenBudget => Ok(()),
            RequestStage::RateLimiter => Ok(()),
        }
    }

    /// Runs the rate limiter stage, which records the principal it checked.
    fn run_rate_stage(&mut self, ctx: &mut RequestContext) -> (r: Result<(), DetectorError>)
        requires
            old(self).wf(),
            old(self).has_stage(RequestStage::RateLimiter),
        ensures
            final(self).wf(),
            final(self).same_config(*old(self)),
            final(ctx).same_request(old(ctx)),
            step(old(ctx).results(), final(ctx).results(), r, "rate_limiter"@),
            request_stage(*old(self), *final(self), RequestStage::RateLimiter, *old(ctx), *final(ctx), r),
    {
        let rl = self.rate_limiter.take();
        match rl {
            Some(mut d) => {
                let r = request_step_rate(&mut d, ctx);
                self.rate_limiter = Some(d);
                r
            },
            None => {
                self.rate_limiter = None;
                Ok(())
            },
        }
    }

    /// Runs the token budget stage, which changes the token budget's usage.
    fn run_budget_stage(&mut self, ctx: &mut RequestContext) -> (r: Result<(), DetectorError>)
        requires
            old(self).wf(),
            old(self).has_stage(RequestStage::TokenBudget),
        ensures
            final(self).wf(),
            final(self).same_config(*old(self)),
            final(ctx).same_request(old(ctx)),
            step(old(ctx).results(), final(ctx).results(), r, "token_budget"@),
            request_stage(*old(self), *final(self), RequestStage::TokenBudget, *old(ctx), *final(ctx), r),
    {
        let tb = self.token_budget.take();
        match tb {
            Some(mut d) => {
                let ghost b0 = d;
                let r = request_step_budget(&mut d, ctx);
                self.token_budget = Some(d);
                proof {
                    let now = choose|now: u128| budget_outcome(b0, d, *old(ctx), *ctx, r, now);
                    assert(budget_outcome(b0, d, *old(ctx), *ctx, r, now));
                    assert(old(self).token_budget_det()->0 == b0);
                    assert(self.token_budget_det()->0 == d);
                    assert(budget_outcome(
                        old(self).token_budget_det()->0,
                        self.token_budget_det()->0,
                        *old(ctx),
                        *ctx,
                        r,
                        now,
                    ));
                }
                r
            },
            None => {
                self.token_budget = None;
                Ok(())
            },
        }
    }

    /// Runs the request detectors in order and stops at the first that
    /// blocks: that detector's error is the result, and its block entry is
    /// the last entry recorded. Each stage does what its detector's contract
    /// states, on the context the stage before it left.
    #[verifier::rlimit(40)]
    pub fn run_request(&mut self, ctx: &mut RequestContext) -> (r: Result<(), DetectorError>)
        requires
            old(self).wf(),
        ensures
            final(self).wf(),
            final(self).request_names() == old(self).request_names(),
            final(self).request_stages() == old(self).request_stages(),
            final(self).response_first_names() == old(self).response_first_names(),
            final(self).response_rest_names() == old(self).response_rest_names(),
            final(self).checks_tool_calls() == old(self).checks_tool_calls(),
            final(ctx).same_request(old(ctx)),
            run_outcome(old(ctx).results(), final(ctx).results(), r, old(self).request_names()),
            exists|ps: Seq<Pipeline>, ctxs: Seq<RequestContext>, rs: Seq<Result<(), DetectorError>>|
                #[trigger] request_run(*old(self), *final(self), ps, ctxs, rs) && ctxs[0] == *old(ctx)
                    && ctxs.last() == *final(ctx) && r == (if rs.len() > 0 && rs.last() is Err {
                    rs.last()
                } else {
                    Ok(())
                }),
    {
        let ghost p0 = *self;
        let ghost c0 = *ctx;
        let ghost start = ctx.results();
        let stages = self.stage_list();
        proof {
            self.lemma_stages_present();
            self.lemma_request_names();
            lemma_run_empty(start, Ok(()));
            assert(stage_names(stages@.take(0)) =~= Seq::empty());
            assert(stages@.take(0) =~= Seq::empty());
            if stages@.len() == 0 {
                assert(stages@.take(0) =~= stages@);
            }
        }
        let ghost mut ps: Seq<Pipeline> = seq![*self];
        let ghost mut ctxs: Seq<RequestContext> = seq![*ctx];
        let ghost mut rs: Seq<Result<(), DetectorError>> = Seq::empty();
        let mut i: usize = 0;
        let mut outcome: Result<(), DetectorError> = Ok(());
        while i < stages.len()
            invariant_except_break
                i <= stages.len(),
                rs.len() == i,
                chain_holds(stages@.take(i as int), ps, ctxs, rs),
                rs.len() == 0 || rs.last() is Ok,
                run_outcome(start, ctx.results(), Ok(()), stage_names(stages@.take(i as int))),
                outcome == Ok::<(), DetectorError>(()),
                i == stages.len() ==> stages@.take(i as int) == stages@,
            invariant
                stages@ == p0.request_stages(),
                forall|j: int| 0 <= j < stages@.len() ==> p0.has_stage(#[trigger] stages@[j]),
                p0.request_names() == stage_names(p0.request_stages()),
                self.wf(),
                self.same_config(p0),
                ctx.same_request(&c0),
                start == c0.results(),
                ps[0] == p0,
                ps.last() == *self,
                ctxs[0] == c0,
                ctxs.last() == *ctx,
            ensures
                request_run(p0, *self, ps, ctxs, rs),
                outcome == (if rs.len() > 0 && rs.last() is Err {
                    rs.last()
                } else {
                    Ok(())
                }),
                run_outcome(start, ctx.results(), outcome, p0.request_names()),
            decreases stages.len() - i,
        {
            let stage = stages[i];
            let ghost mid = ctx.results();
            let ghost names = stage_names(stages@.take(i as int));
            let r = match stage {
                RequestStage::TokenBudget => self.run_budget_stage(ctx),
                RequestStage::RateLimiter => self.run_rate_stage(ctx),
                _ => self.run_plain_stage(stage, ctx),
            };
            proof {
                lemma_run_extend(start, mid, ctx.results(), names, stage_name(stage), Ok(()), r);
                lemma_chain_push(stages@.take(i as int), ps, ctxs, rs, stage, *self, *ctx, r);
                assert(stages@.take(i as int).push(stage) =~= stages@.take(i + 1));
                assert(names.push(stage_name(stage)) =~= stage_names(stages@.take(i + 1)));
                ps = ps.push(*self);
                ctxs = ctxs.push(*ctx);
                rs = rs.push(r);
            }
            match r {
                Ok(()) => {
                    proof {
                        lemma_run_ok(start, ctx.results(), r, stage_names(stages@.take(i + 1)));
                    }
                },
                Err(e) => {
                    proof {
                        let full = p0.request_names();
                        assert(full.take(i + 1) =~= stage_names(stages@.take(i + 1)));
                        lemma_run_prefix(start, ctx.results(), r, stage_names(stages@.take(i + 1)), full);
                    }
                    outcome = Err(e);
                    break;
                },
            }
            i += 1;
            proof {
                if i == stages.len() {
                    assert(stages@.take(i as int) =~= stages@);
                }
            }
        }
        proof {
            self.lemma_same_config(p0);
        }
        outcome
    }

    /// The DLP stage of a response run, from `c0` to `c1` with result `r`;
    /// without DLP nothing changes.
    pub open spec fn response_first_stage(&self, c0: ResponseContext, c1: ResponseContext, r: Result<(), DetectorError>) -> bool {
        match self.dlp_det() {
            Some(d) => dlp_response_outcome(d, c0, c1, r),
            None => c1 == c0 && r == Ok::<(), DetectorError>(()),
        }
    }

    /// The tool-call stage of a response run, given the parsed payloads.
    pub open spec fn tool_stage(
        &self,
        parsed: Seq<JsonValue>,
        c0: ResponseContext,
        c1: ResponseContext,
        r: Result<(), DetectorError>,
    ) -> bool {
        match self.tool_call_det() {
            Some(d) => tool_response_outcome(d, parsed, c0, c1, r),
            None => c1 == c0 && r == Ok::<(), DetectorError>(()),
        }
    }

    /// The output sanitizer stage of a response run.
    pub open spec fn sanitizer_stage(&self, c0: ResponseContext, c1: ResponseContext, r: Result<(), DetectorError>) -> bool {
        match self.output_sanitizer_det() {
            Some(d) => sanitizer_response_outcome(d, c0, c1, r),
            None => c1 == c0 && r == Ok::<(), DetectorError>(()),
        }
    }

    /// The tool-call stage went from `c0` to `mid` with `r1`; the run stops
    /// there when it failed, else the sanitizer goes from `mid` to `c1`.
    pub open spec fn rest_through(
        &self,
        parsed: Seq<JsonValue>,
        c0: ResponseContext,
        mid: ResponseContext,
        r1: Result<(), DetectorError>,
        c1: ResponseContext,
        r: Result<(), DetectorError>,
    ) -> bool {
        &&& self.tool_stage(parsed, c0, mid, r1)
        &&& if r1 is Err {
            c1 == mid && r == r1
        } else {
            self.sanitizer_stage(mid, c1, r)
        }
    }

    /// The stages after DLP, exactly, from `c0` to `c1` with result `r`.
    pub open spec fn response_rest_run(
        &self,
        parsed: Seq<JsonValue>,
        c0: ResponseContext,
        c1: ResponseContext,
        r: Result<(), DetectorError>,
    ) -> bool {
        exists|mid: ResponseContext, r1: Result<(), DetectorError>|
            #[trigger] self.rest_through(parsed, c0, mid, r1, c1, r)
    }

    /// DLP went from `c0` to `mid` with `r1`; when it passed, the payloads
    /// framed out of the text it left were read with `parse` (when tool calls
    /// are checked) into `parsed`, and the remaining stages went from `mid`
    /// to `c1`.
    pub open spec fn response_through<F: Fn(&str) -> Option<JsonValue>>(
        &self,
        parse: F,
        c0: ResponseContext,
        mid: ResponseContext,
        r1: Result<(), DetectorError>,
        parsed: Seq<JsonValue>,
        c1: ResponseContext,
        r: Result<(), DetectorError>,
    ) -> bool {
        &&& self.response_first_stage(c0, mid, r1)
        &&& if r1 is Err {
            c1 == mid && r == r1
        } else {
            &&& if self.checks_tool_calls() {
                exists|outs: Seq<Option<JsonValue>>|
                    #[trigger] parse_results(parse, tool_payloads_spec(mid.body_text@, mid.is_stream), outs)
                        && parsed == somes(outs)
            } else {
                parsed == Seq::<JsonValue>::empty()
            }
            &&& self.response_rest_run(parsed, mid, c1, r)
        }
    }

    /// A response run, exactly, from `c0` to `c1` with result `r`.
    pub open spec fn response_run<F: Fn(&str) -> Option<JsonValue>>(
        &self,
        parse: F,
        c0: ResponseContext,
        c1: ResponseContext,
        r: Result<(), DetectorError>,
    ) -> bool {
        exists|mid: ResponseContext, r1: Result<(), DetectorError>, parsed: Seq<JsonValue>|
            #[trigger] self.response_through(parse, c0, mid, r1, parsed, c1, r)
    }

    /// Runs the response detectors that come before tool calls are checked
    /// (DLP), stopping at the first that blocks.
    pub fn run_response_first(&self, ctx: &mut ResponseContext) -> (r: Result<(), DetectorError>)
        requires
            self.wf(),
        ensures
            final(ctx).same_response(old(ctx)),
            run_outcome(old(ctx).results(), final(ctx).results(), r, self.response_first_names()),
            self.response_first_stage(*old(ctx), *final(ctx), r),
    {
        let ghost start = ctx.results();
        let ghost full = self.response_first_names();
        let ghost mut names: Seq<Seq<char>> = Seq::empty();
        let ghost mut prev: Result<(), DetectorError> = Ok(());
        proof {
            lemma_run_empty(start, prev);
        }
        let ghost mid = ctx.results();
        match &self.dlp {
            Some(d) => {
                let r = response_step_dlp(d, ctx);
                proof {
                    lemma_run_extend(start, mid, ctx.results(), names, "dlp"@, prev, r);
                    prev = r;
                    names = names.push("dlp"@);
                    assert(names =~= full);
                }
                match r {
                    Ok(()) => {},
                    Err(e) => {
                        return Err(e);
                    },
                }
            },
            None => {
                proof {
                    assert(names =~= full);
                }
            },
        }
        proof {
            lemma_run_ok(start, ctx.results(), prev, names);
        }
        Ok(())
    }

    /// Whether the tool-call payloads of the response must be parsed for
    /// `run_response_rest`.
    pub fn needs_tool_payloads(&self) -> (r: bool)
        ensures
            r == self.checks_tool_calls(),
    {
        self.tool_call.is_some()
    }

    /// Runs the remaining response detectors (tool calls, then the output
    /// sanitizer), stopping at the first that blocks. `parsed` holds the JSON
    /// values parsed from the payloads that `tool_payloads` frames out of the
    /// response body as it stands after `run_response_first`.
    pub fn run_response_rest(&self, ctx: &mut ResponseContext, parsed: &Vec<JsonValue>) -> (r: Result<
        (),
        DetectorError,
    >)
        requires
            self.wf(),
        ensures
            final(ctx).same_response(old(ctx)),
            run_outcome(old(ctx).results(), final(ctx).results(), r, self.response_rest_names()),
            self.response_rest_run(parsed@, *old(ctx), *final(ctx), r),
    {
        let ghost c0 = *ctx;
        let ghost start = ctx.results();
        let ghost full = self.response_rest_names();
        let ghost mut names: Seq<Seq<char>> = Seq::empty();
        let ghost mut prev: Result<(), DetectorError> = Ok(());
        proof {
            lemma_run_empty(start, prev);
        }
        let ghost mid = ctx.results();
        let r1 = match &self.tool_call {
            Some(d) => response_step_tools(d, ctx, parsed),
            None => Ok(()),
        };
        let ghost c_mid = *ctx;
        match &self.tool_call {
            Some(d) => {
                proof {
                    lemma_run_extend(start, mid, ctx.results(), names, "tool_call"@, prev, r1);
                    prev = r1;
                    names = names.push("tool_call"@);
                    assert(names =~= opt_name(true, "tool_call"@));
                }
                match r1 {
                    Ok(()) => {},
                    Err(e) => {
                        proof {
                            assert(full.take(names.len() as int) =~= names);
                            lemma_run_prefix(start, ctx.results(), r1, names, full);
                            assert(self.rest_through(parsed@, c0, c_mid, r1, *ctx, r1));
                        }
                        return Err(e);
                    },
                }
            },
            None => {
                proof {
                    assert(names =~= opt_name(false, "tool_call"@));
                }
            },
        }
        let ghost n1 = names;
        let ghost mid = ctx.results();
        let r2 = match &self.output_sanitizer {
            Some(d) => response_step_sanitizer(d, ctx),
            None => Ok(()),
        };
        proof {
            assert(self.rest_through(parsed@, c0, c_mid, r1, *ctx, r2));
        }
        match &self.output_sanitizer {
            Some(d) => {
                proof {
                    lemma_run_extend(start, mid, ctx.results(), names, "output_sanitizer"@, prev, r2);
                    prev = r2;
                    names = names.push("output_sanitizer"@);
                    assert(names =~= n1 + opt_name(true, "output_sanitizer"@));
                }
                match r2 {
                    Ok(()) => {},
                    Err(e) => {
                        proof {
                            assert(full.take(names.len() as int) =~= names);
                            lemma_run_prefix(start, ctx.results(), r2, names, full);
                        }
                        return Err(e);
                    },
                }
            },
            None => {
                proof {
                    assert(names =~= n1 + opt_name(false, "output_sanitizer"@));
                }
            },
        }
        assert(names =~= full);
        proof {
            lemma_run_ok(start, ctx.results(), prev, names);
            assert(r2 is Ok);
            assert(self.rest_through(parsed@, c0, c_mid, r1, *ctx, Ok(())));
        }
        Ok(())
    }

    /// Runs the response detectors in order and stops at the first that
    /// blocks. Before tool calls are checked, the payloads that
    /// `tool_payloads` frames out of the (possibly redacted) body are read
    /// with `parse`; those it cannot read are left out.
    pub fn run_response<F: Fn(&str) -> Option<JsonValue>>(&self, ctx: &mut ResponseContext, parse: F) -> (r: Result<
        (),
        DetectorError,
    >)
        requires
            self.wf(),
            forall|t: &str| call_requires(parse, (t,)),
        ensures
            final(ctx).same_response(old(ctx)),
            run_outcome(
                old(ctx).results(),
                final(ctx).results(),
                r,
                self.response_first_names() + self.response_rest_names(),
            ),
            self.response_run(parse, *old(ctx), *final(ctx), r),
    {
        let ghost c0 = *ctx;
        let ghost start = ctx.results();
        let r1 = self.run_response_first(ctx);
        let ghost c_mid = *ctx;
        match r1 {
            Ok(()) => {},
            Err(e) => {
                proof {
                    let full = self.response_first_names() + self.response_rest_names();
                    assert(full.take(self.response_first_names().len() as int) =~= self.response_first_names());
                    lemma_run_prefix(start, ctx.results(), r1, self.response_first_names(), full);
                    assert(self.response_through(parse, c0, c_mid, r1, Seq::empty(), *ctx, r1));
                }
                return Err(e);
            },
        }
        let ghost mid = ctx.results();
        let ghost texts = tool_payloads_spec(ctx.body_text@, ctx.is_stream);
        let ghost mut outs: Seq<Option<JsonValue>> = Seq::empty();
        let mut parsed: Vec<JsonValue> = Vec::new();
        if self.needs_tool_payloads() {
            let payloads = tool_payloads(ctx.body_text.as_str(), ctx.is_stream);
            let mut i: usize = 0;
            while i < payloads.len()
                invariant
                    i <= payloads.len(),
                    forall|t: &str| call_requires(parse, (t,)),
                    strings_view(payloads@) == texts,
                    outs.len() == i,
                    forall|j: int| 0 <= j < i ==> #[trigger] parsed_one(parse, texts[j], outs[j]),
                    parsed@ == somes(outs),
                decreases payloads.len() - i,
            {
                let t = payloads[i].as_str();
                let o = parse(t);
                proof {
                    assert(t@ == strings_view(payloads@)[i as int]);
                    assert(parsed_one(parse, texts[i as int], o));
                    let before = outs;
                    outs = outs.push(o);
                    assert(outs.drop_last() =~= before);
                    assert forall|j: int| 0 <= j < i + 1 implies #[trigger] parsed_one(parse, texts[j], outs[j]) by {
                        if j < i {
                            assert(outs[j] == before[j]);
                        }
                    }
                }
                match o {
                    Some(v) => parsed.push(v),
                    None => {},
                }
                i += 1;
            }
            proof {
                assert(parse_results(parse, texts, outs));
            }
        } else {
            assert(parsed@ =~= Seq::<JsonValue>::empty());
        }
        let r2 = self.run_response_rest(ctx, &parsed);
        proof {
            lemma_run_concat(
                start,
                mid,
                ctx.results(),
                r1,
                r2,
                self.response_first_names(),
                self.response_rest_names(),
            );
            assert(self.response_through(parse, c0, c_mid, r1, parsed@, *ctx, r2));
        }
        r2
    }
}

} // verus!
