use vstd::prelude::*;

use crate::config::{DetectorAction, DlpConfig, DlpRuleConfig};
use crate::detectors::prompt::{lemma_flatten_contains, lemma_flatten_step, push_text, strings_view};
use crate::errors::{DetectorError, STATUS_FORBIDDEN};
use crate::json::{
    entries_view, items_view, lemma_array_view, lemma_object_view, Json, JsonValue,
};
use crate::matching::{
    regex_check, regex_compile_outcome, regex_is_match, regex_matches, regex_ok,
    regex_replace_all, regex_replaced,
};
use crate::ordered::{join_seq, prefixed_list};
use crate::pipeline::context::{step, DetectorActionTaken, RequestContext, ResponseContext};
use crate::text::{push_all, to_owned_string};

verus! {

/// A rule as plain values: name, pattern, action.
pub type RuleView = (Seq<char>, Seq<char>, DetectorAction);

/// Every string in a value, each followed by a line feed, in document order
/// (object members in the order they are held).
pub open spec fn collected_text(j: Json) -> Seq<char>
    decreases j, 1int,
{
    match j {
        Json::Str(t) => t + "\n"@,
        Json::Array(items) => items_text_each(j, items).flatten_alt(),
        Json::Object(es) => entries_text_each(j, es).flatten_alt(),
        _ => Seq::empty(),
    }
}

pub open spec fn items_text_each(parent: Json, items: Seq<Json>) -> Seq<Seq<char>>
    decreases parent, 0int,
{
    Seq::new(
        items.len(),
        |i: int|
            if 0 <= i < items.len() && decreases_to!(parent => items[i]) {
                collected_text(items[i])
            } else {
                Seq::empty()
            },
    )
}

pub open spec fn entries_text_each(parent: Json, es: Seq<(Seq<char>, Json)>) -> Seq<Seq<char>>
    decreases parent, 0int,
{
    Seq::new(
        es.len(),
        |i: int|
            if 0 <= i < es.len() && decreases_to!(parent => es[i].1) {
                collected_text(es[i].1)
            } else {
                Seq::empty()
            },
    )
}

/// For each rule, its name when it has the given action and its pattern
/// matches the text, else nothing.
pub open spec fn rule_hits(rules: Seq<RuleView>, action: DetectorAction, text: Seq<char>) -> Seq<
    Seq<Seq<char>>,
> {
    Seq::new(
        rules.len(),
        |i: int|
            if rules[i].2 == action && regex_matches(rules[i].1, text) {
                seq![rules[i].0]
            } else {
                Seq::<Seq<char>>::empty()
            },
    )
}

/// Names of the rules with the given action whose pattern matches the text,
/// in rule order.
pub open spec fn matched_names(rules: Seq<RuleView>, action: DetectorAction, text: Seq<char>) -> Seq<
    Seq<char>,
> {
    rule_hits(rules, action, text).flatten_alt()
}

/// Names of the rules with `action` whose entry in `matched` is true, in
/// rule order.
pub open spec fn selected_names(rules: Seq<RuleView>, action: DetectorAction, matched: Seq<bool>) -> Seq<
    Seq<char>,
> {
    selected_each(rules, action, matched).flatten_alt()
}

/// Per rule: its name when it has `action` and its `matched` entry is true.
pub open spec fn selected_each(rules: Seq<RuleView>, action: DetectorAction, matched: Seq<bool>) -> Seq<
    Seq<Seq<char>>,
> {
    Seq::new(
        rules.len(),
        |i: int|
            if rules[i].2 == action && matched[i] {
                seq![rules[i].0]
            } else {
                Seq::<Seq<char>>::empty()
            },
    )
}

/// The text after the first `n` rules: each redacting rule in turn replaces
/// its matches with `[REDACTED]`.
pub open spec fn redact_prefix(rules: Seq<RuleView>, n: int, text: Seq<char>) -> Seq<char>
    decreases n,
{
    if n <= 0 {
        text
    } else {
        let t = redact_prefix(rules, n - 1, text);
        if rules[n - 1].2 == DetectorAction::Redact {
            regex_replaced(rules[n - 1].1, t, "[REDACTED]"@)
        } else {
            t
        }
    }
}

/// No redacting rule matches the text.
pub open spec fn no_redaction_match(rules: Seq<RuleView>, text: Seq<char>) -> bool {
    forall|k: int|
        0 <= k < rules.len() && rules[k].2 == DetectorAction::Redact ==> !regex_matches(
            #[trigger] rules[k].1,
            text,
        )
}

pub open spec fn redact_text_spec(rules: Seq<RuleView>, text: Seq<char>) -> Seq<char> {
    redact_prefix(rules, rules.len() as int, text)
}

/// The value with every string redacted.
pub open spec fn redact_value_spec(rules: Seq<RuleView>, j: Json) -> Json
    decreases j, 1int,
{
    match j {
        Json::Str(t) => Json::Str(redact_text_spec(rules, t)),
        Json::Array(items) => Json::Array(redact_items_each(rules, j, items)),
        Json::Object(es) => Json::Object(redact_entries_each(rules, j, es)),
        _ => j,
    }
}

pub open spec fn redact_items_each(rules: Seq<RuleView>, parent: Json, items: Seq<Json>) -> Seq<Json>
    decreases parent, 0int,
{
    Seq::new(
        items.len(),
        |i: int|
            if 0 <= i < items.len() && decreases_to!(parent => items[i]) {
                redact_value_spec(rules, items[i])
            } else {
                Json::Null
            },
    )
}

pub open spec fn redact_entries_each(rules: Seq<RuleView>, parent: Json, es: Seq<(Seq<char>, Json)>) -> Seq<
    (Seq<char>, Json),
>
    decreases parent, 0int,
{
    Seq::new(
        es.len(),
        |i: int|
            if 0 <= i < es.len() && decreases_to!(parent => es[i].1) {
                (es[i].0, redact_value_spec(rules, es[i].1))
            } else {
                (Seq::empty(), Json::Null)
            },
    )
}

/// The reason recorded for the rules of one action that matched: which
/// action, then the rule names in rule order.
pub open spec fn dlp_reason(rules: Seq<RuleView>, action: DetectorAction, text: Seq<char>) -> Seq<char> {
    let prefix = match action {
        DetectorAction::Block => "blocked DLP rule(s): "@,
        DetectorAction::Redact => "redacted DLP rule(s): "@,
        DetectorAction::LogOnly => "logged DLP rule(s): "@,
    };
    prefix + join_seq(matched_names(rules, action, text), ", "@)
}

struct DlpRule {
    name: String,
    pattern: String,
    action: DetectorAction,
}

/// Scans request bodies and response texts with configured regular
/// expressions, blocking, redacting or logging what they match.
pub struct DlpDetector {
    rules: Vec<DlpRule>,
}

/// What the DLP check does to a request, from `c0` to `c1`: a blocking
/// match blocks with 403; else redacting matches redact a copy of the body;
/// else logging matches are recorded; else the request passes.
pub open spec fn dlp_request_outcome(
    d: DlpDetector,
    c0: RequestContext,
    c1: RequestContext,
    r: Result<(), DetectorError>,
) -> bool {
    &&& c1.same_request(&c0)
    &&& c1.prompt_tokens == c0.prompt_tokens
    &&& ({
        let rs = d.rules_spec();
        let body = c0.current_view();
        let text = collected_text(body);
        if matched_names(rs, DetectorAction::Block, text).len() > 0 {
            &&& r matches Err(DetectorError::Blocked { detector, reason, status })
                && detector@ == "dlp"@ && reason@ == dlp_reason(
                rs,
                DetectorAction::Block,
                text,
            ) && status == STATUS_FORBIDDEN
            &&& c1.modified_body == c0.modified_body
            &&& c1.results() == c0.results().push(
                (
                    "dlp"@,
                    DetectorActionTaken::Block,
                    Some(dlp_reason(rs, DetectorAction::Block, text)),
                ),
            )
        } else if matched_names(rs, DetectorAction::Redact, text).len() > 0 {
            &&& r is Ok
            &&& c1.modified_body matches Some(b) && b@ == redact_value_spec(
                rs,
                body,
            )
            &&& c1.results() == c0.results().push(
                (
                    "dlp"@,
                    DetectorActionTaken::Redact,
                    Some(dlp_reason(rs, DetectorAction::Redact, text)),
                ),
            )
        } else if matched_names(rs, DetectorAction::LogOnly, text).len() > 0 {
            &&& r is Ok
            &&& c1.modified_body == c0.modified_body
            &&& c1.results() == c0.results().push(
                (
                    "dlp"@,
                    DetectorActionTaken::LogOnly,
                    Some(dlp_reason(rs, DetectorAction::LogOnly, text)),
                ),
            )
        } else {
            &&& r is Ok
            &&& c1.modified_body == c0.modified_body
            &&& c1.results() == c0.results().push(
                ("dlp"@, DetectorActionTaken::Pass, None),
            )
        }
    })
}

/// What the DLP check does to a response, from `c0` to `c1`: a blocking
/// match blocks with 403; else redacting matches redact the text; else
/// logging matches are recorded; else the response passes.
pub open spec fn dlp_response_outcome(
    d: DlpDetector,
    c0: ResponseContext,
    c1: ResponseContext,
    r: Result<(), DetectorError>,
) -> bool {
    &&& c1.same_response(&c0)
    &&& ({
        let rs = d.rules_spec();
        let text = c0.body_text@;
        if matched_names(rs, DetectorAction::Block, text).len() > 0 {
            &&& r matches Err(DetectorError::Blocked { detector, reason, status })
                && detector@ == "dlp"@ && reason@ == dlp_reason(
                rs,
                DetectorAction::Block,
                text,
            ) && status == STATUS_FORBIDDEN
            &&& c1.body_text == c0.body_text
            &&& c1.results() == c0.results().push(
                (
                    "dlp"@,
                    DetectorActionTaken::Block,
                    Some(dlp_reason(rs, DetectorAction::Block, text)),
                ),
            )
        } else if matched_names(rs, DetectorAction::Redact, text).len() > 0 {
            &&& r is Ok
            &&& c1.body_text@ == redact_text_spec(rs, text)
            &&& c1.results() == c0.results().push(
                (
                    "dlp"@,
                    DetectorActionTaken::Redact,
                    Some(dlp_reason(rs, DetectorAction::Redact, text)),
                ),
            )
        } else if matched_names(rs, DetectorAction::LogOnly, text).len() > 0 {
            &&& r is Ok
            &&& c1.body_text == c0.body_text
            &&& c1.results() == c0.results().push(
                (
                    "dlp"@,
                    DetectorActionTaken::LogOnly,
                    Some(dlp_reason(rs, DetectorAction::LogOnly, text)),
                ),
            )
        } else {
            &&& r is Ok
            &&& c1.body_text == c0.body_text
            &&& c1.results() == c0.results().push(
                ("dlp"@, DetectorActionTaken::Pass, None),
            )
        }
    })
}

/// Every configured rule's pattern compiles.
pub open spec fn dlp_rules_compile(rules: Seq<DlpRuleConfig>) -> bool {
    forall|i: int| 0 <= i < rules.len() ==> regex_ok(#[trigger] rules[i].pattern@)
}

/// A block rule that matches wins: whatever redacting or logging rules also
/// match, a request whose collected text matches any rule with the `Block`
/// action fails with 403 from `dlp`, its body untouched and a block entry
/// recorded.
pub proof fn matching_block_rule_blocks_request(
    d: DlpDetector,
    c0: RequestContext,
    c1: RequestContext,
    r: Result<(), DetectorError>,
    i: int,
)
    requires
        dlp_request_outcome(d, c0, c1, r),
        0 <= i < d.rules_spec().len(),
        d.rules_spec()[i].2 == DetectorAction::Block,
        regex_matches(d.rules_spec()[i].1, collected_text(c0.current_view())),
    ensures
        r matches Err(DetectorError::Blocked { detector, status, .. }) && detector@ == "dlp"@ && status
            == STATUS_FORBIDDEN,
        c1.modified_body == c0.modified_body,
        c1.results().len() == c0.results().len() + 1,
        c1.results().last().1 == DetectorActionTaken::Block,
{
    let each = rule_hits(d.rules_spec(), DetectorAction::Block, collected_text(c0.current_view()));
    assert(each[i].len() == 1);
    lemma_flatten_contains(each, i, 0);
}

/// The same for a response: a matching block rule blocks it with 403 and
/// leaves its text as it was.
pub proof fn matching_block_rule_blocks_response(
    d: DlpDetector,
    c0: ResponseContext,
    c1: ResponseContext,
    r: Result<(), DetectorError>,
    i: int,
)
    requires
        dlp_response_outcome(d, c0, c1, r),
        0 <= i < d.rules_spec().len(),
        d.rules_spec()[i].2 == DetectorAction::Block,
        regex_matches(d.rules_spec()[i].1, c0.body_text@),
    ensures
        r matches Err(DetectorError::Blocked { detector, status, .. }) && detector@ == "dlp"@ && status
            == STATUS_FORBIDDEN,
        c1.body_text == c0.body_text,
        c1.results().len() == c0.results().len() + 1,
        c1.results().last().1 == DetectorActionTaken::Block,
{
    let each = rule_hits(d.rules_spec(), DetectorAction::Block, c0.body_text@);
    assert(each[i].len() == 1);
    lemma_flatten_contains(each, i, 0);
}

impl DlpDetector {
    pub closed spec fn rules_spec(&self) -> Seq<RuleView> {
        Seq::new(
            self.rules@.len(),
            |i: int| (self.rules@[i].name@, self.rules@[i].pattern@, self.rules@[i].action),
        )
    }

    /// Every pattern compiles.
    pub closed spec fn wf(&self) -> bool {
        forall|i: int| 0 <= i < self.rules@.len() ==> regex_ok(#[trigger] self.rules@[i].pattern@)
    }

    /// Builds the rules, failing with the regex error of the first pattern
    /// that does not compile.
    pub fn new(config: &DlpConfig) -> (r: Result<DlpDetector, String>)
        ensures
            r is Ok <==> dlp_rules_compile(config.rules@),
            match r {
                Ok(d) => d.wf() && d.rules_spec() == crate::config::rules_view(config.rules@),
                Err(m) => exists|i: int|
                    0 <= i < config.rules@.len() && regex_compile_outcome(
                        config.rules@[i].pattern@,
                    ) == Err::<(), Seq<char>>(m@) && (forall|k: int|
                        0 <= k < i ==> regex_ok(#[trigger] config.rules@[k].pattern@)),
            },
    {
        let mut rules: Vec<DlpRule> = Vec::new();
        let mut i: usize = 0;
        while i < config.rules.len()
            invariant
                i <= config.rules.len(),
                rules@.len() == i,
                forall|k: int|
                    0 <= k < i ==> (#[trigger] rules@[k]).name@ == config.rules@[k].name@
                        && rules@[k].pattern@ == config.rules@[k].pattern@ && rules@[k].action
                        == config.rules@[k].action && regex_ok(rules@[k].pattern@),
            decreases config.rules.len() - i,
        {
            let rule = &config.rules[i];
            match regex_check(rule.pattern.as_str()) {
                Ok(()) => {},
                Err(m) => {
                    assert(forall|k: int| 0 <= k < i ==> regex_ok(#[trigger] config.rules@[k].pattern@)) by {
                        assert forall|k: int| 0 <= k < i implies regex_ok(#[trigger] config.rules@[k].pattern@) by {
                            assert(rules@[k].pattern@ == config.rules@[k].pattern@);
                        }
                    }
                    return Err(m);
                },
            }
            rules.push(
                DlpRule { name: rule.name.clone(), pattern: rule.pattern.clone(), action: rule.action },
            );
            i += 1;
        }
        let d = DlpDetector { rules };
        assert(d.rules_spec() =~= crate::config::rules_view(config.rules@));
        assert forall|k: int| 0 <= k < config.rules@.len() implies regex_ok(#[trigger] config.rules@[k].pattern@) by {
            assert(d.rules@[k].pattern@ == config.rules@[k].pattern@);
        }
        Ok(d)
    }

    pub fn name(&self) -> (r: &'static str)
        ensures
            r@ == "dlp"@,
    {
        "dlp"
    }

    /// Names of the rules with `action` that match `text`.
    fn matching_rules(&self, text: &str, action: DetectorAction) -> (r: Vec<String>)
        requires
            self.wf(),
        ensures
            strings_view(r@) == matched_names(self.rules_spec(), action, text@),
    {
        let ghost rs = self.rules_spec();
        let mut matched: Vec<bool> = Vec::new();
        let mut i: usize = 0;
        while i < self.rules.len()
            invariant
                self.wf(),
                i <= self.rules.len(),
                rs == self.rules_spec(),
                matched@.len() == i,
                forall|k: int|
                    0 <= k < i ==> #[trigger] matched@[k] == (rs[k].2 == action && regex_matches(
                        rs[k].1,
                        text@,
                    )),
            decreases self.rules.len() - i,
        {
            let rule = &self.rules[i];
            let hit = rule.action == action && regex_is_match(rule.pattern.as_str(), text);
            matched.push(hit);
            i += 1;
        }
        let r = self.select_rules(action, &matched);
        proof {
            assert(selected_each(rs, action, matched@) =~= rule_hits(rs, action, text@));
        }
        r
    }

    /// Names of the rules with `action` whose entry in `matched` (one per
    /// rule, whether its pattern matched) is true, in rule order.
    pub fn select_rules(&self, action: DetectorAction, matched: &Vec<bool>) -> (r: Vec<String>)
        requires
            matched@.len() == self.rules_spec().len(),
        ensures
            strings_view(r@) == selected_names(self.rules_spec(), action, matched@),
    {
        let ghost rs = self.rules_spec();
        let ghost each = selected_each(rs, action, matched@);
        let mut out: Vec<String> = Vec::new();
        assert(strings_view(out@) =~= Seq::empty());
        let mut i: usize = 0;
        while i < self.rules.len()
            invariant
                i <= self.rules.len(),
                rs == self.rules_spec(),
                matched@.len() == rs.len(),
                each.len() == rs.len(),
                forall|k: int|
                    0 <= k < rs.len() ==> #[trigger] each[k] == (if rs[k].2 == action && matched@[k] {
                        seq![rs[k].0]
                    } else {
                        Seq::<Seq<char>>::empty()
                    }),
                strings_view(out@) == each.take(i as int).flatten_alt(),
            decreases self.rules.len() - i,
        {
            proof {
                assert(each.take(i + 1).drop_last() =~= each.take(i as int));
            }
            let rule = &self.rules[i];
            let ghost before = strings_view(out@);
            if rule.action == action && matched[i] {
                push_text(&mut out, &rule.name);
                assert(strings_view(out@) =~= before + each[i as int]);
            } else {
                assert(strings_view(out@) =~= before + each[i as int]);
            }
            i += 1;
        }
        assert(each.take(self.rules.len() as int) =~= each);
        out
    }

    /// `redact_text`: every redacting rule in turn replaces its matches with
    /// `[REDACTED]`.
    pub fn redact_text(&self, text: &str) -> (r: String)
        requires
            self.wf(),
        ensures
            r@ == redact_text_spec(self.rules_spec(), text@),
            no_redaction_match(self.rules_spec(), text@) ==> r@ == text@,
    {
        let ghost rs = self.rules_spec();
        let mut current = to_owned_string(text);
        let mut i: usize = 0;
        while i < self.rules.len()
            invariant
                self.wf(),
                i <= self.rules.len(),
                rs == self.rules_spec(),
                current@ == redact_prefix(rs, i as int, text@),
                no_redaction_match(rs, text@) ==> current@ == text@,
            decreases self.rules.len() - i,
        {
            assert(rs[i as int].1 == self.rules@[i as int].pattern@);
            let rule = &self.rules[i];
            if rule.action == DetectorAction::Redact {
                current = regex_replace_all(rule.pattern.as_str(), current.as_str(), "[REDACTED]");
            }
            i += 1;
        }
        current
    }

    /// `redact_value`: a copy of the value with every string redacted.
    pub fn redact_value(&self, value: &JsonValue) -> (r: JsonValue)
        requires
            self.wf(),
        ensures
            r@ == redact_value_spec(self.rules_spec(), value@),
        decreases value@,
    {
        match value {
            JsonValue::Str(t) => JsonValue::Str(self.redact_text(t.as_str())),
            JsonValue::Array(items) => {
                proof {
                    lemma_array_view(*items);
                }
                let ghost iv = items_view(items@);
                let mut out: Vec<JsonValue> = Vec::new();
                let mut i: usize = 0;
                while i < items.len()
                    invariant
                        self.wf(),
                        i <= items.len(),
                        iv == items_view(items@),
                        value@ == Json::Array(iv),
                        out@.len() == i,
                        forall|k: int|
                            0 <= k < i ==> (#[trigger] out@[k])@ == redact_items_each(
                                self.rules_spec(),
                                value@,
                                iv,
                            )[k],
                    decreases items.len() - i,
                {
                    proof {
                        assert(iv[i as int] == items@[i as int]@);
                        assert(decreases_to!(value@ => value@->Array_0));
                        assert(decreases_to!(iv => iv[i as int]));
                    }
                    let v = self.redact_value(&items[i]);
                    out.push(v);
                    i += 1;
                }
                proof {
                    lemma_array_view(out);
                    assert(items_view(out@) =~= redact_items_each(self.rules_spec(), value@, iv));
                }
                JsonValue::Array(out)
            },
            JsonValue::Object(es) => {
                proof {
                    lemma_object_view(*es);
                }
                let ghost ev = entries_view(es@);
                let mut out: Vec<(String, JsonValue)> = Vec::new();
                let mut i: usize = 0;
                while i < es.len()
                    invariant
                        self.wf(),
                        i <= es.len(),
                        ev == entries_view(es@),
                        value@ == Json::Object(ev),
                        out@.len() == i,
                        forall|k: int|
                            0 <= k < i ==> ((#[trigger] out@[k]).0@, out@[k].1@)
                                == redact_entries_each(self.rules_spec(), value@, ev)[k],
                    decreases es.len() - i,
                {
                    proof {
                        assert(ev[i as int] == (es@[i as int].0@, es@[i as int].1@));
                        assert(decreases_to!(value@ => value@->Object_0));
                        assert(decreases_to!(ev => ev[i as int]));
                        assert(decreases_to!(ev[i as int] => ev[i as int].1));
                    }
                    let v = self.redact_value(&es[i].1);
                    out.push((es[i].0.clone(), v));
                    i += 1;
                }
                proof {
                    lemma_object_view(out);
                    assert(entries_view(out@) =~= redact_entries_each(self.rules_spec(), value@, ev));
                }
                JsonValue::Object(out)
            },
            JsonValue::Null => JsonValue::Null,
            JsonValue::Bool(b) => JsonValue::Bool(*b),
            JsonValue::Number(_) => value.deep_clone(),
        }
    }

    /// Records a decision of the DLP scan on the request.
    fn request_reason(&self, text: &str, action: DetectorAction, names: &Vec<String>) -> (r: String)
        requires
            strings_view(names@) == matched_names(self.rules_spec(), action, text@),
        ensures
            r@ == dlp_reason(self.rules_spec(), action, text@),
    {
        let prefix = match action {
            DetectorAction::Block => "blocked DLP rule(s): ",
            DetectorAction::Redact => "redacted DLP rule(s): ",
            DetectorAction::LogOnly => "logged DLP rule(s): ",
        };
        prefixed_list(prefix, names)
    }

    /// Scans the text of every string in the request body: any blocking
    /// match blocks with 403; else redacting matches redact a copy of the
    /// body; else logging matches are recorded; else the request passes.
    pub fn inspect_request(&self, ctx: &mut RequestContext) -> (r: Result<(), DetectorError>)
        requires
            self.wf(),
        ensures
            step(old(ctx).results(), final(ctx).results(), r, "dlp"@),
            dlp_request_outcome(*self, *old(ctx), *final(ctx), r),
    {
        let text = collect_strings(ctx.current_body());
        let blocked = self.matching_rules(text.as_str(), DetectorAction::Block);
        if blocked.len() > 0 {
            let reason = self.request_reason(text.as_str(), DetectorAction::Block, &blocked);
            ctx.record(self.name(), DetectorActionTaken::Block, reason.clone());
            return Err(DetectorError::blocked(self.name(), reason));
        }
        let redacted = self.matching_rules(text.as_str(), DetectorAction::Redact);
        if redacted.len() > 0 {
            let changed = self.redact_value(ctx.current_body());
            ctx.modified_body = Some(changed);
            let reason = self.request_reason(text.as_str(), DetectorAction::Redact, &redacted);
            ctx.record(self.name(), DetectorActionTaken::Redact, reason);
            return Ok(());
        }
        let logged = self.matching_rules(text.as_str(), DetectorAction::LogOnly);
        if logged.len() > 0 {
            let reason = self.request_reason(text.as_str(), DetectorAction::LogOnly, &logged);
            ctx.record(self.name(), DetectorActionTaken::LogOnly, reason);
            return Ok(());
        }
        ctx.record_pass(self.name());
        Ok(())
    }

    /// Scans the response text: any blocking match blocks with 403; else
    /// redacting matches redact the text; else logging matches are recorded.
    pub fn inspect_response(&self, ctx: &mut ResponseContext) -> (r: Result<(), DetectorError>)
        requires
            self.wf(),
        ensures
            step(old(ctx).results(), final(ctx).results(), r, "dlp"@),
            dlp_response_outcome(*self, *old(ctx), *final(ctx), r),
    {
        let blocked = self.matching_rules(ctx.body_text.as_str(), DetectorAction::Block);
        if blocked.len() > 0 {
            let reason = self.request_reason(ctx.body_text.as_str(), DetectorAction::Block, &blocked);
            ctx.record(self.name(), DetectorActionTaken::Block, reason.clone());
            return Err(DetectorError::blocked(self.name(), reason));
        }
        let redacted = self.matching_rules(ctx.body_text.as_str(), DetectorAction::Redact);
        if redacted.len() > 0 {
            let reason = self.request_reason(
                ctx.body_text.as_str(),
                DetectorAction::Redact,
                &redacted,
            );
            ctx.body_text = self.redact_text(ctx.body_text.as_str());
            ctx.record(self.name(), DetectorActionTaken::Redact, reason);
            return Ok(());
        }
        let logged = self.matching_rules(ctx.body_text.as_str(), DetectorAction::LogOnly);
        if logged.len() > 0 {
            let reason = self.request_reason(
                ctx.body_text.as_str(),
                DetectorAction::LogOnly,
                &logged,
            );
            ctx.record(self.name(), DetectorActionTaken::LogOnly, reason);
            return Ok(());
        }
        ctx.record_pass(self.name());
        Ok(())
    }
}

fn collect_strings_into(value: &JsonValue, out: &mut String)
    ensures
        final(out)@ == old(out)@ + collected_text(value@),
    decreases value@,
{
    let ghost start = out@;
    match value {
        JsonValue::Str(t) => {
            push_all(out, t.as_str());
            push_all(out, "\n");
            assert(out@ =~= start + (t@ + "\n"@));
        },
        JsonValue::Array(items) => {
            proof {
                lemma_array_view(*items);
            }
            let ghost iv = items_view(items@);
            let ghost each = items_text_each(value@, iv);
            let mut i: usize = 0;
            while i < items.len()
                invariant
                    i <= items.len(),
                    iv == items_view(items@),
                    value@ == Json::Array(iv),
                    each == items_text_each(value@, iv),
                    out@ == start + each.take(i as int).flatten_alt(),
                decreases items.len() - i,
            {
                proof {
                    assert(iv[i as int] == items@[i as int]@);
                    assert(decreases_to!(value@ => value@->Array_0));
                    assert(decreases_to!(iv => iv[i as int]));
                    assert(each.take(i + 1).drop_last() =~= each.take(i as int));
                }
                collect_strings_into(&items[i], out);
                assert(start + each.take(i + 1).flatten_alt() =~= start + each.take(
                    i as int,
                ).flatten_alt() + each[i as int]);
                i += 1;
            }
            assert(each.take(items.len() as int) =~= each);
        },
        JsonValue::Object(es) => {
            proof {
                lemma_object_view(*es);
            }
            let ghost ev = entries_view(es@);
            let ghost each = entries_text_each(value@, ev);
            let mut i: usize = 0;
            while i < es.len()
                invariant
                    i <= es.len(),
                    ev == entries_view(es@),
                    value@ == Json::Object(ev),
                    each == entries_text_each(value@, ev),
                    out@ == start + each.take(i as int).flatten_alt(),
                decreases es.len() - i,
            {
                proof {
                    assert(ev[i as int] == (es@[i as int].0@, es@[i as int].1@));
                    assert(decreases_to!(value@ => value@->Object_0));
                    assert(decreases_to!(ev => ev[i as int]));
                    assert(decreases_to!(ev[i as int] => ev[i as int].1));
                    assert(each.take(i + 1).drop_last() =~= each.take(i as int));
                }
                collect_strings_into(&es[i].1, out);
                assert(start + each.take(i + 1).flatten_alt() =~= start + each.take(
                    i as int,
                ).flatten_alt() + each[i as int]);
                i += 1;
            }
            assert(each.take(es.len() as int) =~= each);
        },
        _ => {
            assert(out@ =~= start + Seq::empty());
        },
    }
}

/// The text a DLP scan of a body looks at: every string in it, each
/// followed by a line feed.
pub fn collect_strings(value: &JsonValue) -> (r: String)
    ensures
        r@ == collected_text(value@),
{
    let mut out = String::new();
    collect_strings_into(value, &mut out);
    assert(out@ =~= collected_text(value@));
    out
}

} // verus!
