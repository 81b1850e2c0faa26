use vstd::prelude::*;
use vstd::utf8::*;

use crate::config::{DetectorAction, InjectionConfig};
use crate::detectors::prompt::{
    lemma_flatten_contains, prompt_strings, prompt_strings_spec, push_text, strings_view,
};
use crate::detectors::tool_call::sorted_list;
use crate::errors::{DetectorError, STATUS_FORBIDDEN};
use crate::json::{get_array, items_view, json_get, json_set, lemma_array_view, Json, JsonValue};
use crate::detectors::prompt::lemma_get_decreases;
use crate::matching::{ac_build_outcome, ac_check, ac_find_all, ac_hits, ac_ok};
use crate::ordered::{join_seq, lemma_sorted_unique, prefixed_list, sort_dedup, strictly_sorted};
use crate::pipeline::context::{step, DetectorActionTaken, RequestContext, ResponseContext};
use crate::text::{all_ws, is_blank, push_all, to_lowercase, unicode_lowercase};

verus! {

broadcast use {encode_utf8_valid_utf8, encode_utf8_decode_utf8};

/// The configured patterns the detector keeps: blank ones dropped, the rest
/// lower-cased, in order.
pub open spec fn kept_patterns(ps: Seq<Seq<char>>) -> Seq<Seq<char>>
    decreases ps.len(),
{
    if ps.len() == 0 {
        Seq::empty()
    } else {
        let rest = kept_patterns(ps.drop_last());
        if all_ws(ps.last()) {
            rest
        } else {
            rest.push(unicode_lowercase(ps.last()))
        }
    }
}

/// The pattern named by each match whose index is in range, in order.
pub open spec fn hit_names(patterns: Seq<Seq<char>>, hits: Seq<(usize, usize, usize)>) -> Seq<
    Seq<char>,
> {
    Seq::new(
        hits.len(),
        |i: int|
            if (hits[i].0 as int) < patterns.len() {
                seq![patterns[hits[i].0 as int]]
            } else {
                Seq::<Seq<char>>::empty()
            },
    ).flatten_alt()
}

pub open spec fn texts_hits_each(patterns: Seq<Seq<char>>, texts: Seq<Seq<char>>) -> Seq<
    Seq<Seq<char>>,
> {
    Seq::new(texts.len(), |i: int| hit_names(patterns, ac_hits(patterns, texts[i])))
}

/// Every pattern matched in the texts, once per match, text by text.
pub open spec fn texts_hit_names(patterns: Seq<Seq<char>>, texts: Seq<Seq<char>>) -> Seq<
    Seq<char>,
> {
    texts_hits_each(patterns, texts).flatten_alt()
}

/// The text of the bytes `rest`, which start at byte `base` of the scanned
/// text, with every match from `hits` that lies on character boundaries
/// inside them replaced by `[REDACTED]`.
pub open spec fn redact_from(rest: Seq<u8>, base: int, hits: Seq<(usize, usize, usize)>) -> Seq<
    char,
>
    decreases hits.len(),
{
    if hits.len() == 0 {
        decode_utf8(rest)
    } else {
        let s = hits[0].1 - base;
        let e = hits[0].2 - base;
        if 0 <= s <= e <= rest.len() && is_char_boundary(rest, s) && is_char_boundary(
            rest.subrange(s, rest.len() as int),
            e - s,
        ) {
            decode_utf8(rest.subrange(0, s)) + "[REDACTED]"@ + redact_from(
                rest.subrange(e, rest.len() as int),
                hits[0].2 as int,
                hits.drop_first(),
            )
        } else {
            redact_from(rest, base, hits.drop_first())
        }
    }
}

/// A text with every pattern match replaced by `[REDACTED]`.
pub open spec fn redact_text_spec(patterns: Seq<Seq<char>>, text: Seq<char>) -> Seq<char> {
    redact_from(encode_utf8(text), 0, ac_hits(patterns, text))
}

/// `value[key]` replaced by `o`'s value, when there is one.
pub open spec fn set_opt(j: Json, key: Seq<char>, o: Option<Json>) -> Json {
    match o {
        Some(v) => json_set(j, key, v),
        None => j,
    }
}

/// Redaction of a message's `content`: strings are redacted, arrays part by
/// part, objects in their `text`, `content` and `output`.
pub open spec fn redact_content_spec(p: Seq<Seq<char>>, c: Json) -> Json
    decreases c, 1int,
{
    match c {
        Json::Str(t) => Json::Str(redact_text_spec(p, t)),
        Json::Array(parts) => Json::Array(redact_parts_each(p, c, parts)),
        Json::Object(_) => {
            let t = match json_get(c, "text"@) {
                Some(v) => {
                    proof {
                        lemma_get_decreases(c, "text"@);
                    }
                    Some(redact_content_spec(p, v))
                },
                None => None,
            };
            let cc = match json_get(c, "content"@) {
                Some(v) => {
                    proof {
                        lemma_get_decreases(c, "content"@);
                    }
                    Some(redact_content_spec(p, v))
                },
                None => None,
            };
            let o = match json_get(c, "output"@) {
                Some(v) => {
                    proof {
                        lemma_get_decreases(c, "output"@);
                    }
                    Some(redact_content_spec(p, v))
                },
                None => None,
            };
            set_opt(set_opt(set_opt(c, "text"@, t), "content"@, cc), "output"@, o)
        },
        _ => c,
    }
}

pub open spec fn redact_parts_each(p: Seq<Seq<char>>, parent: Json, parts: Seq<Json>) -> Seq<Json>
    decreases parent, 0int,
{
    Seq::new(
        parts.len(),
        |i: int|
            if 0 <= i < parts.len() && decreases_to!(parent => parts[i]) {
                redact_content_spec(p, parts[i])
            } else {
                Json::Null
            },
    )
}

/// `redact_content` on the value under `key`, when there is one.
pub open spec fn redact_key(p: Seq<Seq<char>>, j: Json, key: Seq<char>) -> Option<Json> {
    match json_get(j, key) {
        Some(v) => Some(redact_content_spec(p, v)),
        None => None,
    }
}

/// A message with its `content` redacted.
pub open spec fn redact_message_spec(p: Seq<Seq<char>>, m: Json) -> Json {
    set_opt(m, "content"@, redact_key(p, m, "content"@))
}

/// The body with the content of every chat message redacted.
pub open spec fn redact_messages_spec(p: Seq<Seq<char>>, body: Json) -> Json {
    match get_array(body, "messages"@) {
        Some(msgs) => json_set(
            body,
            "messages"@,
            Json::Array(Seq::new(msgs.len(), |i: int| redact_message_spec(p, msgs[i]))),
        ),
        None => body,
    }
}

/// A Responses-API input item with its `content`, `output` and `text` redacted.
pub open spec fn redact_input_item_spec(p: Seq<Seq<char>>, item: Json) -> Json {
    match item {
        Json::Str(_) => redact_content_spec(p, item),
        Json::Object(_) => set_opt(
            set_opt(
                set_opt(item, "content"@, redact_key(p, item, "content"@)),
                "output"@,
                redact_key(p, item, "output"@),
            ),
            "text"@,
            redact_key(p, item, "text"@),
        ),
        _ => item,
    }
}

/// A Responses-API `input` redacted: a string, each item of an array, or one item.
pub open spec fn redact_input_spec(p: Seq<Seq<char>>, input: Json) -> Json {
    match input {
        Json::Str(_) => redact_content_spec(p, input),
        Json::Array(items) => Json::Array(
            Seq::new(items.len(), |i: int| redact_input_item_spec(p, items[i])),
        ),
        Json::Object(_) => redact_input_item_spec(p, input),
        _ => input,
    }
}

/// Every prompt field of a body redacted: chat messages, then
/// `instructions`, then `input`.
pub open spec fn redact_prompt_spec(p: Seq<Seq<char>>, body: Json) -> Json {
    let b1 = redact_messages_spec(p, body);
    let b2 = set_opt(b1, "instructions"@, redact_key(p, b1, "instructions"@));
    match json_get(b2, "input"@) {
        Some(i) => json_set(b2, "input"@, redact_input_spec(p, i)),
        None => b2,
    }
}

/// The reason recorded when patterns match.
pub open spec fn injection_reason(names: Seq<Seq<char>>) -> Seq<char> {
    "matched injection pattern(s): "@ + join_seq(sorted_list(names.to_set()), ", "@)
}

pub open spec fn opt_json(o: Option<JsonValue>) -> Option<Json> {
    match o {
        Some(v) => Some(v@),
        None => None,
    }
}

/// `value[key] = v` when `o` holds a value `v`.
fn set_opt_exec(j: &mut JsonValue, key: &str, o: Option<JsonValue>)
    ensures
        final(j)@ == set_opt(old(j)@, key@, opt_json(o)),
{
    match o {
        Some(v) => j.set_key(key, v),
        None => {},
    }
}

/// Looks for configured prompt-injection signatures in the prompt text of a
/// request, case-insensitively, and blocks, redacts or logs what it finds.
pub struct InjectionDetector {
    action: DetectorAction,
    patterns: Vec<String>,
}

/// What the injection check does to a request, from `c0` to `c1`: with no
/// pattern or no match it passes; else, by the action, it blocks with 403,
/// redacts the prompt fields or logs, giving the matched patterns sorted.
pub open spec fn injection_request_outcome(
    d: InjectionDetector,
    c0: RequestContext,
    c1: RequestContext,
    r: Result<(), DetectorError>,
) -> bool {
    &&& c1.same_request(&c0)
    &&& c1.prompt_tokens == c0.prompt_tokens
    &&& ({
        let p = d.patterns_spec();
        let body = c0.current_view();
        let names = texts_hit_names(p, prompt_strings_spec(body));
        if p.len() == 0 || names.len() == 0 {
            &&& r is Ok
            &&& c1.modified_body == c0.modified_body
            &&& c1.results() == c0.results().push(
                ("prompt_injection"@, DetectorActionTaken::Pass, None),
            )
        } else {
            let reason = injection_reason(names);
            match d.action_spec() {
                DetectorAction::Block => {
                    &&& r matches Err(DetectorError::Blocked { detector, reason: m, status })
                        && detector@ == "prompt_injection"@ && m@ == reason && status
                        == STATUS_FORBIDDEN
                    &&& c1.modified_body == c0.modified_body
                    &&& c1.results() == c0.results().push(
                        ("prompt_injection"@, DetectorActionTaken::Block, Some(reason)),
                    )
                },
                DetectorAction::Redact => {
                    &&& r is Ok
                    &&& c1.modified_body matches Some(b) && b@
                        == redact_prompt_spec(p, body)
                    &&& c1.results() == c0.results().push(
                        ("prompt_injection"@, DetectorActionTaken::Redact, Some(reason)),
                    )
                },
                DetectorAction::LogOnly => {
                    &&& r is Ok
                    &&& c1.modified_body == c0.modified_body
                    &&& c1.results() == c0.results().push(
                        ("prompt_injection"@, DetectorActionTaken::LogOnly, Some(reason)),
                    )
                },
            }
        }
    })
}

/// Appends the pattern of each automaton match in `hits`, in order (a match
/// whose pattern index is out of range names nothing).
pub fn push_hit_names(patterns: &Vec<String>, hits: &Vec<(usize, usize, usize)>, out: &mut Vec<String>)
    ensures
        strings_view(final(out)@) == strings_view(old(out)@) + hit_names(strings_view(patterns@), hits@),
{
    let ghost pv = strings_view(patterns@);
    let ghost each = Seq::new(
        hits@.len(),
        |k: int|
            if (hits@[k].0 as int) < pv.len() {
                seq![pv[hits@[k].0 as int]]
            } else {
                Seq::<Seq<char>>::empty()
            },
    );
    let ghost start = strings_view(out@);
    let mut i: usize = 0;
    while i < hits.len()
        invariant
            i <= hits.len(),
            pv == strings_view(patterns@),
            each.len() == hits@.len(),
            forall|k: int|
                0 <= k < each.len() ==> #[trigger] each[k] == (if (hits@[k].0 as int)
                    < pv.len() {
                    seq![pv[hits@[k].0 as int]]
                } else {
                    Seq::<Seq<char>>::empty()
                }),
            strings_view(out@) == start + each.take(i as int).flatten_alt(),
        decreases hits.len() - i,
    {
        proof {
            assert(each.take(i + 1).drop_last() =~= each.take(i as int));
        }
        let idx = hits[i].0;
        if idx < patterns.len() {
            push_text(out, &patterns[idx]);
        }
        assert(strings_view(out@) =~= start + each.take(i + 1).flatten_alt());
        i += 1;
    }
    assert(each.take(hits.len() as int) =~= each);
}

/// `text` with each match in `hits` (pattern, start byte, end byte; in
/// order) replaced by `[REDACTED]`; a match that does not fall on character
/// boundaries after the previous one is skipped.
pub fn redact_with_hits(text: &str, hits: &Vec<(usize, usize, usize)>) -> (r: String)
    ensures
        r@ == redact_from(encode_utf8(text@), 0, hits@),
{
    let ghost hv = hits@;
    let ghost whole = redact_from(encode_utf8(text@), 0, hits@);
    let mut out = String::new();
    let mut rest: &str = text;
    let mut base: usize = 0;
    let mut i: usize = 0;
    assert(hv.skip(0) =~= hv);
    while i < hits.len()
        invariant
            i <= hits.len(),
            hv == hits@,
            out@ + redact_from(encode_utf8(rest@), base as int, hv.skip(i as int)) == whole,
        decreases hits.len() - i,
    {
        let ghost before = out@;
        let ghost rb = encode_utf8(rest@);
        proof {
            assert(hv.skip(i as int).drop_first() =~= hv.skip(i + 1));
            assert(hv.skip(i as int)[0] == hv[i as int]);
        }
        let s = hits[i].1;
        let e = hits[i].2;
        if s >= base && e >= s && rest.is_char_boundary(s - base) {
            let (a, b) = rest.split_at(s - base);
            if b.is_char_boundary(e - s) {
                let (_, c) = b.split_at(e - s);
                push_all(&mut out, a);
                push_all(&mut out, "[REDACTED]");
                proof {
                    assert(encode_utf8(a@) =~= rb.subrange(0, s - base));
                    assert(encode_utf8(b@) =~= rb.subrange(s - base, rb.len() as int));
                    assert(encode_utf8(c@) =~= rb.subrange(e - base, rb.len() as int));
                    assert(decode_utf8(encode_utf8(a@)) == a@);
                }
                rest = c;
                base = e;
                assert(out@ + redact_from(encode_utf8(rest@), base as int, hv.skip(i + 1)) =~= whole);
            } else {
                proof {
                    assert(encode_utf8(b@) =~= rb.subrange(s - base, rb.len() as int));
                }
            }
        }
        i += 1;
    }
    proof {
        assert(decode_utf8(encode_utf8(rest@)) == rest@);
    }
    push_all(&mut out, rest);
    out
}

/// Every prompt text of a request is scanned: when any one of them, at any
/// position among the request's prompt texts, holds a match of a kept
/// pattern, the request does not pass. Under `Block` it fails with 403 from
/// `prompt_injection`; under `Redact` or `LogOnly` it goes on, with an entry
/// of that action.
pub proof fn any_prompt_text_match_is_caught(
    d: InjectionDetector,
    c0: RequestContext,
    c1: RequestContext,
    r: Result<(), DetectorError>,
    k: int,
    j: int,
)
    requires
        injection_request_outcome(d, c0, c1, r),
        0 <= k < prompt_strings_spec(c0.current_view()).len(),
        0 <= j < ac_hits(d.patterns_spec(), prompt_strings_spec(c0.current_view())[k]).len(),
        (ac_hits(d.patterns_spec(), prompt_strings_spec(c0.current_view())[k])[j].0 as int)
            < d.patterns_spec().len(),
    ensures
        d.action_spec() == DetectorAction::Block ==> (r matches Err(
            DetectorError::Blocked { detector, status, .. },
        ) && detector@ == "prompt_injection"@ && status == STATUS_FORBIDDEN),
        d.action_spec() != DetectorAction::Block ==> r is Ok,
        c1.results().len() == c0.results().len() + 1,
        c1.results().last().0 == "prompt_injection"@,
        c1.results().last().1 != DetectorActionTaken::Pass,
{
    let p = d.patterns_spec();
    let ts = prompt_strings_spec(c0.current_view());
    let h = ac_hits(p, ts[k]);
    let inner = Seq::new(
        h.len(),
        |i: int|
            if (h[i].0 as int) < p.len() {
                seq![p[h[i].0 as int]]
            } else {
                Seq::<Seq<char>>::empty()
            },
    );
    assert(inner[j].len() == 1);
    lemma_flatten_contains(inner, j, 0);
    let hn = hit_names(p, h);
    assert(hn == inner.flatten_alt());
    assert(hn.len() > 0);
    let each = texts_hits_each(p, ts);
    assert(each[k] == hn);
    lemma_flatten_contains(each, k, 0);
    assert(texts_hit_names(p, ts).len() > 0);
}

impl InjectionDetector {
    pub closed spec fn action_spec(&self) -> DetectorAction {
        self.action
    }

    /// The kept patterns, blank ones dropped and the rest lower-cased.
    pub closed spec fn patterns_spec(&self) -> Seq<Seq<char>> {
        strings_view(self.patterns@)
    }

    /// The automaton of a non-empty pattern list builds.
    pub closed spec fn wf(&self) -> bool {
        self.patterns@.len() > 0 ==> ac_ok(strings_view(self.patterns@))
    }

    /// Keeps the non-blank patterns, lower-cased; fails with the builder's
    /// message when they do not make an automaton.
    pub fn new(config: &InjectionConfig) -> (r: Result<InjectionDetector, String>)
        ensures
            ({
                let kept = kept_patterns(strings_view(config.patterns@));
                match r {
                    Ok(d) => d.wf() && d.patterns_spec() == kept && d.action_spec()
                        == config.action && (kept.len() > 0 ==> ac_ok(kept)),
                    Err(m) => kept.len() > 0 && ac_build_outcome(kept) == Err::<
                        (),
                        Seq<char>,
                    >(m@),
                }
            }),
    {
        let ghost cv = strings_view(config.patterns@);
        let mut patterns: Vec<String> = Vec::new();
        let mut i: usize = 0;
        while i < config.patterns.len()
            invariant
                i <= config.patterns.len(),
                cv == strings_view(config.patterns@),
                strings_view(patterns@) == kept_patterns(cv.take(i as int)),
            decreases config.patterns.len() - i,
        {
            proof {
                assert(cv.take(i + 1).drop_last() =~= cv.take(i as int));
                assert(cv.take(i + 1).last() == cv[i as int]);
            }
            if !is_blank(config.patterns[i].as_str()) {
                let lower = to_lowercase(config.patterns[i].as_str());
                push_text(&mut patterns, &lower);
            }
            i += 1;
        }
        assert(cv.take(config.patterns.len() as int) =~= cv);
        if patterns.len() > 0 {
            match ac_check(&patterns) {
                Ok(()) => {},
                Err(m) => {
                    return Err(m);
                },
            }
        }
        Ok(InjectionDetector { action: config.action, patterns })
    }

    pub fn name(&self) -> (r: &'static str)
        ensures
            r@ == "prompt_injection"@,
    {
        "prompt_injection"
    }

    /// The pattern of every match in one text, in order.
    fn text_hits(&self, text: &String, out: &mut Vec<String>)
        requires
            self.wf(),
            self.patterns@.len() > 0,
        ensures
            strings_view(final(out)@) == strings_view(old(out)@) + hit_names(
                self.patterns_spec(),
                ac_hits(self.patterns_spec(), text@),
            ),
    {
        let hits = ac_find_all(&self.patterns, text.as_str());
        push_hit_names(&self.patterns, &hits, out);
    }

    /// The pattern of every match in the prompt texts, text by text.
    fn prompt_hits(&self, texts: &Vec<String>) -> (r: Vec<String>)
        requires
            self.wf(),
            self.patterns@.len() > 0,
        ensures
            strings_view(r@) == texts_hit_names(self.patterns_spec(), strings_view(texts@)),
    {
        let ghost tv = strings_view(texts@);
        let ghost each = texts_hits_each(self.patterns_spec(), tv);
        let mut out: Vec<String> = Vec::new();
        assert(strings_view(out@) =~= Seq::empty());
        let mut i: usize = 0;
        while i < texts.len()
            invariant
                self.wf(),
                self.patterns@.len() > 0,
                i <= texts.len(),
                tv == strings_view(texts@),
                each == texts_hits_each(self.patterns_spec(), tv),
                strings_view(out@) == each.take(i as int).flatten_alt(),
            decreases texts.len() - i,
        {
            proof {
                assert(each.take(i + 1).drop_last() =~= each.take(i as int));
            }
            self.text_hits(&texts[i], &mut out);
            i += 1;
        }
        assert(each.take(texts.len() as int) =~= each);
        out
    }

    /// `text` with every match replaced by `[REDACTED]`.
    fn redact_text(&self, text: &str) -> (r: String)
        requires
            self.wf(),
            self.patterns@.len() > 0,
        ensures
            r@ == redact_text_spec(self.patterns_spec(), text@),
    {
        let hits = ac_find_all(&self.patterns, text);
        redact_with_hits(text, &hits)
    }

    /// The redacted form of a message's `content`.
    fn redact_content(&self, c: &JsonValue) -> (r: JsonValue)
        requires
            self.wf(),
            self.patterns@.len() > 0,
        ensures
            r@ == redact_content_spec(self.patterns_spec(), c@),
        decreases c@,
    {
        match c {
            JsonValue::Str(t) => JsonValue::Str(self.redact_text(t.as_str())),
            JsonValue::Array(parts) => {
                proof {
                    lemma_array_view(*parts);
                }
                let ghost pv = items_view(parts@);
                let mut out: Vec<JsonValue> = Vec::new();
                let mut i: usize = 0;
                while i < parts.len()
                    invariant
                        self.wf(),
                        self.patterns@.len() > 0,
                        i <= parts.len(),
                        pv == items_view(parts@),
                        c@ == Json::Array(pv),
                        out@.len() == i,
                        forall|k: int|
                            0 <= k < i ==> (#[trigger] out@[k])@ == redact_parts_each(
                                self.patterns_spec(),
                                c@,
                                pv,
                            )[k],
                    decreases parts.len() - i,
                {
                    proof {
                        assert(pv[i as int] == parts@[i as int]@);
                        assert(decreases_to!(c@ => c@->Array_0));
                        assert(decreases_to!(pv => pv[i as int]));
                    }
                    let v = self.redact_content(&parts[i]);
                    out.push(v);
                    i += 1;
                }
                proof {
                    lemma_array_view(out);
                    assert(items_view(out@) =~= redact_parts_each(self.patterns_spec(), c@, pv));
                }
                JsonValue::Array(out)
            },
            JsonValue::Object(_) => {
                proof {
                    lemma_get_decreases(c@, "text"@);
                    lemma_get_decreases(c@, "content"@);
                    lemma_get_decreases(c@, "output"@);
                }
                let t = match c.get("text") {
                    Some(v) => Some(self.redact_content(v)),
                    None => None,
                };
                let cc = match c.get("content") {
                    Some(v) => Some(self.redact_content(v)),
                    None => None,
                };
                let o = match c.get("output") {
                    Some(v) => Some(self.redact_content(v)),
                    None => None,
                };
                let mut out = c.deep_clone();
                match t {
                    Some(v) => out.set_key("text", v),
                    None => {},
                }
                match cc {
                    Some(v) => out.set_key("content", v),
                    None => {},
                }
                match o {
                    Some(v) => out.set_key("output", v),
                    None => {},
                }
                out
            },
            _ => c.deep_clone(),
        }
    }

    /// `redact_content` on the value under `key`, when there is one.
    fn redact_under(&self, j: &JsonValue, key: &str) -> (r: Option<JsonValue>)
        requires
            self.wf(),
            self.patterns@.len() > 0,
        ensures
            opt_json(r) == redact_key(self.patterns_spec(), j@, key@),
    {
        match j.get(key) {
            Some(v) => Some(self.redact_content(v)),
            None => None,
        }
    }

    /// A message with its `content` redacted.
    fn redact_message(&self, m: &JsonValue) -> (r: JsonValue)
        requires
            self.wf(),
            self.patterns@.len() > 0,
        ensures
            r@ == redact_message_spec(self.patterns_spec(), m@),
    {
        let nc = self.redact_under(m, "content");
        let mut out = m.deep_clone();
        set_opt_exec(&mut out, "content", nc);
        out
    }

    /// A Responses-API input item with its `content`, `output` and `text` redacted.
    fn redact_input_item(&self, item: &JsonValue) -> (r: JsonValue)
        requires
            self.wf(),
            self.patterns@.len() > 0,
        ensures
            r@ == redact_input_item_spec(self.patterns_spec(), item@),
    {
        match item {
            JsonValue::Str(_) => self.redact_content(item),
            JsonValue::Object(_) => {
                let nc = self.redact_under(item, "content");
                let no = self.redact_under(item, "output");
                let nt = self.redact_under(item, "text");
                let mut out = item.deep_clone();
                set_opt_exec(&mut out, "content", nc);
                set_opt_exec(&mut out, "output", no);
                set_opt_exec(&mut out, "text", nt);
                out
            },
            _ => item.deep_clone(),
        }
    }

    /// A Responses-API `input` redacted.
    fn redact_input(&self, input: &JsonValue) -> (r: JsonValue)
        requires
            self.wf(),
            self.patterns@.len() > 0,
        ensures
            r@ == redact_input_spec(self.patterns_spec(), input@),
    {
        match input {
            JsonValue::Str(_) => self.redact_content(input),
            JsonValue::Array(items) => {
                proof {
                    lemma_array_view(*items);
                }
                let ghost iv = items_view(items@);
                let mut out: Vec<JsonValue> = Vec::new();
                let mut i: usize = 0;
                while i < items.len()
                    invariant
                        self.wf(),
                        self.patterns@.len() > 0,
                        i <= items.len(),
                        iv == items_view(items@),
                        out@.len() == i,
                        forall|k: int|
                            0 <= k < i ==> (#[trigger] out@[k])@ == redact_input_item_spec(
                                self.patterns_spec(),
                                iv[k],
                            ),
                    decreases items.len() - i,
                {
                    proof {
                        assert(iv[i as int] == items@[i as int]@);
                    }
                    let v = self.redact_input_item(&items[i]);
                    out.push(v);
                    i += 1;
                }
                proof {
                    lemma_array_view(out);
                    assert(items_view(out@) =~= Seq::new(
                        iv.len(),
                        |k: int| redact_input_item_spec(self.patterns_spec(), iv[k]),
                    ));
                }
                JsonValue::Array(out)
            },
            JsonValue::Object(_) => self.redact_input_item(input),
            _ => input.deep_clone(),
        }
    }

    /// The body with the content of every chat message redacted.
    fn redact_messages(&self, body: &JsonValue) -> (r: JsonValue)
        requires
            self.wf(),
            self.patterns@.len() > 0,
        ensures
            r@ == redact_messages_spec(self.patterns_spec(), body@),
    {
        match body.get_array("messages") {
            Some(msgs) => {
                let ghost mv = items_view(msgs@);
                let mut out: Vec<JsonValue> = Vec::new();
                let mut i: usize = 0;
                while i < msgs.len()
                    invariant
                        self.wf(),
                        self.patterns@.len() > 0,
                        i <= msgs.len(),
                        mv == items_view(msgs@),
                        out@.len() == i,
                        forall|k: int|
                            0 <= k < i ==> (#[trigger] out@[k])@ == redact_message_spec(
                                self.patterns_spec(),
                                mv[k],
                            ),
                    decreases msgs.len() - i,
                {
                    proof {
                        assert(mv[i as int] == msgs@[i as int]@);
                    }
                    let v = self.redact_message(&msgs[i]);
                    out.push(v);
                    i += 1;
                }
                proof {
                    lemma_array_view(out);
                    assert(items_view(out@) =~= Seq::new(
                        mv.len(),
                        |k: int| redact_message_spec(self.patterns_spec(), mv[k]),
                    ));
                }
                let mut b = body.deep_clone();
                b.set_key("messages", JsonValue::Array(out));
                b
            },
            None => body.deep_clone(),
        }
    }

    /// Every prompt field of a body redacted: chat messages, then
    /// `instructions`, then `input`.
    pub fn redact_prompt_fields(&self, body: &JsonValue) -> (r: JsonValue)
        requires
            self.wf(),
            self.patterns_spec().len() > 0,
        ensures
            r@ == redact_prompt_spec(self.patterns_spec(), body@),
    {
        let mut b = self.redact_messages(body);
        let ni = self.redact_under(&b, "instructions");
        set_opt_exec(&mut b, "instructions", ni);
        let nin = match b.get("input") {
            Some(i) => Some(self.redact_input(i)),
            None => None,
        };
        match nin {
            Some(v) => b.set_key("input", v),
            None => {},
        }
        b
    }

    /// Finds the patterns in the prompt text of the current body. With no
    /// pattern or no match the request passes; else, by the configured
    /// action, it is blocked with 403, its prompt fields are redacted, or the
    /// match is logged. The reason lists the matched patterns sorted, once each.
    pub fn inspect_request(&self, ctx: &mut RequestContext) -> (r: Result<(), DetectorError>)
        requires
            self.wf(),
        ensures
            step(old(ctx).results(), final(ctx).results(), r, "prompt_injection"@),
            injection_request_outcome(*self, *old(ctx), *final(ctx), r),
    {
        if self.patterns.len() == 0 {
            ctx.record_pass(self.name());
            return Ok(());
        }
        let texts = prompt_strings(ctx.current_body());
        let matched = self.prompt_hits(&texts);
        if matched.len() == 0 {
            ctx.record_pass(self.name());
            return Ok(());
        }
        let ghost names = strings_view(matched@);
        let sorted = sort_dedup(matched);
        proof {
            let sv = strings_view(sorted@);
            let l = sorted_list(names.to_set());
            assert(strictly_sorted(sv) && sv.to_set() == names.to_set());
            assert(strictly_sorted(l) && l.to_set() == names.to_set());
            lemma_sorted_unique(l, sv);
        }
        let reason = prefixed_list("matched injection pattern(s): ", &sorted);
        match self.action {
            DetectorAction::Block => {
                ctx.record(self.name(), DetectorActionTaken::Block, reason.clone());
                Err(DetectorError::blocked(self.name(), reason))
            },
            DetectorAction::Redact => {
                let changed = self.redact_prompt_fields(ctx.current_body());
                ctx.modified_body = Some(changed);
                ctx.record(self.name(), DetectorActionTaken::Redact, reason);
                Ok(())
            },
            DetectorAction::LogOnly => {
                ctx.record(self.name(), DetectorActionTaken::LogOnly, reason);
                Ok(())
            },
        }
    }

    /// Responses are not inspected: the response passes.
    pub fn inspect_response(&self, ctx: &mut ResponseContext) -> (r: Result<(), DetectorError>)
        ensures
            r is Ok,
            final(ctx).same_response(old(ctx)),
            final(ctx).body_text == old(ctx).body_text,
            final(ctx).results() == old(ctx).results().push(
                ("prompt_injection"@, DetectorActionTaken::Pass, None),
            ),
    {
        ctx.record_pass(self.name());
        Ok(())
    }
}

} // verus!
