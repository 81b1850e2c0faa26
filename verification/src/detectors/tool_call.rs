use vstd::prelude::*;

use crate::config::ToolCallConfig;
use crate::detectors::prompt::{
    extend_strings, lemma_flatten_contains, lemma_flatten_step, lemma_get_decreases, opt_strings,
    push_text, strings_view,
};
use crate::errors::{DetectorError, STATUS_FORBIDDEN};
use crate::json::{
    get_array, get_str, items_view, json_get, lemma_array_view, Json, JsonValue,
};
use crate::ordered::{join_seq, lemma_sorted_unique, prefixed_list, sort_dedup, strictly_sorted};
use crate::pipeline::context::{step, DetectorActionTaken, RequestContext, ResponseContext};
use crate::text::{
    chars_of, seq_ends_with, seq_starts_with, str_ends_with, str_eq, str_starts_with,
    string_from_chars, to_owned_string, trim_seq, trim_start_seq, trim_start_string, trim_string,
};

verus! {

// ----- names in requests -----

/// `tool.function.name`, else `tool.name`, else `tool.type`.
pub open spec fn request_tool_name(tool: Json) -> Option<Seq<char>> {
    let from_function = match json_get(tool, "function"@) {
        Some(f) => get_str(f, "name"@),
        None => None,
    };
    if from_function is Some {
        from_function
    } else if get_str(tool, "name"@) is Some {
        get_str(tool, "name"@)
    } else {
        get_str(tool, "type"@)
    }
}

pub open spec fn request_tools_each(ts: Seq<Json>) -> Seq<Seq<Seq<char>>> {
    Seq::new(ts.len(), |i: int| opt_strings(request_tool_name(ts[i])))
}

/// The name of every tool a request declares, in order.
pub open spec fn request_tool_names_spec(body: Json) -> Seq<Seq<char>> {
    match get_array(body, "tools"@) {
        Some(ts) => request_tools_each(ts).flatten_alt(),
        None => Seq::empty(),
    }
}

// ----- names in responses -----

/// `call.function.name`.
pub open spec fn call_function_name(call: Json) -> Option<Seq<char>> {
    match json_get(call, "function"@) {
        Some(f) => get_str(f, "name"@),
        None => None,
    }
}

pub open spec fn calls_each(calls: Seq<Json>) -> Seq<Seq<Seq<char>>> {
    Seq::new(calls.len(), |i: int| opt_strings(call_function_name(calls[i])))
}

/// The functions that one chat choice's message calls.
pub open spec fn choice_tool_names(choice: Json) -> Seq<Seq<char>> {
    match json_get(choice, "message"@) {
        Some(m) => match get_array(m, "tool_calls"@) {
            Some(calls) => calls_each(calls).flatten_alt(),
            None => Seq::empty(),
        },
        None => Seq::empty(),
    }
}

pub open spec fn choices_each(cs: Seq<Json>) -> Seq<Seq<Seq<char>>> {
    Seq::new(cs.len(), |i: int| choice_tool_names(cs[i]))
}

/// The tool calls of a chat-completions response.
pub open spec fn chat_response_tool_names(body: Json) -> Seq<Seq<char>> {
    match get_array(body, "choices"@) {
        Some(cs) => choices_each(cs).flatten_alt(),
        None => Seq::empty(),
    }
}

/// An output item whose `type` marks a tool call.
pub open spec fn is_response_tool_item(item: Json) -> bool {
    match get_str(item, "type"@) {
        Some(t) => t == "function_call"@ || t == "custom_tool_call"@ || seq_ends_with(t, "_call"@),
        None => false,
    }
}

/// A tool item's `name`, else its `type`.
pub open spec fn response_item_tool_name(item: Json) -> Option<Seq<char>> {
    if get_str(item, "name"@) is Some {
        get_str(item, "name"@)
    } else {
        get_str(item, "type"@)
    }
}

pub proof fn lemma_get_array_decreases(j: Json, key: Seq<char>, i: int)
    ensures
        get_array(j, key) matches Some(items) ==> (0 <= i < items.len() ==> decreases_to!(j => items[i])),
{
    lemma_get_decreases(j, key);
    if let Some(Json::Array(items)) = json_get(j, key) {
        if 0 <= i < items.len() {
            let c = json_get(j, key)->0;
            assert(decreases_to!(c => c->Array_0));
            assert(decreases_to!(items => items[i]));
        }
    }
}

/// Tool calls in a Responses-API body or item: the item itself when it is a
/// tool call, then those in its `output` items.
pub open spec fn output_tool_names(body: Json) -> Seq<Seq<char>>
    decreases body, 1int,
{
    let own = if is_response_tool_item(body) {
        opt_strings(response_item_tool_name(body))
    } else {
        Seq::empty()
    };
    own + match get_array(body, "output"@) {
        Some(items) => {
            proof {
                assert forall|i: int| 0 <= i < items.len() implies decreases_to!(body => items[i]) by {
                    lemma_get_array_decreases(body, "output"@, i);
                }
            }
            output_items_each(body, items).flatten_alt()
        },
        None => Seq::empty(),
    }
}

pub open spec fn output_items_each(parent: Json, items: Seq<Json>) -> Seq<Seq<Seq<char>>>
    decreases parent, 0int,
{
    Seq::new(
        items.len(),
        |i: int|
            if 0 <= i < items.len() && decreases_to!(parent => items[i]) {
                output_tool_names(items[i])
            } else {
                Seq::empty()
            },
    )
}

/// Tool names found under `key`, searched the way a whole response is.
pub open spec fn key_tool_names(body: Json, key: Seq<char>) -> Seq<Seq<char>>
    decreases body, 1int,
{
    match json_get(body, key) {
        Some(c) => {
            proof {
                lemma_get_decreases(body, key);
            }
            response_tool_names_spec(c)
        },
        None => Seq::empty(),
    }
}

/// Every tool call a response value names: for an array, those of each
/// element; else those of chat `choices`, of Responses-API items and
/// `output`, and of the nested `response`, `item`, `delta` and `data` values.
pub open spec fn response_tool_names_spec(body: Json) -> Seq<Seq<char>>
    decreases body, 2int,
{
    match body {
        Json::Array(items) => response_items_each(body, items).flatten_alt(),
        _ => chat_response_tool_names(body) + output_tool_names(body) + key_tool_names(
            body,
            "response"@,
        ) + key_tool_names(body, "item"@) + key_tool_names(body, "delta"@) + key_tool_names(
            body,
            "data"@,
        ),
    }
}

pub open spec fn response_items_each(parent: Json, items: Seq<Json>) -> Seq<Seq<Seq<char>>>
    decreases parent, 1int,
{
    Seq::new(
        items.len(),
        |i: int|
            if 0 <= i < items.len() && decreases_to!(parent => items[i]) {
                response_tool_names_spec(items[i])
            } else {
                Seq::empty()
            },
    )
}

pub open spec fn values_each(vs: Seq<Json>) -> Seq<Seq<Seq<char>>> {
    Seq::new(vs.len(), |i: int| response_tool_names_spec(vs[i]))
}

/// The tool calls named by all the values parsed from a response body.
pub open spec fn parsed_tool_names(vs: Seq<Json>) -> Seq<Seq<char>> {
    values_each(vs).flatten_alt()
}

// ----- framing of response bodies -----

/// Index of the first line feed at or after `i`, or the length when there is none.
pub open spec fn next_newline(s: Seq<char>, i: int) -> int
    decreases s.len() - i,
{
    if i < 0 || i >= s.len() {
        s.len() as int
    } else if s[i] == '\n' {
        i
    } else {
        next_newline(s, i + 1)
    }
}

pub proof fn lemma_next_newline(s: Seq<char>, i: int)
    requires
        0 <= i <= s.len(),
    ensures
        i <= next_newline(s, i) <= s.len(),
        next_newline(s, i) < s.len() ==> s[next_newline(s, i)] == '\n',
        forall|k: int| i <= k < next_newline(s, i) ==> s[k] != '\n',
    decreases s.len() - i,
{
    if i < s.len() && s[i] != '\n' {
        lemma_next_newline(s, i + 1);
    }
}

/// The end of the line that a line feed at `k` closes, dropping a `\r` before it.
pub open spec fn line_end(s: Seq<char>, start: int, k: int) -> int {
    if k < s.len() && k > start && s[k - 1] == '\r' {
        k - 1
    } else {
        k
    }
}

/// The lines of `s` from index `start` on, as `str::lines` gives them.
pub open spec fn lines_from(s: Seq<char>, start: int) -> Seq<Seq<char>>
    decreases s.len() - start,
{
    if start < 0 || start >= s.len() {
        Seq::empty()
    } else {
        let k = next_newline(s, start);
        proof {
            lemma_next_newline(s, start);
        }
        let line = s.subrange(start, line_end(s, start, k));
        if k >= s.len() {
            seq![line]
        } else {
            seq![line] + lines_from(s, k + 1)
        }
    }
}

/// The JSON payload of one event-stream line: what follows `data:`, trimmed,
/// unless it is the `[DONE]` marker.
pub open spec fn sse_payload(line: Seq<char>) -> Option<Seq<char>> {
    let l = trim_start_seq(line);
    if seq_starts_with(l, "data:"@) {
        let d = trim_seq(l.subrange(5, l.len() as int));
        if d == "[DONE]"@ {
            None
        } else {
            Some(d)
        }
    } else {
        None
    }
}

pub open spec fn payloads_each(lines: Seq<Seq<char>>) -> Seq<Seq<Seq<char>>> {
    Seq::new(lines.len(), |i: int| opt_strings(sse_payload(lines[i])))
}

/// The texts to parse as JSON when looking for tool calls in a response
/// body: each `data:` payload of an event stream, or the whole body otherwise.
pub open spec fn tool_payloads_spec(text: Seq<char>, is_stream: bool) -> Seq<Seq<char>> {
    if is_stream {
        payloads_each(lines_from(text, 0)).flatten_alt()
    } else {
        seq![text]
    }
}

// ----- the allow-list -----

/// The names in `names` that are not allowed.
pub open spec fn denied_set(names: Seq<Seq<char>>, allowed: Set<Seq<char>>) -> Set<Seq<char>> {
    names.to_set().filter(|n: Seq<char>| !allowed.contains(n))
}

/// `x` occurs among the first `i` elements.
pub open spec fn in_prefix(s: Seq<Seq<char>>, i: int, x: Seq<char>) -> bool {
    exists|k: int| 0 <= k < i && #[trigger] s[k] == x
}

/// The members of a set in increasing order (for the finite sets of names
/// this is used with, the one strictly sorted sequence holding them).
pub open spec fn sorted_list(s: Set<Seq<char>>) -> Seq<Seq<char>> {
    choose|l: Seq<Seq<char>>| strictly_sorted(l) && l.to_set() == s
}

/// What the allow-list says of `names`: nothing when the list is empty or
/// every name is on it, else the denied names in sorted order.
pub open spec fn denied_names(names: Seq<Seq<char>>, allowed: Seq<Seq<char>>) -> Option<
    Seq<Seq<char>>,
> {
    if allowed.len() == 0 {
        None
    } else if denied_set(names, allowed.to_set()).is_empty() {
        None
    } else {
        Some(sorted_list(denied_set(names, allowed.to_set())))
    }
}

/// The block reason for `names`, if any, under the given message prefix.
pub open spec fn tool_block_reason(prefix: Seq<char>, names: Seq<Seq<char>>, allowed: Seq<Seq<char>>) -> Option<Seq<char>> {
    match denied_names(names, allowed) {
        Some(d) => Some(prefix + join_seq(d, ", "@)),
        None => None,
    }
}

/// Restricts the tools a request may declare and a response may call to an
/// allow-list; an empty list allows every tool.
pub struct ToolCallDetector {
    allowed_tools: Vec<String>,
}

/// What the tool allow-list does to a request, from `c0` to `c1`: it
/// passes when every declared tool is allowed, else blocks with 403.
pub open spec fn tool_request_outcome(
    d: ToolCallDetector,
    c0: RequestContext,
    c1: RequestContext,
    r: Result<(), DetectorError>,
) -> bool {
    &&& c1.same_request(&c0)
    &&& c1.modified_body == c0.modified_body
    &&& c1.prompt_tokens == c0.prompt_tokens
    &&& match tool_block_reason(
        "tool(s) not allowed: "@,
        request_tool_names_spec(c0.current_view()),
        d.allowed(),
    ) {
        None => r is Ok && c1.results() == c0.results().push(
            ("tool_call"@, DetectorActionTaken::Pass, None),
        ),
        Some(reason) => r matches Err(DetectorError::Blocked { detector, reason: msg, status })
            && detector@ == "tool_call"@ && msg@ == reason && status == STATUS_FORBIDDEN
            && c1.results() == c0.results().push(
            ("tool_call"@, DetectorActionTaken::Block, Some(reason)),
        ),
    }
}

/// What the tool allow-list does to a response, from `c0` to `c1`, given
/// the values parsed from its tool-call payloads: it passes when every tool
/// called is allowed, else blocks with 403; the text stays as it was.
pub open spec fn tool_response_outcome(
    d: ToolCallDetector,
    parsed: Seq<JsonValue>,
    c0: ResponseContext,
    c1: ResponseContext,
    r: Result<(), DetectorError>,
) -> bool {
    &&& c1.same_response(&c0)
    &&& c1.body_text == c0.body_text
    &&& match tool_block_reason(
        "response tool(s) not allowed: "@,
        parsed_tool_names(items_view(parsed)),
        d.allowed(),
    ) {
        None => r is Ok && c1.results() == c0.results().push(
            ("tool_call"@, DetectorActionTaken::Pass, None),
        ),
        Some(reason) => r matches Err(DetectorError::Blocked { detector, reason: msg, status })
            && detector@ == "tool_call"@ && msg@ == reason && status == STATUS_FORBIDDEN
            && c1.results() == c0.results().push(
            ("tool_call"@, DetectorActionTaken::Block, Some(reason)),
        ),
    }
}

/// Every tool call of every chat choice is seen: the function name of any
/// element of any choice's `message.tool_calls` is among the tool names
/// found in the response value.
pub proof fn every_chat_tool_call_is_named(
    body: Json,
    cs: Seq<Json>,
    i: int,
    m: Json,
    calls: Seq<Json>,
    j: int,
    n: Seq<char>,
)
    requires
        get_array(body, "choices"@) == Some(cs),
        0 <= i < cs.len(),
        json_get(cs[i], "message"@) == Some(m),
        get_array(m, "tool_calls"@) == Some(calls),
        0 <= j < calls.len(),
        call_function_name(calls[j]) == Some(n),
    ensures
        response_tool_names_spec(body).contains(n),
{
    let ce = calls_each(calls);
    assert(ce[j] == seq![n]);
    lemma_flatten_contains(ce, j, 0);
    let names_i = choice_tool_names(cs[i]);
    assert(names_i == ce.flatten_alt());
    let w = choose|w: int| 0 <= w < names_i.len() && names_i[w] == n;
    let each = choices_each(cs);
    assert(each[i] == names_i);
    lemma_flatten_contains(each, i, w);
    let chat = chat_response_tool_names(body);
    assert(chat.contains(n));
    assert(!(body is Array));
    let rest = output_tool_names(body) + key_tool_names(body, "response"@) + key_tool_names(
        body,
        "item"@,
    ) + key_tool_names(body, "delta"@) + key_tool_names(body, "data"@);
    let all = response_tool_names_spec(body);
    assert(all =~= chat + rest);
    let v = choose|v: int| 0 <= v < chat.len() && chat[v] == n;
    assert(all[v] == n);
}

/// A response whose parsed payloads call a tool missing from a non-empty
/// allow-list is blocked with 403 from `tool_call`, whatever else it calls.
pub proof fn unlisted_response_tool_is_blocked(
    d: ToolCallDetector,
    parsed: Seq<JsonValue>,
    c0: ResponseContext,
    c1: ResponseContext,
    r: Result<(), DetectorError>,
    v: int,
    n: Seq<char>,
)
    requires
        tool_response_outcome(d, parsed, c0, c1, r),
        0 <= v < parsed.len(),
        response_tool_names_spec(parsed[v]@).contains(n),
        d.allowed().len() > 0,
        !d.allowed().contains(n),
    ensures
        r matches Err(DetectorError::Blocked { detector, status, .. }) && detector@ == "tool_call"@
            && status == STATUS_FORBIDDEN,
        c1.body_text == c0.body_text,
{
    let vs = items_view(parsed);
    let each = values_each(vs);
    let inner = response_tool_names_spec(parsed[v]@);
    assert(each[v] == inner);
    let w = choose|w: int| 0 <= w < inner.len() && inner[w] == n;
    lemma_flatten_contains(each, v, w);
    let names = parsed_tool_names(vs);
    assert(names.contains(n));
    assert(names.to_set().contains(n));
    assert(!d.allowed().to_set().contains(n));
    assert(denied_set(names, d.allowed().to_set()).contains(n));
}

/// The block reason depends on the allow-list only through the set of
/// names it holds.
pub proof fn lemma_block_reason_by_set(prefix: Seq<char>, names: Seq<Seq<char>>, a1: Seq<Seq<char>>, a2: Seq<Seq<char>>)
    requires
        a1.to_set() == a2.to_set(),
    ensures
        tool_block_reason(prefix, names, a1) == tool_block_reason(prefix, names, a2),
{
    if a1.len() > 0 {
        assert(a1.to_set().contains(a1[0]));
        assert(a2.len() > 0);
    }
    if a2.len() > 0 {
        assert(a2.to_set().contains(a2[0]));
        assert(a1.len() > 0);
    }
}

/// Two tool-call detectors whose allow-lists hold the same set of names,
/// in whatever order and with whatever repeats, act alike: on equal
/// contexts (and, for responses, equal parsed payloads) each admits exactly
/// the same results and context changes as the other.
pub proof fn same_allowed_set_same_behaviour(d1: ToolCallDetector, d2: ToolCallDetector)
    requires
        d1.allowed().to_set() == d2.allowed().to_set(),
    ensures
        forall|c0: RequestContext, c1: RequestContext, r: Result<(), DetectorError>|
            #[trigger] tool_request_outcome(d1, c0, c1, r) <==> tool_request_outcome(d2, c0, c1, r),
        forall|parsed: Seq<JsonValue>, c0: ResponseContext, c1: ResponseContext, r: Result<(), DetectorError>|
            #[trigger] tool_response_outcome(d1, parsed, c0, c1, r) <==> tool_response_outcome(
                d2,
                parsed,
                c0,
                c1,
                r,
            ),
{
    assert forall|c0: RequestContext, c1: RequestContext, r: Result<(), DetectorError>|
        #[trigger] tool_request_outcome(d1, c0, c1, r) <==> tool_request_outcome(d2, c0, c1, r) by {
        lemma_block_reason_by_set(
            "tool(s) not allowed: "@,
            request_tool_names_spec(c0.current_view()),
            d1.allowed(),
            d2.allowed(),
        );
    }
    assert forall|parsed: Seq<JsonValue>, c0: ResponseContext, c1: ResponseContext, r: Result<(), DetectorError>|
        #[trigger] tool_response_outcome(d1, parsed, c0, c1, r) <==> tool_response_outcome(
            d2,
            parsed,
            c0,
            c1,
            r,
        ) by {
        lemma_block_reason_by_set(
            "response tool(s) not allowed: "@,
            parsed_tool_names(items_view(parsed)),
            d1.allowed(),
            d2.allowed(),
        );
    }
}

impl ToolCallDetector {
    pub closed spec fn allowed(&self) -> Seq<Seq<char>> {
        strings_view(self.allowed_tools@)
    }

    pub fn new(config: &ToolCallConfig) -> (r: ToolCallDetector)
        ensures
            r.allowed() == strings_view(config.allowed_tools@),
    {
        let mut allowed_tools: Vec<String> = Vec::new();
        let mut i: usize = 0;
        while i < config.allowed_tools.len()
            invariant
                i <= config.allowed_tools.len(),
                strings_view(allowed_tools@) == strings_view(config.allowed_tools@).take(i as int),
            decreases config.allowed_tools.len() - i,
        {
            push_text(&mut allowed_tools, &config.allowed_tools[i]);
            assert(strings_view(config.allowed_tools@).take(i + 1) =~= strings_view(
                config.allowed_tools@,
            ).take(i as int).push(config.allowed_tools@[i as int]@));
            i += 1;
        }
        assert(strings_view(config.allowed_tools@).take(config.allowed_tools.len() as int)
            =~= strings_view(config.allowed_tools@));
        ToolCallDetector { allowed_tools }
    }

    pub fn name(&self) -> (r: &'static str)
        ensures
            r@ == "tool_call"@,
    {
        "tool_call"
    }

    fn is_allowed(&self, name: &String) -> (r: bool)
        ensures
            r == self.allowed().to_set().contains(name@),
    {
        let mut i: usize = 0;
        while i < self.allowed_tools.len()
            invariant
                i <= self.allowed_tools.len(),
                forall|k: int| 0 <= k < i ==> self.allowed()[k] != name@,
            decreases self.allowed_tools.len() - i,
        {
            if str_eq(self.allowed_tools[i].as_str(), name.as_str()) {
                assert(self.allowed()[i as int] == name@);
                return true;
            }
            i += 1;
        }
        false
    }

    /// The allow-list check: `Ok` when the list is empty or allows every
    /// name, else the denied names sorted and without repeats.
    pub fn validate_names(&self, names: Vec<String>) -> (r: Result<(), Vec<String>>)
        ensures
            match r {
                Ok(()) => denied_names(strings_view(names@), self.allowed()) is None,
                Err(d) => denied_names(strings_view(names@), self.allowed()) == Some(
                    strings_view(d@),
                ),
            },
    {
        let ghost nv = strings_view(names@);
        let ghost allowed = self.allowed().to_set();
        if self.allowed_tools.len() == 0 {
            return Ok(());
        }
        let mut denied: Vec<String> = Vec::new();
        let mut i: usize = 0;
        assert(strings_view(denied@) =~= Seq::empty());
        while i < names.len()
            invariant
                i <= names.len(),
                nv == strings_view(names@),
                allowed == self.allowed().to_set(),
                forall|x: Seq<char>|
                    #[trigger] strings_view(denied@).contains(x) <==> (in_prefix(nv, i as int, x)
                        && !allowed.contains(x)),
            decreases names.len() - i,
        {
            let ghost before = strings_view(denied@);
            assert(forall|x: Seq<char>|
                #[trigger] before.contains(x) <==> (in_prefix(nv, i as int, x) && !allowed.contains(
                    x,
                )));
            if !self.is_allowed(&names[i]) {
                push_text(&mut denied, &names[i]);
            }
            proof {
                assert forall|x: Seq<char>| #[trigger] strings_view(denied@).contains(x) <==> (
                in_prefix(nv, i + 1, x) && !allowed.contains(x)) by {
                    if strings_view(denied@).contains(x) {
                        let k = choose|k: int|
                            0 <= k < strings_view(denied@).len() && #[trigger] strings_view(
                                denied@,
                            )[k] == x;
                        if k < before.len() {
                            assert(before[k] == x);
                            assert(before.contains(x));
                        } else {
                            assert(nv[i as int] == x);
                        }
                    }
                    if in_prefix(nv, i + 1, x) && !allowed.contains(x) {
                        let k = choose|k: int| 0 <= k < i + 1 && #[trigger] nv[k] == x;
                        if k < i {
                            assert(in_prefix(nv, i as int, x));
                            assert(before.contains(x));
                            let m = choose|m: int| 0 <= m < before.len() && #[trigger] before[m] == x;
                            assert(strings_view(denied@)[m] == x);
                        } else {
                            assert(strings_view(denied@)[before.len() as int] == x);
                        }
                    }
                }
            }
            i += 1;
        }
        let ghost dset = denied_set(nv, allowed);
        assert forall|x: Seq<char>| #[trigger] dset.contains(x) <==> strings_view(denied@).contains(
            x,
        ) by {
            if nv.contains(x) {
                let k = choose|k: int| 0 <= k < nv.len() && nv[k] == x;
                assert(in_prefix(nv, names.len() as int, x));
            }
        }
        if denied.len() == 0 {
            assert(dset =~= Set::empty()) by {
                assert forall|x: Seq<char>| !dset.contains(x) by {
                    assert(!strings_view(denied@).contains(x));
                }
            }
            return Ok(());
        }
        assert(strings_view(denied@).to_set() =~= dset);
        let sorted = sort_dedup(denied);
        proof {
            let sv = strings_view(sorted@);
            assert(strings_view(denied@).contains(strings_view(denied@)[0]));
            assert(!dset.is_empty()) by {
                assert(dset.contains(strings_view(denied@)[0]));
            }
            let l = sorted_list(dset);
            assert(strictly_sorted(sv) && sv.to_set() == dset);
            assert(strictly_sorted(l) && l.to_set() == dset);
            lemma_sorted_unique(l, sv);
        }
        Err(sorted)
    }

    /// The block reason text for a list of denied names.
    fn reason(prefix: &str, denied: &Vec<String>) -> (r: String)
        ensures
            r@ == prefix@ + join_seq(strings_view(denied@), ", "@),
    {
        prefixed_list(prefix, denied)
    }

    /// Checks the tools a request declares: passes when all are allowed,
    /// else records a block and fails with 403 naming the denied tools.
    pub fn inspect_request(&self, ctx: &mut RequestContext) -> (r: Result<(), DetectorError>)
        ensures
            step(old(ctx).results(), final(ctx).results(), r, "tool_call"@),
            tool_request_outcome(*self, *old(ctx), *final(ctx), r),
    {
        let names = request_tool_names(ctx.current_body());
        match self.validate_names(names) {
            Ok(()) => {
                ctx.record_pass(self.name());
                Ok(())
            },
            Err(denied) => {
                let reason = Self::reason("tool(s) not allowed: ", &denied);
                ctx.record(self.name(), DetectorActionTaken::Block, reason.clone());
                Err(DetectorError::blocked(self.name(), reason))
            },
        }
    }

    /// Checks the tool calls in a response, given the JSON values parsed
    /// from the payloads that `tool_payloads` frames out of its body.
    pub fn inspect_response(&self, ctx: &mut ResponseContext, parsed: &Vec<JsonValue>) -> (r: Result<
        (),
        DetectorError,
    >)
        ensures
            step(old(ctx).results(), final(ctx).results(), r, "tool_call"@),
            tool_response_outcome(*self, parsed@, *old(ctx), *final(ctx), r),
    {
        let names = response_tool_names(parsed);
        match self.validate_names(names) {
            Ok(()) => {
                ctx.record_pass(self.name());
                Ok(())
            },
            Err(denied) => {
                let reason = Self::reason("response tool(s) not allowed: ", &denied);
                ctx.record(self.name(), DetectorActionTaken::Block, reason.clone());
                Err(DetectorError::blocked(self.name(), reason))
            },
        }
    }
}

/// The name of every tool declared in a request's `tools`.
pub fn request_tool_names(body: &JsonValue) -> (r: Vec<String>)
    ensures
        strings_view(r@) == request_tool_names_spec(body@),
{
    let mut names: Vec<String> = Vec::new();
    assert(strings_view(names@) =~= Seq::empty());
    match body.get_array("tools") {
        Some(tools) => {
            let ghost each = request_tools_each(items_view(tools@));
            let mut i: usize = 0;
            while i < tools.len()
                invariant
                    i <= tools.len(),
                    each == request_tools_each(items_view(tools@)),
                    strings_view(names@) == each.take(i as int).flatten_alt(),
                decreases tools.len() - i,
            {
                proof {
                    lemma_flatten_step(each, i as int);
                    assert(items_view(tools@)[i as int] == tools@[i as int]@);
                }
                let tool = &tools[i];
                let from_function = match tool.get("function") {
                    Some(f) => f.get_str("name"),
                    None => None,
                };
                let name = match from_function {
                    Some(n) => Some(n),
                    None => match tool.get_str("name") {
                        Some(n) => Some(n),
                        None => tool.get_str("type"),
                    },
                };
                let ghost before = strings_view(names@);
                match name {
                    Some(n) => push_text(&mut names, n),
                    None => {},
                }
                assert(strings_view(names@) =~= before + each[i as int]);
                i += 1;
            }
            assert(each.take(tools.len() as int) =~= each);
        },
        None => {},
    }
    names
}

fn push_opt(out: &mut Vec<String>, o: Option<&String>)
    ensures
        strings_view(final(out)@) == strings_view(old(out)@) + opt_strings(
            match o {
                Some(s) => Some(s@),
                None => None,
            },
        ),
{
    let ghost before = strings_view(out@);
    match o {
        Some(s) => push_text(out, s),
        None => {},
    }
    assert(strings_view(out@) =~= before + opt_strings(
        match o {
            Some(s) => Some(s@),
            None => None,
        },
    ));
}

fn collect_chat_response_tool_names(body: &JsonValue, names: &mut Vec<String>)
    ensures
        strings_view(final(names)@) == strings_view(old(names)@) + chat_response_tool_names(body@),
{
    let ghost start = strings_view(names@);
    match body.get_array("choices") {
        Some(choices) => {
            let ghost each = choices_each(items_view(choices@));
            let mut i: usize = 0;
            while i < choices.len()
                invariant
                    i <= choices.len(),
                    each == choices_each(items_view(choices@)),
                    strings_view(names@) == start + each.take(i as int).flatten_alt(),
                decreases choices.len() - i,
            {
                proof {
                    lemma_flatten_step(each, i as int);
                    assert(items_view(choices@)[i as int] == choices@[i as int]@);
                }
                let ghost before = strings_view(names@);
                match choices[i].get("message") {
                    Some(message) => match message.get_array("tool_calls") {
                        Some(calls) => {
                            let ghost ce = calls_each(items_view(calls@));
                            let mut j: usize = 0;
                            while j < calls.len()
                                invariant
                                    j <= calls.len(),
                                    ce == calls_each(items_view(calls@)),
                                    strings_view(names@) == before + ce.take(j as int).flatten_alt(),
                                decreases calls.len() - j,
                            {
                                proof {
                                    lemma_flatten_step(ce, j as int);
                                    assert(items_view(calls@)[j as int] == calls@[j as int]@);
                                }
                                let fname = match calls[j].get("function") {
                                    Some(f) => f.get_str("name"),
                                    None => None,
                                };
                                push_opt(names, fname);
                                assert(before + ce.take(j + 1).flatten_alt() =~= before + ce.take(
                                    j as int,
                                ).flatten_alt() + ce[j as int]);
                                j += 1;
                            }
                            assert(ce.take(calls.len() as int) =~= ce);
                        },
                        None => {
                            assert(strings_view(names@) =~= before + Seq::empty());
                        },
                    },
                    None => {
                        assert(strings_view(names@) =~= before + Seq::empty());
                    },
                }
                assert(start + each.take(i + 1).flatten_alt() =~= start + each.take(
                    i as int,
                ).flatten_alt() + each[i as int]);
                i += 1;
            }
            assert(each.take(choices.len() as int) =~= each);
        },
        None => {
            assert(strings_view(names@) =~= start + Seq::empty());
        },
    }
}

fn is_response_tool_item_exec(item: &JsonValue) -> (r: bool)
    ensures
        r == is_response_tool_item(item@),
{
    match item.get_str("type") {
        Some(t) => str_eq(t.as_str(), "function_call") || str_eq(t.as_str(), "custom_tool_call")
            || str_ends_with(t.as_str(), "_call"),
        None => false,
    }
}

fn collect_response_output_tool_names(body: &JsonValue, names: &mut Vec<String>)
    ensures
        strings_view(final(names)@) == strings_view(old(names)@) + output_tool_names(body@),
    decreases body@,
{
    let ghost start = strings_view(names@);
    if is_response_tool_item_exec(body) {
        let n = match body.get_str("name") {
            Some(n) => Some(n),
            None => body.get_str("type"),
        };
        push_opt(names, n);
    }
    let ghost mid = strings_view(names@);
    assert(mid == start + (if is_response_tool_item(body@) {
        opt_strings(response_item_tool_name(body@))
    } else {
        Seq::empty()
    }));
    match body.get_array("output") {
        Some(items) => {
            let ghost iv = items_view(items@);
            let ghost each = output_items_each(body@, iv);
            let mut i: usize = 0;
            while i < items.len()
                invariant
                    i <= items.len(),
                    iv == items_view(items@),
                    get_array(body@, "output"@) == Some(iv),
                    each == output_items_each(body@, iv),
                    strings_view(names@) == mid + each.take(i as int).flatten_alt(),
                decreases items.len() - i,
            {
                proof {
                    lemma_flatten_step(each, i as int);
                    assert(iv[i as int] == items@[i as int]@);
                    lemma_get_array_decreases(body@, "output"@, i as int);
                }
                collect_response_output_tool_names(&items[i], names);
                assert(mid + each.take(i + 1).flatten_alt() =~= mid + each.take(
                    i as int,
                ).flatten_alt() + each[i as int]);
                i += 1;
            }
            assert(each.take(items.len() as int) =~= each);
            assert(strings_view(names@) =~= start + output_tool_names(body@));
        },
        None => {
            assert(strings_view(names@) =~= start + output_tool_names(body@));
        },
    }
}

fn collect_key_tool_names(body: &JsonValue, key: &str, names: &mut Vec<String>)
    ensures
        strings_view(final(names)@) == strings_view(old(names)@) + key_tool_names(body@, key@),
    decreases body@, 1int,
{
    let ghost start = strings_view(names@);
    match body.get(key) {
        Some(v) => {
            proof {
                lemma_get_decreases(body@, key@);
            }
            collect_response_tool_names(v, names);
        },
        None => {
            assert(strings_view(names@) =~= start + Seq::empty());
        },
    }
}

fn collect_response_tool_names(body: &JsonValue, names: &mut Vec<String>)
    ensures
        strings_view(final(names)@) == strings_view(old(names)@) + response_tool_names_spec(body@),
    decreases body@, 2int,
{
    let ghost start = strings_view(names@);
    match body {
        JsonValue::Array(items) => {
            proof {
                lemma_array_view(*items);
            }
            let ghost iv = items_view(items@);
            let ghost each = response_items_each(body@, iv);
            let mut i: usize = 0;
            while i < items.len()
                invariant
                    i <= items.len(),
                    iv == items_view(items@),
                    body@ == Json::Array(iv),
                    each == response_items_each(body@, iv),
                    strings_view(names@) == start + each.take(i as int).flatten_alt(),
                decreases items.len() - i,
            {
                proof {
                    lemma_flatten_step(each, i as int);
                    assert(iv[i as int] == items@[i as int]@);
                    assert(decreases_to!(body@ => body@->Array_0));
                    assert(decreases_to!(iv => iv[i as int]));
                }
                collect_response_tool_names(&items[i], names);
                assert(start + each.take(i + 1).flatten_alt() =~= start + each.take(
                    i as int,
                ).flatten_alt() + each[i as int]);
                i += 1;
            }
            assert(each.take(items.len() as int) =~= each);
        },
        _ => {
            collect_chat_response_tool_names(body, names);
            collect_response_output_tool_names(body, names);
            collect_key_tool_names(body, "response", names);
            collect_key_tool_names(body, "item", names);
            collect_key_tool_names(body, "delta", names);
            collect_key_tool_names(body, "data", names);
            assert(strings_view(names@) =~= start + response_tool_names_spec(body@));
        },
    }
}

/// The tool calls named by the values parsed from a response body.
pub fn response_tool_names(parsed: &Vec<JsonValue>) -> (r: Vec<String>)
    ensures
        strings_view(r@) == parsed_tool_names(items_view(parsed@)),
{
    let mut names: Vec<String> = Vec::new();
    let ghost each = values_each(items_view(parsed@));
    let mut i: usize = 0;
    assert(strings_view(names@) =~= Seq::empty());
    while i < parsed.len()
        invariant
            i <= parsed.len(),
            each == values_each(items_view(parsed@)),
            strings_view(names@) == each.take(i as int).flatten_alt(),
        decreases parsed.len() - i,
    {
        proof {
            lemma_flatten_step(each, i as int);
            assert(items_view(parsed@)[i as int] == parsed@[i as int]@);
        }
        collect_response_tool_names(&parsed[i], &mut names);
        i += 1;
    }
    assert(each.take(parsed.len() as int) =~= each);
    names
}

fn sse_payload_of(line: &str) -> (r: Option<String>)
    ensures
        match r {
            Some(d) => sse_payload(line@) == Some(d@),
            None => sse_payload(line@) is None,
        },
{
    let l = trim_start_string(line);
    if !str_starts_with(l.as_str(), "data:") {
        return None;
    }
    let lc = chars_of(l.as_str());
    proof {
        reveal_strlit("data:");
    }
    let rest = string_from_chars(&lc, 5, lc.len());
    let d = trim_string(rest.as_str());
    if str_eq(d.as_str(), "[DONE]") {
        None
    } else {
        Some(d)
    }
}

proof fn lemma_payloads_cons(line: Seq<char>, rest: Seq<Seq<char>>)
    ensures
        payloads_each(seq![line] + rest).flatten() == opt_strings(sse_payload(line))
            + payloads_each(rest).flatten(),
{
    let t = payloads_each(seq![line] + rest);
    assert(t.drop_first() =~= payloads_each(rest));
    assert(t.first() == opt_strings(sse_payload(line)));
}

/// The texts to parse as JSON when looking for tool calls in a response
/// body: the `data:` payloads of an event stream (all but `[DONE]`), or the
/// whole body when it is not a stream.
pub fn tool_payloads(text: &str, is_stream: bool) -> (r: Vec<String>)
    ensures
        strings_view(r@) == tool_payloads_spec(text@, is_stream),
{
    let mut out: Vec<String> = Vec::new();
    if !is_stream {
        out.push(to_owned_string(text));
        assert(strings_view(out@) =~= seq![text@]);
        return out;
    }
    let cs = chars_of(text);
    let ghost s = text@;
    let mut start: usize = 0;
    assert(strings_view(out@) =~= Seq::empty());
    while start < cs.len()
        invariant
            cs@ == s,
            start <= cs.len(),
            strings_view(out@) + payloads_each(lines_from(s, start as int)).flatten()
                == payloads_each(lines_from(s, 0)).flatten(),
        decreases cs.len() - start,
    {
        let mut k = start;
        proof {
            lemma_next_newline(s, start as int);
        }
        while k < cs.len() && cs[k] != '\n'
            invariant
                start <= k <= cs.len(),
                cs@ == s,
                next_newline(s, start as int) == next_newline(s, k as int),
            decreases cs.len() - k,
        {
            k += 1;
        }
        let e = if k < cs.len() && k > start && cs[k - 1] == '\r' {
            k - 1
        } else {
            k
        };
        assert(e == line_end(s, start as int, k as int));
        let line = string_from_chars(&cs, start, e);
        let ghost before = strings_view(out@);
        match sse_payload_of(line.as_str()) {
            Some(d) => push_text(&mut out, &d),
            None => {},
        }
        assert(strings_view(out@) =~= before + opt_strings(sse_payload(line@)));
        let next = if k >= cs.len() {
            cs.len()
        } else {
            k + 1
        };
        proof {
            if k >= cs.len() {
                assert(lines_from(s, start as int) == seq![line@]);
                assert(lines_from(s, next as int) =~= Seq::empty());
                assert(seq![line@] =~= seq![line@] + lines_from(s, next as int));
            } else {
                assert(lines_from(s, start as int) == seq![line@] + lines_from(s, next as int));
            }
            lemma_payloads_cons(line@, lines_from(s, next as int));
        }
        start = next;
    }
    proof {
        assert(lines_from(s, start as int) =~= Seq::empty());
        assert(payloads_each(Seq::<Seq<char>>::empty()).flatten() =~= Seq::empty());
        payloads_each(lines_from(s, 0)).lemma_flatten_and_flatten_alt_are_equivalent();
        assert(strings_view(out@) =~= strings_view(out@) + Seq::<Seq<char>>::empty());
    }
    out
}

} // verus!
