use vstd::prelude::*;

use crate::config::{SystemPromptConfig, SystemPromptMode};
use crate::detectors::prompt::{content_strings, content_to_strings, strings_view};
use crate::errors::{DetectorError, STATUS_FORBIDDEN};
use crate::json::{
    get_array, get_str, items_view, json_get, json_has, json_set, lemma_array_view, Json,
    JsonValue,
};
use crate::pipeline::context::{step, DetectorActionTaken, RequestContext, ResponseContext};
use crate::text::{all_ws, is_blank, push_all, seq_contains, str_contains, str_eq, to_owned_string};

verus! {

/// Whether some text among the strings contains `prompt`.
pub open spec fn any_contains(texts: Seq<Seq<char>>, prompt: Seq<char>) -> bool {
    exists|i: int| 0 <= i < texts.len() && seq_contains(#[trigger] texts[i], prompt)
}

/// A `system` or `developer` message whose content contains `prompt`.
pub open spec fn policy_message_contains(item: Json, prompt: Seq<char>) -> bool {
    match get_str(item, "role"@) {
        Some(role) => (role == "system"@ || role == "developer"@) && any_contains(
            match json_get(item, "content"@) {
                Some(c) => content_strings(c),
                None => Seq::empty(),
            },
            prompt,
        ),
        None => false,
    }
}

pub open spec fn any_policy_message(items: Seq<Json>, prompt: Seq<char>) -> bool {
    exists|i: int| 0 <= i < items.len() && policy_message_contains(#[trigger] items[i], prompt)
}

pub open spec fn instructions_contain(body: Json, prompt: Seq<char>) -> bool {
    match get_str(body, "instructions"@) {
        Some(t) => seq_contains(t, prompt),
        None => false,
    }
}

pub open spec fn chat_messages_contain(body: Json, prompt: Seq<char>) -> bool {
    match get_array(body, "messages"@) {
        Some(ms) => any_policy_message(ms, prompt),
        None => false,
    }
}

pub open spec fn response_input_contains(body: Json, prompt: Seq<char>) -> bool {
    match json_get(body, "input"@) {
        Some(Json::Array(items)) => any_policy_message(items, prompt),
        Some(Json::Object(es)) => policy_message_contains(Json::Object(es), prompt),
        _ => false,
    }
}

/// The prompt is already in the instructions, or in a system or developer
/// message of the chat messages or of the Responses-API input.
pub open spec fn has_required_prompt(body: Json, prompt: Seq<char>) -> bool {
    instructions_contain(body, prompt) || chat_messages_contain(body, prompt)
        || response_input_contains(body, prompt)
}

/// The body carries chat `messages` or a Responses-API `input`.
pub open spec fn has_prompt_surface(body: Json) -> bool {
    get_array(body, "messages"@) is Some || json_has(body, "input"@)
}

/// `{"role": "system", "content": prompt}`.
pub open spec fn system_message(prompt: Seq<char>) -> Json {
    Json::Object(seq![("role"@, Json::Str("system"@)), ("content"@, Json::Str(prompt))])
}

/// The Responses-API body with the prompt placed in `instructions`: kept
/// when already there, set when blank or missing, prepended otherwise.
pub open spec fn inject_instructions(body: Json, prompt: Seq<char>) -> Json {
    match json_get(body, "instructions"@) {
        Some(Json::Str(existing)) => if seq_contains(existing, prompt) {
            body
        } else if all_ws(existing) {
            json_set(body, "instructions"@, Json::Str(prompt))
        } else {
            json_set(body, "instructions"@, Json::Str(prompt + "\n\n"@ + existing))
        },
        _ => json_set(body, "instructions"@, Json::Str(prompt)),
    }
}

/// The body with the system prompt added: as a leading system message of
/// the chat messages, else in the instructions of a Responses-API body.
pub open spec fn inject_spec(body: Json, prompt: Seq<char>) -> Json {
    match get_array(body, "messages"@) {
        Some(ms) => json_set(body, "messages"@, Json::Array(seq![system_message(prompt)] + ms)),
        None => if json_has(body, "input"@) {
            inject_instructions(body, prompt)
        } else {
            body
        },
    }
}

/// Whether the detector lets the body through untouched.
pub open spec fn system_prompt_passes(body: Json, prompt: Seq<char>) -> bool {
    all_ws(prompt) || !has_prompt_surface(body) || has_required_prompt(body, prompt)
}

proof fn lemma_contains_self(p: Seq<char>, rest: Seq<char>)
    ensures
        seq_contains(p, p),
        seq_contains(p + rest, p),
{
    assert(p.subrange(0int, 0int + p.len()) =~= p);
    assert((p + rest).subrange(0int, 0int + p.len()) =~= p);
}

/// Injection is idempotent: once the detector has added the mandatory
/// prompt to a body that has a place for it, the result already carries the
/// prompt, so a second inspection lets it through unchanged.
pub proof fn injected_prompt_is_present(body: Json, prompt: Seq<char>)
    requires
        has_prompt_surface(body),
    ensures
        has_required_prompt(inject_spec(body, prompt), prompt),
        system_prompt_passes(inject_spec(body, prompt), prompt),
{
    lemma_contains_self(prompt, "\n\n"@);
    let out = inject_spec(body, prompt);
    match get_array(body, "messages"@) {
        Some(ms) => {
            let arr = seq![system_message(prompt)] + ms;
            crate::json::lemma_get_set(body, "messages"@, Json::Array(arr));
            let m = system_message(prompt);
            let mes = m->Object_0;
            reveal_strlit("role");
            reveal_strlit("content");
            reveal_strlit("system");
            assert(mes[0].0 == "role"@);
            assert(mes[1].0 == "content"@);
            assert("role"@.len() == 4);
            assert("content"@.len() == 7);
            assert(mes[0].0 != "content"@);
            crate::json::lemma_key_pos_at(mes, "role"@, 0, 0);
            crate::json::lemma_key_pos_at(mes, "content"@, 0, 1);
            assert(get_str(m, "role"@) == Some("system"@));
            assert(json_get(m, "content"@) == Some(Json::Str(prompt)));
            assert(content_strings(Json::Str(prompt)) == seq![prompt]);
            assert(seq_contains(seq![prompt][0], prompt));
            assert(policy_message_contains(m, prompt));
            assert(arr[0] == m);
            assert(any_policy_message(arr, prompt));
            assert(chat_messages_contain(out, prompt));
        },
        None => {
            let e = json_get(body, "instructions"@);
            match e {
                Some(Json::Str(existing)) => {
                    if seq_contains(existing, prompt) {
                    } else if all_ws(existing) {
                        crate::json::lemma_get_set(body, "instructions"@, Json::Str(prompt));
                    } else {
                        crate::json::lemma_get_set(
                            body,
                            "instructions"@,
                            Json::Str(prompt + "\n\n"@ + existing),
                        );
                        lemma_contains_self(prompt, "\n\n"@ + existing);
                        assert(prompt + "\n\n"@ + existing =~= prompt + ("\n\n"@ + existing));
                    }
                },
                _ => {
                    crate::json::lemma_get_set(body, "instructions"@, Json::Str(prompt));
                },
            }
        },
    }
}

/// Makes sure a mandatory system prompt reaches the model: injects it, or
/// blocks requests that lack it.
pub struct SystemPromptDetector {
    pub mode: SystemPromptMode,
    pub prompt: String,
}

fn make_system_message(prompt: &String) -> (r: JsonValue)
    ensures
        r@ == system_message(prompt@),
{
    let mut es: Vec<(String, JsonValue)> = Vec::new();
    es.push((to_owned_string("role"), JsonValue::Str(to_owned_string("system"))));
    es.push((to_owned_string("content"), JsonValue::Str(prompt.clone())));
    proof {
        crate::json::lemma_object_view(es);
        assert(crate::json::entries_view(es@) =~= seq![
            ("role"@, Json::Str("system"@)),
            ("content"@, Json::Str(prompt@)),
        ]);
    }
    JsonValue::Object(es)
}

/// What the system prompt check does to a request, from `c0` to `c1`: a
/// body that already carries the prompt passes; else the prompt is
/// injected, or the request is blocked with 403, by the mode.
pub open spec fn system_prompt_outcome(
    d: SystemPromptDetector,
    c0: RequestContext,
    c1: RequestContext,
    r: Result<(), DetectorError>,
) -> bool {
    &&& c1.same_request(&c0)
    &&& c1.prompt_tokens == c0.prompt_tokens
    &&& ({
        let body = c0.current_view();
        let p = d.prompt@;
        if system_prompt_passes(body, p) {
            &&& r is Ok
            &&& c1.modified_body == c0.modified_body
            &&& c1.results() == c0.results().push(
                ("system_prompt"@, DetectorActionTaken::Pass, None),
            )
        } else if d.mode == SystemPromptMode::Inject {
            &&& r is Ok
            &&& c1.modified_body matches Some(b) && b@ == inject_spec(body, p)
            &&& c1.results() == c0.results().push(
                (
                    "system_prompt"@,
                    DetectorActionTaken::Modify,
                    Some("mandatory system prompt injected"@),
                ),
            )
        } else {
            &&& r matches Err(DetectorError::Blocked { detector, reason, status })
                && detector@ == "system_prompt"@ && reason@
                == "mandatory system prompt missing"@ && status == STATUS_FORBIDDEN
            &&& c1.modified_body == c0.modified_body
            &&& c1.results() == c0.results().push(
                (
                    "system_prompt"@,
                    DetectorActionTaken::Block,
                    Some("mandatory system prompt missing"@),
                ),
            )
        }
    })
}

impl SystemPromptDetector {
    pub fn new(config: &SystemPromptConfig) -> (r: SystemPromptDetector)
        ensures
            r.mode == config.mode,
            r.prompt@ == config.prompt@,
    {
        SystemPromptDetector { mode: config.mode, prompt: config.prompt.clone() }
    }

    pub fn name(&self) -> (r: &'static str)
        ensures
            r@ == "system_prompt"@,
    {
        "system_prompt"
    }

    #[verifier::loop_isolation(false)]
    fn policy_message_contains_prompt(&self, item: &JsonValue) -> (r: bool)
        ensures
            r == policy_message_contains(item@, self.prompt@),
    {
        let role = match item.get_str("role") {
            Some(r) => r,
            None => {
                return false;
            },
        };
        if !(str_eq(role.as_str(), "system") || str_eq(role.as_str(), "developer")) {
            return false;
        }
        let texts = match item.get("content") {
            Some(c) => content_to_strings(c),
            None => {
                let v: Vec<String> = Vec::new();
                assert(strings_view(v@) =~= Seq::empty());
                v
            },
        };
        let ghost tv = strings_view(texts@);
        let mut i: usize = 0;
        while i < texts.len()
            invariant
                i <= texts.len(),
                tv == strings_view(texts@),
                forall|k: int| 0 <= k < i ==> !seq_contains(#[trigger] tv[k], self.prompt@),
            decreases texts.len() - i,
        {
            if str_contains(texts[i].as_str(), self.prompt.as_str()) {
                assert(seq_contains(tv[i as int], self.prompt@));
                return true;
            }
            i += 1;
        }
        false
    }

    fn any_policy_message_exec(&self, items: &Vec<JsonValue>) -> (r: bool)
        ensures
            r == any_policy_message(items_view(items@), self.prompt@),
    {
        let ghost iv = items_view(items@);
        let mut i: usize = 0;
        while i < items.len()
            invariant
                i <= items.len(),
                iv == items_view(items@),
                forall|k: int| 0 <= k < i ==> !policy_message_contains(#[trigger] iv[k], self.prompt@),
            decreases items.len() - i,
        {
            assert(iv[i as int] == items@[i as int]@);
            if self.policy_message_contains_prompt(&items[i]) {
                return true;
            }
            i += 1;
        }
        false
    }

    fn has_required_prompt(&self, body: &JsonValue) -> (r: bool)
        ensures
            r == has_required_prompt(body@, self.prompt@),
    {
        let instr = match body.get_str("instructions") {
            Some(t) => str_contains(t.as_str(), self.prompt.as_str()),
            None => false,
        };
        if instr {
            return true;
        }
        let chat = match body.get_array("messages") {
            Some(ms) => self.any_policy_message_exec(ms),
            None => false,
        };
        if chat {
            return true;
        }
        match body.get("input") {
            Some(JsonValue::Array(items)) => {
                proof {
                    lemma_array_view(*items);
                }
                self.any_policy_message_exec(items)
            },
            Some(input) => match input {
                JsonValue::Object(es) => {
                    proof {
                        crate::json::lemma_object_view(*es);
                    }
                    self.policy_message_contains_prompt(input)
                },
                _ => false,
            },
            None => false,
        }
    }

    fn has_prompt_surface(&self, body: &JsonValue) -> (r: bool)
        ensures
            r == has_prompt_surface(body@),
    {
        body.get_array("messages").is_some() || body.get("input").is_some()
    }

    fn inject_response_prompt(&self, body: &mut JsonValue)
        ensures
            final(body)@ == inject_instructions(old(body)@, self.prompt@),
    {
        let replacement: Option<String> = match body.get("instructions") {
            Some(JsonValue::Str(existing)) => {
                if str_contains(existing.as_str(), self.prompt.as_str()) {
                    None
                } else if is_blank(existing.as_str()) {
                    Some(self.prompt.clone())
                } else {
                    let mut s = self.prompt.clone();
                    push_all(&mut s, "\n\n");
                    push_all(&mut s, existing.as_str());
                    Some(s)
                }
            },
            _ => Some(self.prompt.clone()),
        };
        match replacement {
            Some(text) => body.set_key("instructions", JsonValue::Str(text)),
            None => {},
        }
    }

    fn inject_chat_prompt(&self, body: &mut JsonValue)
        requires
            get_array(old(body)@, "messages"@) is Some,
        ensures
            final(body)@ == json_set(
                old(body)@,
                "messages"@,
                Json::Array(seq![system_message(self.prompt@)] + get_array(old(body)@, "messages"@)->0),
            ),
    {
        let current = match body.get("messages") {
            Some(m) => m.deep_clone(),
            None => {
                return ;
            },
        };
        match current {
            JsonValue::Array(mut items) => {
                let ghost before = items@;
                proof {
                    lemma_array_view(items);
                }
                let msg = make_system_message(&self.prompt);
                items.insert(0, msg);
                proof {
                    lemma_array_view(items);
                    assert(items_view(items@) =~= seq![system_message(self.prompt@)] + items_view(
                        before,
                    ));
                }
                body.set_key("messages", JsonValue::Array(items));
            },
            _ => {},
        }
    }

    /// The body with the mandatory prompt added (see `inject_spec`).
    pub fn inject_prompt(&self, body: &mut JsonValue)
        ensures
            final(body)@ == inject_spec(old(body)@, self.prompt@),
    {
        if body.get_array("messages").is_some() {
            self.inject_chat_prompt(body);
            return ;
        }
        if body.get("input").is_some() {
            self.inject_response_prompt(body);
        }
    }

    /// Passes requests that already carry the prompt (or have no place for
    /// one, or when the prompt is blank); otherwise injects it into a copy of
    /// the body, or blocks with 403 when the prompt is required.
    pub fn inspect_request(&self, ctx: &mut RequestContext) -> (r: Result<(), DetectorError>)
        ensures
            step(old(ctx).results(), final(ctx).results(), r, "system_prompt"@),
            system_prompt_outcome(*self, *old(ctx), *final(ctx), r),
    {
        if is_blank(self.prompt.as_str()) {
            ctx.record_pass(self.name());
            return Ok(());
        }
        if !self.has_prompt_surface(ctx.current_body()) {
            ctx.record_pass(self.name());
            return Ok(());
        }
        if self.has_required_prompt(ctx.current_body()) {
            ctx.record_pass(self.name());
            return Ok(());
        }
        match self.mode {
            SystemPromptMode::Inject => {
                let mut changed = ctx.current_body().deep_clone();
                self.inject_prompt(&mut changed);
                ctx.modified_body = Some(changed);
                ctx.record(
                    self.name(),
                    DetectorActionTaken::Modify,
                    to_owned_string("mandatory system prompt injected"),
                );
                Ok(())
            },
            SystemPromptMode::Require => {
                let reason = to_owned_string("mandatory system prompt missing");
                ctx.record(self.name(), DetectorActionTaken::Block, reason.clone());
                Err(DetectorError::blocked(self.name(), reason))
            },
        }
    }

    /// Responses are not inspected: the response passes.
    pub fn inspect_response(&self, ctx: &mut ResponseContext) -> (r: Result<(), DetectorError>)
        ensures
            r is Ok,
            final(ctx).same_response(old(ctx)),
            final(ctx).body_text == old(ctx).body_text,
            final(ctx).results() == old(ctx).results().push(
                ("system_prompt"@, DetectorActionTaken::Pass, None),
            ),
    {
        ctx.record_pass(self.name());
        Ok(())
    }
}

} // verus!
