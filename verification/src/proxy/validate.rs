use vstd::prelude::*;

use crate::errors::ProxyError;
use crate::json::{get_array, get_str, items_view, json_get, lemma_array_view, Json, JsonValue};
use crate::text::{all_ws, concat_num, decimal, is_blank, push_all, push_decimal, to_owned_string};

verus! {

/// The first message at or after `i`, if any.
pub open spec fn first_error(errs: Seq<Option<Seq<char>>>, i: int) -> Option<Seq<char>>
    decreases errs.len() - i,
{
    if i < 0 || i >= errs.len() {
        None
    } else if errs[i] is Some {
        errs[i]
    } else {
        first_error(errs, i + 1)
    }
}

/// A string that trims to something.
pub open spec fn nonblank(o: Option<Seq<char>>) -> bool {
    match o {
        Some(t) => !all_ws(t),
        None => false,
    }
}

pub open spec fn is_object(j: Json) -> bool {
    j is Object
}

pub open spec fn index_msg(prefix: Seq<char>, i: int, suffix: Seq<char>) -> Seq<char> {
    prefix + decimal(i as nat) + suffix
}

// ----- chat completions -----

/// Why a chat message fails validation, if it does.
pub open spec fn message_error(index: int, m: Json) -> Option<Seq<char>> {
    if !is_object(m) {
        Some(index_msg("messages["@, index, "] must be an object"@))
    } else if !nonblank(get_str(m, "role"@)) {
        Some(index_msg("messages["@, index, "].role must be a non-empty string"@))
    } else {
        match json_get(m, "content"@) {
            None => None,
            Some(Json::Str(_)) | Some(Json::Null) => None,
            Some(Json::Array(parts)) => first_error(chat_part_errors(index, parts), 0),
            Some(_) => Some(
                index_msg("messages["@, index, "].content must be a string, array, or null"@),
            ),
        }
    }
}

pub open spec fn chat_part_errors(index: int, parts: Seq<Json>) -> Seq<Option<Seq<char>>> {
    Seq::new(
        parts.len(),
        |p: int|
            if is_object(parts[p]) {
                None
            } else {
                Some(
                    index_msg("messages["@, index, "].content["@) + decimal(p as nat)
                        + "] must be an object"@,
                )
            },
    )
}

pub open spec fn message_errors(ms: Seq<Json>) -> Seq<Option<Seq<char>>> {
    Seq::new(ms.len(), |i: int| message_error(i, ms[i]))
}

/// Why a chat-completions body fails validation, if it does: it must be an
/// object with a non-blank `model` and a non-empty `messages` array of valid
/// messages.
pub open spec fn chat_body_error(b: Json) -> Option<Seq<char>> {
    if !is_object(b) {
        Some("body must be a JSON object"@)
    } else if !nonblank(get_str(b, "model"@)) {
        Some("model must be a non-empty string"@)
    } else {
        match get_array(b, "messages"@) {
            None => Some("messages must be an array"@),
            Some(ms) => if ms.len() == 0 {
                Some("messages must not be empty"@)
            } else {
                first_error(message_errors(ms), 0)
            },
        }
    }
}

// ----- responses -----

/// `optional_non_empty_string_is_invalid`: present and not a non-blank string.
pub open spec fn optional_string_invalid(v: Option<Json>) -> bool {
    match v {
        Some(Json::Str(t)) => all_ws(t),
        Some(_) => true,
        None => false,
    }
}

pub open spec fn content_part_error(loc: Seq<char>, p: int, part: Json) -> Option<Seq<char>> {
    let at = loc + "["@ + decimal(p as nat) + "]"@;
    if !is_object(part) {
        Some(at + " must be an object"@)
    } else if json_get(part, "type"@) matches Some(v) && !(v is Str) {
        Some(at + ".type must be a string"@)
    } else if json_get(part, "text"@) matches Some(v) && !(v is Str) {
        Some(at + ".text must be a string"@)
    } else {
        None
    }
}

pub open spec fn content_part_errors(loc: Seq<char>, parts: Seq<Json>) -> Seq<Option<Seq<char>>> {
    Seq::new(parts.len(), |p: int| content_part_error(loc, p, parts[p]))
}

/// Why a Responses-API `content` or `output` value at `loc` is invalid, if it is.
pub open spec fn response_content_error(loc: Seq<char>, c: Json) -> Option<Seq<char>> {
    match c {
        Json::Str(_) | Json::Null => None,
        Json::Array(parts) => first_error(content_part_errors(loc, parts), 0),
        _ => Some(loc + " must be a string, array, or null"@),
    }
}

pub open spec fn input_item_error(index: int, item: Json) -> Option<Seq<char>> {
    if !is_object(item) {
        Some(index_msg("input["@, index, "] must be an object"@))
    } else if !nonblank(get_str(item, "role"@)) && !nonblank(get_str(item, "type"@)) {
        Some(index_msg("input["@, index, "] must include a non-empty role or type"@))
    } else if json_get(item, "content"@) matches Some(c) && response_content_error(
        index_msg("input["@, index, "].content"@),
        c,
    ) is Some {
        response_content_error(index_msg("input["@, index, "].content"@), json_get(item, "content"@)->0)
    } else {
        match json_get(item, "output"@) {
            Some(c) => response_content_error(index_msg("input["@, index, "].output"@), c),
            None => None,
        }
    }
}

pub open spec fn input_item_errors(items: Seq<Json>) -> Seq<Option<Seq<char>>> {
    Seq::new(items.len(), |i: int| input_item_error(i, items[i]))
}

/// Why a Responses-API `input` is invalid, if it is.
pub open spec fn response_input_error(input: Json) -> Option<Seq<char>> {
    match input {
        Json::Str(t) => if !all_ws(t) {
            None
        } else {
            Some("input must not be an empty string"@)
        },
        Json::Array(items) => if items.len() > 0 {
            first_error(input_item_errors(items), 0)
        } else {
            Some("input array must not be empty"@)
        },
        _ => Some("input must be a non-empty string or array"@),
    }
}

pub open spec fn tool_error(index: int, tool: Json) -> Option<Seq<char>> {
    if !is_object(tool) {
        Some(index_msg("tools["@, index, "] must be an object"@))
    } else if optional_string_invalid(json_get(tool, "type"@)) {
        Some(index_msg("tools["@, index, "].type must be a non-empty string"@))
    } else if optional_string_invalid(json_get(tool, "name"@)) {
        Some(index_msg("tools["@, index, "].name must be a non-empty string"@))
    } else {
        None
    }
}

pub open spec fn tool_errors(tools: Seq<Json>) -> Seq<Option<Seq<char>>> {
    Seq::new(tools.len(), |i: int| tool_error(i, tools[i]))
}

/// Why a Responses-API `tools` value is invalid, if it is.
pub open spec fn response_tools_error(tools: Json) -> Option<Seq<char>> {
    match tools {
        Json::Array(ts) => first_error(tool_errors(ts), 0),
        _ => Some("tools must be an array"@),
    }
}

/// Why a Responses-API body fails validation, if it does: it must be an
/// object with a non-blank `model`, a valid `input`, `instructions` that is a
/// string or null when present, and valid `tools` when present.
pub open spec fn responses_body_error(b: Json) -> Option<Seq<char>> {
    if !is_object(b) {
        Some("body must be a JSON object"@)
    } else if !nonblank(get_str(b, "model"@)) {
        Some("model must be a non-empty string"@)
    } else {
        match json_get(b, "input"@) {
            None => Some("input is required"@),
            Some(input) => if response_input_error(input) is Some {
                response_input_error(input)
            } else if json_get(b, "instructions"@) matches Some(ins) && !(ins is Str
                || ins is Null) {
                Some("instructions must be a string or null"@)
            } else {
                match json_get(b, "tools"@) {
                    Some(tools) => response_tools_error(tools),
                    None => None,
                }
            },
        }
    }
}

// ----- executable checks -----

fn nonblank_str(o: Option<&String>) -> (r: bool)
    ensures
        r == nonblank(
            match o {
                Some(s) => Some(s@),
                None => None,
            },
        ),
{
    match o {
        Some(s) => !is_blank(s.as_str()),
        None => false,
    }
}

fn chat_error(m: String) -> (r: ProxyError)
    ensures
        r == ProxyError::InvalidChatRequest(m),
{
    ProxyError::InvalidChatRequest(m)
}

#[verifier::loop_isolation(false)]
fn validate_message(index: usize, message: &JsonValue) -> (r: Result<(), ProxyError>)
    ensures
        match r {
            Ok(()) => message_error(index as int, message@) is None,
            Err(e) => e matches ProxyError::InvalidChatRequest(m) && message_error(
                index as int,
                message@,
            ) == Some(m@),
        },
{
    match message {
        JsonValue::Object(_) => {},
        _ => {
            return Err(chat_error(concat_num("messages[", index as u128, "] must be an object")));
        },
    }
    if !nonblank_str(message.get_str("role")) {
        return Err(
            chat_error(concat_num("messages[", index as u128, "].role must be a non-empty string")),
        );
    }
    match message.get("content") {
        None => Ok(()),
        Some(JsonValue::Str(_)) | Some(JsonValue::Null) => Ok(()),
        Some(JsonValue::Array(parts)) => {
            proof {
                lemma_array_view(*parts);
            }
            let ghost errs = chat_part_errors(index as int, items_view(parts@));
            let mut p: usize = 0;
            while p < parts.len()
                invariant
                    p <= parts.len(),
                    errs == chat_part_errors(index as int, items_view(parts@)),
                    first_error(errs, 0) == first_error(errs, p as int),
                decreases parts.len() - p,
            {
                assert(items_view(parts@)[p as int] == parts@[p as int]@);
                match &parts[p] {
                    JsonValue::Object(_) => {},
                    _ => {
                        let mut m = concat_num("messages[", index as u128, "].content[");
                        push_decimal(&mut m, p as u128);
                        push_all(&mut m, "] must be an object");
                        assert(errs[p as int] == Some(m@));
                        assert(first_error(errs, p as int) == errs[p as int]);
                        return Err(chat_error(m));
                    },
                }
                assert(errs[p as int] is None);
                p += 1;
            }
            Ok(())
        },
        Some(_) => Err(
            chat_error(
                concat_num("messages[", index as u128, "].content must be a string, array, or null"),
            ),
        ),
    }
}

/// `validate_chat_body`: checks the shape of a chat-completions request.
#[verifier::loop_isolation(false)]
pub fn validate_chat_body(body: &JsonValue) -> (r: Result<(), ProxyError>)
    ensures
        match r {
            Ok(()) => chat_body_error(body@) is None,
            Err(e) => e matches ProxyError::InvalidChatRequest(m) && chat_body_error(body@) == Some(
                m@,
            ),
        },
{
    match body {
        JsonValue::Object(_) => {},
        _ => {
            return Err(chat_error(to_owned_string("body must be a JSON object")));
        },
    }
    if !nonblank_str(body.get_str("model")) {
        return Err(chat_error(to_owned_string("model must be a non-empty string")));
    }
    let messages = match body.get_array("messages") {
        Some(ms) => ms,
        None => {
            return Err(chat_error(to_owned_string("messages must be an array")));
        },
    };
    if messages.len() == 0 {
        return Err(chat_error(to_owned_string("messages must not be empty")));
    }
    let ghost errs = message_errors(items_view(messages@));
    let mut i: usize = 0;
    while i < messages.len()
        invariant
            i <= messages.len(),
            get_array(body@, "messages"@) == Some(items_view(messages@)),
            errs == message_errors(items_view(messages@)),
            first_error(errs, 0) == first_error(errs, i as int),
        decreases messages.len() - i,
    {
        assert(items_view(messages@)[i as int] == messages@[i as int]@);
        let r = validate_message(i, &messages[i]);
        assert(errs[i as int] == message_error(i as int, messages@[i as int]@));
        if r.is_err() {
            assert(first_error(errs, i as int) == errs[i as int]);
            return r;
        }
        i += 1;
    }
    Ok(())
}

fn responses_error(m: String) -> (r: ProxyError)
    ensures
        r == ProxyError::InvalidResponsesRequest(m),
{
    ProxyError::InvalidResponsesRequest(m)
}

#[verifier::loop_isolation(false)]
fn validate_response_content(loc: &str, content: &JsonValue) -> (r: Result<(), ProxyError>)
    ensures
        match r {
            Ok(()) => response_content_error(loc@, content@) is None,
            Err(e) => e matches ProxyError::InvalidResponsesRequest(m) && response_content_error(
                loc@,
                content@,
            ) == Some(m@),
        },
{
    match content {
        JsonValue::Str(_) | JsonValue::Null => Ok(()),
        JsonValue::Array(parts) => {
            proof {
                lemma_array_view(*parts);
            }
            let ghost errs = content_part_errors(loc@, items_view(parts@));
            let mut p: usize = 0;
            while p < parts.len()
                invariant
                    p <= parts.len(),
                    errs == content_part_errors(loc@, items_view(parts@)),
                    first_error(errs, 0) == first_error(errs, p as int),
                decreases parts.len() - p,
            {
                assert(items_view(parts@)[p as int] == parts@[p as int]@);
                let part = &parts[p];
                let mut at = to_owned_string(loc);
                push_all(&mut at, "[");
                push_decimal(&mut at, p as u128);
                push_all(&mut at, "]");
                assert(errs[p as int] == content_part_error(loc@, p as int, parts@[p as int]@));
                assert(at@ == loc@ + "["@ + decimal(p as nat) + "]"@);
                match part {
                    JsonValue::Object(_) => {},
                    _ => {
                        push_all(&mut at, " must be an object");
                        assert(first_error(errs, p as int) == errs[p as int]);
                        return Err(responses_error(at));
                    },
                }
                match part.get("type") {
                    Some(JsonValue::Str(_)) | None => {},
                    Some(_) => {
                        push_all(&mut at, ".type must be a string");
                        assert(first_error(errs, p as int) == errs[p as int]);
                        return Err(responses_error(at));
                    },
                }
                match part.get("text") {
                    Some(JsonValue::Str(_)) | None => {},
                    Some(_) => {
                        push_all(&mut at, ".text must be a string");
                        assert(first_error(errs, p as int) == errs[p as int]);
                        return Err(responses_error(at));
                    },
                }
                assert(errs[p as int] is None);
                p += 1;
            }
            Ok(())
        },
        _ => {
            let mut m = to_owned_string(loc);
            push_all(&mut m, " must be a string, array, or null");
            Err(responses_error(m))
        },
    }
}

fn validate_response_input_item(index: usize, item: &JsonValue) -> (r: Result<(), ProxyError>)
    ensures
        match r {
            Ok(()) => input_item_error(index as int, item@) is None,
            Err(e) => e matches ProxyError::InvalidResponsesRequest(m) && input_item_error(
                index as int,
                item@,
            ) == Some(m@),
        },
{
    match item {
        JsonValue::Object(_) => {},
        _ => {
            return Err(responses_error(concat_num("input[", index as u128, "] must be an object")));
        },
    }
    let has_role = nonblank_str(item.get_str("role"));
    let has_type = nonblank_str(item.get_str("type"));
    if !has_role && !has_type {
        return Err(
            responses_error(
                concat_num("input[", index as u128, "] must include a non-empty role or type"),
            ),
        );
    }
    match item.get("content") {
        Some(content) => {
            let loc = concat_num("input[", index as u128, "].content");
            validate_response_content(loc.as_str(), content)?;
        },
        None => {},
    }
    match item.get("output") {
        Some(output) => {
            let loc = concat_num("input[", index as u128, "].output");
            validate_response_content(loc.as_str(), output)?;
        },
        None => {},
    }
    Ok(())
}

#[verifier::loop_isolation(false)]
fn validate_response_input(input: &JsonValue) -> (r: Result<(), ProxyError>)
    ensures
        match r {
            Ok(()) => response_input_error(input@) is None,
            Err(e) => e matches ProxyError::InvalidResponsesRequest(m) && response_input_error(
                input@,
            ) == Some(m@),
        },
{
    match input {
        JsonValue::Str(t) => {
            if !is_blank(t.as_str()) {
                Ok(())
            } else {
                Err(responses_error(to_owned_string("input must not be an empty string")))
            }
        },
        JsonValue::Array(items) => {
            proof {
                lemma_array_view(*items);
            }
            if items.len() == 0 {
                return Err(responses_error(to_owned_string("input array must not be empty")));
            }
            let ghost errs = input_item_errors(items_view(items@));
            let mut i: usize = 0;
            while i < items.len()
                invariant
                    i <= items.len(),
                    errs == input_item_errors(items_view(items@)),
                    first_error(errs, 0) == first_error(errs, i as int),
                decreases items.len() - i,
            {
                assert(items_view(items@)[i as int] == items@[i as int]@);
                let r = validate_response_input_item(i, &items[i]);
                assert(errs[i as int] == input_item_error(i as int, items@[i as int]@));
                if r.is_err() {
                    assert(first_error(errs, i as int) == errs[i as int]);
                    return r;
                }
                i += 1;
            }
            Ok(())
        },
        _ => Err(responses_error(to_owned_string("input must be a non-empty string or array"))),
    }
}

fn optional_non_empty_string_is_invalid(value: Option<&JsonValue>) -> (r: bool)
    ensures
        r == optional_string_invalid(
            match value {
                Some(v) => Some(v@),
                None => None,
            },
        ),
{
    match value {
        Some(JsonValue::Str(t)) => is_blank(t.as_str()),
        Some(_) => true,
        None => false,
    }
}

#[verifier::loop_isolation(false)]
fn validate_response_tools(tools: &JsonValue) -> (r: Result<(), ProxyError>)
    ensures
        match r {
            Ok(()) => response_tools_error(tools@) is None,
            Err(e) => e matches ProxyError::InvalidResponsesRequest(m) && response_tools_error(
                tools@,
            ) == Some(m@),
        },
{
    let ts = match tools {
        JsonValue::Array(ts) => ts,
        _ => {
            return Err(responses_error(to_owned_string("tools must be an array")));
        },
    };
    proof {
        lemma_array_view(*ts);
    }
    let ghost errs = tool_errors(items_view(ts@));
    let mut i: usize = 0;
    while i < ts.len()
        invariant
            i <= ts.len(),
            errs == tool_errors(items_view(ts@)),
            first_error(errs, 0) == first_error(errs, i as int),
        decreases ts.len() - i,
    {
        assert(items_view(ts@)[i as int] == ts@[i as int]@);
        let tool = &ts[i];
        assert(errs[i as int] == tool_error(i as int, ts@[i as int]@));
        match tool {
            JsonValue::Object(_) => {},
            _ => {
                let m = concat_num("tools[", i as u128, "] must be an object");
                assert(first_error(errs, i as int) == errs[i as int]);
                return Err(responses_error(m));
            },
        }
        if optional_non_empty_string_is_invalid(tool.get("type")) {
            let m = concat_num("tools[", i as u128, "].type must be a non-empty string");
            assert(first_error(errs, i as int) == errs[i as int]);
            return Err(responses_error(m));
        }
        if optional_non_empty_string_is_invalid(tool.get("name")) {
            let m = concat_num("tools[", i as u128, "].name must be a non-empty string");
            assert(first_error(errs, i as int) == errs[i as int]);
            return Err(responses_error(m));
        }
        assert(errs[i as int] is None);
        i += 1;
    }
    Ok(())
}

/// `validate_responses_body`: checks the shape of a Responses-API request.
pub fn validate_responses_body(body: &JsonValue) -> (r: Result<(), ProxyError>)
    ensures
        match r {
            Ok(()) => responses_body_error(body@) is None,
            Err(e) => e matches ProxyError::InvalidResponsesRequest(m) && responses_body_error(
                body@,
            ) == Some(m@),
        },
{
    match body {
        JsonValue::Object(_) => {},
        _ => {
            return Err(responses_error(to_owned_string("body must be a JSON object")));
        },
    }
    if !nonblank_str(body.get_str("model")) {
        return Err(responses_error(to_owned_string("model must be a non-empty string")));
    }
    let input = match body.get("input") {
        Some(i) => i,
        None => {
            return Err(responses_error(to_owned_string("input is required")));
        },
    };
    validate_response_input(input)?;
    match body.get("instructions") {
        Some(JsonValue::Str(_)) | Some(JsonValue::Null) | None => {},
        Some(_) => {
            return Err(responses_error(to_owned_string("instructions must be a string or null")));
        },
    }
    match body.get("tools") {
        Some(tools) => validate_response_tools(tools),
        None => Ok(()),
    }
}

} // verus!
