use vstd::prelude::*;

use crate::json::{
    get_array, get_str, json_get, items_view, key_pos, lemma_array_view, lemma_key_pos,
    lemma_object_view, entries_view, Json, JsonValue,
};

verus! {

/// The views of a sequence of strings.
pub open spec fn strings_view(v: Seq<String>) -> Seq<Seq<char>> {
    Seq::new(v.len(), |i: int| v[i]@)
}

pub proof fn lemma_strings_view_append(a: Seq<String>, b: Seq<String>)
    ensures
        strings_view(a + b) == strings_view(a) + strings_view(b),
{
    assert(strings_view(a + b) =~= strings_view(a) + strings_view(b));
}

pub proof fn lemma_strings_view_push(a: Seq<String>, s: String)
    ensures
        strings_view(a.push(s)) == strings_view(a).push(s@),
{
    assert(strings_view(a.push(s)) =~= strings_view(a).push(s@));
}

/// A value found under a key of an object lies strictly inside that object.
pub proof fn lemma_get_decreases(j: Json, key: Seq<char>)
    ensures
        json_get(j, key) matches Some(c) ==> decreases_to!(j => c),
{
    if let Json::Object(es) = j {
        lemma_key_pos(es, key, 0);
        if let Some(p) = key_pos(es, key, 0) {
            assert(decreases_to!(j => j->Object_0));
            assert(decreases_to!(es => es[p]));
            assert(decreases_to!(es[p] => es[p].1));
        }
    }
}

/// The single string held by an optional string.
pub open spec fn opt_strings(o: Option<Seq<char>>) -> Seq<Seq<char>> {
    match o {
        Some(t) => seq![t],
        None => Seq::empty(),
    }
}

/// The text that a message's `content` holds: a string, the parts of an
/// array, or a single part object.
pub open spec fn content_strings(c: Json) -> Seq<Seq<char>>
    decreases c, 2int,
{
    match c {
        Json::Str(t) => seq![t],
        Json::Array(parts) => parts_each(parts).flatten_alt(),
        Json::Object(_) => part_strings(c),
        _ => Seq::empty(),
    }
}

/// The text of each part of a content array.
pub open spec fn parts_each(parts: Seq<Json>) -> Seq<Seq<Seq<char>>>
    decreases parts, 0int,
{
    Seq::new(
        parts.len(),
        |i: int|
            if 0 <= i < parts.len() {
                part_strings(parts[i])
            } else {
                Seq::empty()
            },
    )
}

/// The text of one content part: its `text`, then the text of its nested
/// `content` and `output`.
pub open spec fn part_strings(p: Json) -> Seq<Seq<char>>
    decreases p, 1int,
{
    match p {
        Json::Str(t) => seq![t],
        Json::Object(_) => {
            let text = opt_strings(get_str(p, "text"@));
            let content = match json_get(p, "content"@) {
                Some(c) => {
                    proof {
                        lemma_get_decreases(p, "content"@);
                    }
                    content_strings(c)
                },
                None => Seq::empty(),
            };
            let output = match json_get(p, "output"@) {
                Some(c) => {
                    proof {
                        lemma_get_decreases(p, "output"@);
                    }
                    content_strings(c)
                },
                None => Seq::empty(),
            };
            text + content + output
        },
        _ => Seq::empty(),
    }
}

/// The text of a message's `content`, if it has one.
pub open spec fn message_content_strings(m: Json) -> Seq<Seq<char>> {
    match json_get(m, "content"@) {
        Some(c) => content_strings(c),
        None => Seq::empty(),
    }
}

pub open spec fn messages_each(msgs: Seq<Json>) -> Seq<Seq<Seq<char>>> {
    Seq::new(msgs.len(), |i: int| message_content_strings(msgs[i]))
}

/// The text of every chat message's content, in order.
pub open spec fn chat_message_strings(body: Json) -> Seq<Seq<char>> {
    match get_array(body, "messages"@) {
        Some(msgs) => messages_each(msgs).flatten_alt(),
        None => Seq::empty(),
    }
}

/// The text of one Responses-API input item: its `content`, its `output`,
/// then its `text`.
pub open spec fn input_item_strings(item: Json) -> Seq<Seq<char>> {
    match item {
        Json::Str(t) => seq![t],
        Json::Object(_) => {
            let content = match json_get(item, "content"@) {
                Some(c) => content_strings(c),
                None => Seq::empty(),
            };
            let output = match json_get(item, "output"@) {
                Some(c) => content_strings(c),
                None => Seq::empty(),
            };
            content + output + opt_strings(get_str(item, "text"@))
        },
        _ => Seq::empty(),
    }
}

pub open spec fn input_items_each(items: Seq<Json>) -> Seq<Seq<Seq<char>>> {
    Seq::new(items.len(), |i: int| input_item_strings(items[i]))
}

/// The text of a Responses-API `input`: a string, an array of items, or one item.
pub open spec fn input_strings(input: Json) -> Seq<Seq<char>> {
    match input {
        Json::Str(t) => seq![t],
        Json::Array(items) => input_items_each(items).flatten_alt(),
        Json::Object(_) => input_item_strings(input),
        _ => Seq::empty(),
    }
}

/// `instructions` followed by the text of `input`.
pub open spec fn response_prompt_strings(body: Json) -> Seq<Seq<char>> {
    opt_strings(get_str(body, "instructions"@)) + match json_get(body, "input"@) {
        Some(i) => input_strings(i),
        None => Seq::empty(),
    }
}

/// Every piece of prompt text a request carries: chat messages first, then
/// Responses-API instructions and input.
pub open spec fn prompt_strings_spec(body: Json) -> Seq<Seq<char>> {
    chat_message_strings(body) + response_prompt_strings(body)
}

/// An element of one of the inner sequences is an element of the flattening.
pub proof fn lemma_flatten_contains<A>(s: Seq<Seq<A>>, k: int, j: int)
    requires
        0 <= k < s.len(),
        0 <= j < s[k].len(),
    ensures
        s.flatten_alt().contains(s[k][j]),
    decreases s.len(),
{
    let f = s.flatten_alt();
    if k == s.len() - 1 {
        let pre = s.drop_last().flatten_alt();
        assert(f == pre + s.last());
        assert(f[pre.len() + j] == s[k][j]);
    } else {
        lemma_flatten_contains(s.drop_last(), k, j);
        assert(s.drop_last()[k] == s[k]);
        let pre = s.drop_last().flatten_alt();
        assert(f == pre + s.last());
        let w = choose|w: int| 0 <= w < pre.len() && pre[w] == s[k][j];
        assert(f[w] == pre[w]);
    }
}

pub proof fn lemma_flatten_step(s: Seq<Seq<Seq<char>>>, i: int)
    requires
        0 <= i < s.len(),
    ensures
        s.take(i + 1).flatten_alt() == s.take(i).flatten_alt() + s[i],
{
    assert(s.take(i + 1).drop_last() =~= s.take(i));
}

/// Pushes `t`'s text, as an owned string, to `out`.
pub fn push_text(out: &mut Vec<String>, t: &String)
    ensures
        strings_view(final(out)@) == strings_view(old(out)@).push(t@),
{
    let ghost before = out@;
    out.push(t.clone());
    proof {
        lemma_strings_view_push(before, *t);
    }
}

/// Appends all of `more` to `out`.
pub fn extend_strings(out: &mut Vec<String>, more: Vec<String>)
    ensures
        strings_view(final(out)@) == strings_view(old(out)@) + strings_view(more@),
{
    let ghost before = out@;
    let mut more = more;
    let ghost m = more@;
    out.append(&mut more);
    proof {
        lemma_strings_view_append(before, m);
    }
}

/// The text held by a message's `content` value.
pub fn content_to_strings(content: &JsonValue) -> (r: Vec<String>)
    ensures
        strings_view(r@) == content_strings(content@),
    decreases content@, 2int,
{
    match content {
        JsonValue::Str(t) => {
            let mut out: Vec<String> = Vec::new();
            push_text(&mut out, t);
            assert(strings_view(out@) =~= seq![t@]);
            assert(content@ == Json::Str(t@));
            assert(content_strings(Json::Str(t@)) == seq![t@]);
            out
        },
        JsonValue::Array(parts) => {
            proof {
                lemma_array_view(*parts);
            }
            let ghost pv = items_view(parts@);
            let ghost each = parts_each(pv);
            let mut out: Vec<String> = Vec::new();
            let mut i: usize = 0;
            while i < parts.len()
                invariant
                    content@ == Json::Array(pv),
                    pv == items_view(parts@),
                    each.len() == parts.len(),
                    forall|k: int| 0 <= k < each.len() ==> #[trigger] each[k] == part_strings(pv[k]),
                    i <= parts.len(),
                    strings_view(out@) == each.take(i as int).flatten_alt(),
                decreases parts.len() - i,
            {
                proof {
                    assert(decreases_to!(content@ => content@->Array_0));
                    assert(decreases_to!(pv => pv[i as int]));
                    lemma_flatten_step(each, i as int);
                }
                let more = content_part_to_strings(&parts[i]);
                extend_strings(&mut out, more);
                i += 1;
            }
            assert(each.take(parts.len() as int) =~= each);
            out
        },
        JsonValue::Object(es) => {
            proof {
                lemma_object_view(*es);
            }
            content_part_to_strings(content)
        },
        _ => {
            let out: Vec<String> = Vec::new();
            assert(strings_view(out@) =~= Seq::empty());
            out
        },
    }
}

/// Appends the text of `c`, when present, to `out`.
fn extend_with_content(out: &mut Vec<String>, c: Option<&JsonValue>, ghost_bound: Ghost<Json>)
    requires
        c matches Some(v) ==> decreases_to!(ghost_bound@ => v@),
    ensures
        strings_view(final(out)@) == strings_view(old(out)@) + match c {
            Some(v) => content_strings(v@),
            None => Seq::empty(),
        },
    decreases ghost_bound@, 0int,
{
    match c {
        Some(v) => {
            let more = content_to_strings(v);
            extend_strings(out, more);
        },
        None => {
            assert(strings_view(out@) + Seq::empty() =~= strings_view(out@));
        },
    }
}

fn content_part_to_strings(part: &JsonValue) -> (r: Vec<String>)
    ensures
        strings_view(r@) == part_strings(part@),
    decreases part@, 1int,
{
    match part {
        JsonValue::Str(t) => {
            let mut out: Vec<String> = Vec::new();
            push_text(&mut out, t);
            assert(strings_view(out@) =~= seq![t@]);
            out
        },
        JsonValue::Object(_) => {
            let mut out: Vec<String> = Vec::new();
            assert(strings_view(out@) =~= Seq::empty());
            match part.get_str("text") {
                Some(t) => push_text(&mut out, t),
                None => {},
            }
            assert(strings_view(out@) =~= opt_strings(get_str(part@, "text"@)));
            proof {
                lemma_get_decreases(part@, "content"@);
                lemma_get_decreases(part@, "output"@);
            }
            extend_with_content(&mut out, part.get("content"), Ghost(part@));
            extend_with_content(&mut out, part.get("output"), Ghost(part@));
            out
        },
        _ => {
            let out: Vec<String> = Vec::new();
            assert(strings_view(out@) =~= Seq::empty());
            out
        },
    }
}

fn collect_chat_message_strings(body: &JsonValue, out: &mut Vec<String>)
    ensures
        strings_view(final(out)@) == strings_view(old(out)@) + chat_message_strings(body@),
{
    match body.get_array("messages") {
        Some(messages) => {
            let ghost each = messages_each(items_view(messages@));
            let ghost start = strings_view(out@);
            let mut i: usize = 0;
            while i < messages.len()
                invariant
                    i <= messages.len(),
                    each == messages_each(items_view(messages@)),
                    strings_view(out@) == start + each.take(i as int).flatten_alt(),
                decreases messages.len() - i,
            {
                proof {
                    lemma_flatten_step(each, i as int);
                    assert(items_view(messages@)[i as int] == messages@[i as int]@);
                }
                match messages[i].get("content") {
                    Some(content) => {
                        let more = content_to_strings(content);
                        extend_strings(out, more);
                    },
                    None => {},
                }
                assert(start + each.take(i + 1).flatten_alt() =~= start + each.take(
                    i as int,
                ).flatten_alt() + each[i as int]);
                i += 1;
            }
            assert(each.take(messages.len() as int) =~= each);
        },
        None => {
            assert(strings_view(out@) + Seq::empty() =~= strings_view(out@));
        },
    }
}

fn collect_response_input_item_strings(item: &JsonValue, out: &mut Vec<String>)
    ensures
        strings_view(final(out)@) == strings_view(old(out)@) + input_item_strings(item@),
{
    let ghost start = strings_view(out@);
    match item {
        JsonValue::Str(t) => {
            push_text(out, t);
            assert(strings_view(out@) =~= start + seq![t@]);
        },
        JsonValue::Object(_) => {
            match item.get("content") {
                Some(c) => {
                    let more = content_to_strings(c);
                    extend_strings(out, more);
                },
                None => {},
            }
            let ghost mid = strings_view(out@);
            match item.get("output") {
                Some(c) => {
                    let more = content_to_strings(c);
                    extend_strings(out, more);
                },
                None => {},
            }
            let ghost mid2 = strings_view(out@);
            match item.get_str("text") {
                Some(t) => push_text(out, t),
                None => {},
            }
            assert(strings_view(out@) =~= mid2 + opt_strings(get_str(item@, "text"@)));
            assert(strings_view(out@) =~= start + input_item_strings(item@));
        },
        _ => {
            assert(strings_view(out@) =~= start + Seq::empty());
        },
    }
}

fn collect_response_input_strings(input: &JsonValue, out: &mut Vec<String>)
    ensures
        strings_view(final(out)@) == strings_view(old(out)@) + input_strings(input@),
{
    let ghost start = strings_view(out@);
    match input {
        JsonValue::Str(t) => {
            push_text(out, t);
            assert(strings_view(out@) =~= start + seq![t@]);
        },
        JsonValue::Array(items) => {
            proof {
                lemma_array_view(*items);
            }
            let ghost each = input_items_each(items_view(items@));
            let mut i: usize = 0;
            while i < items.len()
                invariant
                    i <= items.len(),
                    input@ == Json::Array(items_view(items@)),
                    each == input_items_each(items_view(items@)),
                    strings_view(out@) == start + each.take(i as int).flatten_alt(),
                decreases items.len() - i,
            {
                proof {
                    lemma_flatten_step(each, i as int);
                    assert(items_view(items@)[i as int] == items@[i as int]@);
                }
                collect_response_input_item_strings(&items[i], out);
                assert(start + each.take(i + 1).flatten_alt() =~= start + each.take(
                    i as int,
                ).flatten_alt() + each[i as int]);
                i += 1;
            }
            assert(each.take(items.len() as int) =~= each);
        },
        JsonValue::Object(_) => {
            collect_response_input_item_strings(input, out);
        },
        _ => {
            assert(strings_view(out@) =~= start + Seq::empty());
        },
    }
}

fn collect_response_prompt_strings(body: &JsonValue, out: &mut Vec<String>)
    ensures
        strings_view(final(out)@) == strings_view(old(out)@) + response_prompt_strings(body@),
{
    let ghost start = strings_view(out@);
    match body.get_str("instructions") {
        Some(t) => push_text(out, t),
        None => {},
    }
    assert(strings_view(out@) =~= start + opt_strings(get_str(body@, "instructions"@)));
    let ghost mid = strings_view(out@);
    match body.get("input") {
        Some(input) => collect_response_input_strings(input, out),
        None => {},
    }
    assert(strings_view(out@) =~= start + response_prompt_strings(body@));
}

/// Every piece of prompt text in a request body: the content of each chat
/// message, then the Responses-API `instructions` and the text of `input`.
pub fn prompt_strings(body: &JsonValue) -> (r: Vec<String>)
    ensures
        strings_view(r@) == prompt_strings_spec(body@),
{
    let mut strings: Vec<String> = Vec::new();
    assert(strings_view(strings@) =~= Seq::empty());
    collect_chat_message_strings(body, &mut strings);
    collect_response_prompt_strings(body, &mut strings);
    assert(strings_view(strings@) =~= prompt_strings_spec(body@));
    strings
}

} // verus!
