use vstd::prelude::*;

use crate::detectors::prompt::{prompt_strings, prompt_strings_spec, strings_view};
use crate::json::{get_str, json_get, Json, JsonNumber, JsonValue, Num};
use crate::text::chars_of;

verus! {

/// Estimated tokens of a text: one per four characters, rounded up, and at
/// least one.
pub open spec fn text_tokens(t: Seq<char>) -> int {
    let q: int = (t.len() + 3) as int / 4;
    if q < 1 {
        1
    } else {
        q
    }
}

/// Four tokens of overhead plus the text's estimate, for each prompt text.
pub open spec fn strings_tokens(ss: Seq<Seq<char>>) -> int
    decreases ss.len(),
{
    if ss.len() == 0 {
        0
    } else {
        strings_tokens(ss.drop_last()) + 4 + text_tokens(ss.last())
    }
}

/// The prompt texts' estimate adds up: the texts of `a` followed by those of
/// `b` cost what `a` costs plus what `b` costs, so every text counts, none
/// twice.
pub proof fn prompt_text_tokens_add_up(a: Seq<Seq<char>>, b: Seq<Seq<char>>)
    ensures
        strings_tokens(a + b) == strings_tokens(a) + strings_tokens(b),
    decreases b.len(),
{
    if b.len() == 0 {
        assert(a + b =~= a);
    } else {
        prompt_text_tokens_add_up(a, b.drop_last());
        assert((a + b).drop_last() =~= a + b.drop_last());
        assert((a + b).last() == b.last());
    }
}

/// One prompt text costs four tokens of overhead plus its own estimate, and
/// no text costs nothing.
pub proof fn one_prompt_text_tokens(t: Seq<char>)
    ensures
        strings_tokens(seq![t]) == 4 + text_tokens(t),
        strings_tokens(Seq::<Seq<char>>::empty()) == 0,
{
    let one = seq![t];
    assert(one.drop_last() =~= Seq::<Seq<char>>::empty());
    assert(one.last() == t);
    assert(strings_tokens(one.drop_last()) == 0);
}

/// `max_tokens` when it is a non-negative integer, else nothing.
pub open spec fn max_tokens_of(body: Json) -> int {
    match json_get(body, "max_tokens"@) {
        Some(Json::Number(Num::PosInt(n))) => n as int,
        _ => 0,
    }
}

/// The estimate of a request: the model name's tokens, each prompt text's
/// tokens with overhead, and the `max_tokens` the request asks for.
pub open spec fn prompt_tokens_spec(body: Json) -> int {
    let model = match get_str(body, "model"@) {
        Some(m) => text_tokens(m),
        None => 0,
    };
    model + strings_tokens(prompt_strings_spec(body)) + max_tokens_of(body)
}

pub open spec fn saturate(n: int) -> usize {
    if n > usize::MAX {
        usize::MAX
    } else {
        n as usize
    }
}

/// Estimated tokens of a text.
pub fn estimate_text_tokens(text: &str) -> (r: usize)
    ensures
        r == text_tokens(text@),
{
    let chars = chars_of(text).len();
    let q = chars / 4 + if chars % 4 == 0 {
        0
    } else {
        1
    };
    if q < 1 {
        1
    } else {
        q
    }
}

/// Estimated tokens of a request body, held at `usize::MAX` when larger.
pub fn estimate_prompt_tokens(body: &JsonValue) -> (r: usize)
    ensures
        r == saturate(prompt_tokens_spec(body@)),
{
    let mut total: usize = 0;
    let ghost mut exact: int = 0;
    match body.get_str("model") {
        Some(m) => {
            total = estimate_text_tokens(m.as_str());
            proof {
                exact = text_tokens(m@);
            }
        },
        None => {},
    }
    let texts = prompt_strings(body);
    let ghost tv = prompt_strings_spec(body@);
    let ghost base = exact;
    assert(forall|k: int| 0 <= k < tv.len() ==> #[trigger] tv[k] == texts@[k]@);
    let mut i: usize = 0;
    while i < texts.len()
        invariant
            i <= texts.len(),
            tv.len() == texts.len(),
            forall|k: int| 0 <= k < tv.len() ==> #[trigger] tv[k] == texts@[k]@,
            exact == base + strings_tokens(tv.take(i as int)),
            total == saturate(exact),
            base >= 0,
            exact >= 0,
        decreases texts.len() - i,
    {
        proof {
            assert(tv.take(i + 1).drop_last() =~= tv.take(i as int));
            assert(tv.take(i + 1).last() == texts@[i as int]@);
        }
        let t = estimate_text_tokens(texts[i].as_str());
        total = total.saturating_add(4).saturating_add(t);
        proof {
            exact = exact + 4 + text_tokens(texts@[i as int]@);
        }
        i += 1;
    }
    assert(tv.take(texts.len() as int) =~= tv);
    match body.get("max_tokens") {
        Some(JsonValue::Number(JsonNumber::PosInt(n))) => {
            let m: usize = if *n as u128 <= usize::MAX as u128 {
                *n as usize
            } else {
                usize::MAX
            };
            total = total.saturating_add(m);
            proof {
                exact = exact + *n;
            }
        },
        _ => {},
    }
    total
}

} // verus!
