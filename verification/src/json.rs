use vstd::prelude::*;

use crate::text::{chars_eq, chars_of, to_owned_string};

verus! {

#[derive(Debug)]
pub enum JsonNumber {
    PosInt(u64),
    NegInt(i64),
    Float(String),
}

#[derive(Debug)]
pub enum JsonValue {
    Null,
    Bool(bool),
    Number(JsonNumber),
    Str(String),
    Array(Vec<JsonValue>),
    Object(Vec<(String, JsonValue)>),
}

pub enum Num {
    PosInt(u64),
    NegInt(i64),
    Float(Seq<char>),
}

pub enum Json {
    Null,
    Bool(bool),
    Number(Num),
    Str(Seq<char>),
    Array(Seq<Json>),
    Object(Seq<(Seq<char>, Json)>),
}

impl View for JsonNumber {
    type V = Num;

    open spec fn view(&self) -> Num {
        match self {
            JsonNumber::PosInt(n) => Num::PosInt(*n),
            JsonNumber::NegInt(n) => Num::NegInt(*n),
            JsonNumber::Float(s) => Num::Float(s@),
        }
    }
}

impl View for JsonValue {
    type V = Json;

    open spec fn view(&self) -> Json
        decreases self,
    {
        match self {
            JsonValue::Null => Json::Null,
            JsonValue::Bool(b) => Json::Bool(*b),
            JsonValue::Number(n) => Json::Number(n@),
            JsonValue::Str(s) => Json::Str(s@),
            JsonValue::Array(items) => Json::Array(
                Seq::new(
                    items@.len(),
                    |i: int|
                        if 0 <= i < items@.len() {
                            items@[i].view()
                        } else {
                            Json::Null
                        },
                ),
            ),
            JsonValue::Object(entries) => Json::Object(
                Seq::new(
                    entries@.len(),
                    |i: int|
                        if 0 <= i < entries@.len() {
                            (entries@[i].0@, entries@[i].1.view())
                        } else {
                            (Seq::empty(), Json::Null)
                        },
                ),
            ),
        }
    }
}

/// The views of a sequence of values, one for one.
pub open spec fn items_view(items: Seq<JsonValue>) -> Seq<Json> {
    Seq::new(items.len(), |i: int| items[i]@)
}

/// The views of an object's entries, one for one.
pub open spec fn entries_view(es: Seq<(String, JsonValue)>) -> Seq<(Seq<char>, Json)> {
    Seq::new(es.len(), |i: int| (es[i].0@, es[i].1@))
}

pub proof fn lemma_array_view(items: Vec<JsonValue>)
    ensures
        JsonValue::Array(items)@ == Json::Array(items_view(items@)),
{
    let v = JsonValue::Array(items);
    reveal_with_fuel(<JsonValue as View>::view, 2);
    match v@ {
        Json::Array(s) => {
            assert(s =~= items_view(items@));
        },
        _ => {
            assert(false);
        },
    }
}

pub proof fn lemma_object_view(es: Vec<(String, JsonValue)>)
    ensures
        JsonValue::Object(es)@ == Json::Object(entries_view(es@)),
{
    let v = JsonValue::Object(es);
    reveal_with_fuel(<JsonValue as View>::view, 2);
    match v@ {
        Json::Object(s) => {
            assert(s =~= entries_view(es@));
        },
        _ => {
            assert(false);
        },
    }
}

/// Position of the first entry at or after `i` whose key is `key`.
pub open spec fn key_pos(es: Seq<(Seq<char>, Json)>, key: Seq<char>, i: int) -> Option<int>
    decreases es.len() - i,
{
    if i < 0 || i >= es.len() {
        None
    } else if es[i].0 == key {
        Some(i)
    } else {
        key_pos(es, key, i + 1)
    }
}

pub proof fn lemma_key_pos(es: Seq<(Seq<char>, Json)>, key: Seq<char>, i: int)
    requires
        0 <= i,
    ensures
        key_pos(es, key, i) matches Some(p) ==> i <= p < es.len() && es[p].0 == key && forall|
            k: int,
        | i <= k < p ==> #[trigger] es[k].0 != key,
        key_pos(es, key, i) is None ==> forall|k: int| i <= k < es.len() ==> #[trigger] es[k].0
            != key,
    decreases es.len() - i,
{
    if i < es.len() && es[i].0 != key {
        lemma_key_pos(es, key, i + 1);
    }
}

/// The value that `key` maps to in an object, as `serde_json`'s `Value::get`
/// finds it; `None` for anything that is not an object or lacks the key.
pub open spec fn json_get(j: Json, key: Seq<char>) -> Option<Json> {
    match j {
        Json::Object(es) => match key_pos(es, key, 0) {
            Some(p) => Some(es[p].1),
            None => None,
        },
        _ => None,
    }
}

pub open spec fn json_has(j: Json, key: Seq<char>) -> bool {
    json_get(j, key) is Some
}

/// `get(key).and_then(Value::as_str)`.
pub open spec fn get_str(j: Json, key: Seq<char>) -> Option<Seq<char>> {
    match json_get(j, key) {
        Some(Json::Str(s)) => Some(s),
        _ => None,
    }
}

/// `get(key).and_then(Value::as_array)`.
pub open spec fn get_array(j: Json, key: Seq<char>) -> Option<Seq<Json>> {
    match json_get(j, key) {
        Some(Json::Array(items)) => Some(items),
        _ => None,
    }
}

pub open spec fn opt_view(o: Option<&JsonValue>) -> Option<Json> {
    match o {
        Some(v) => Some(v@),
        None => None,
    }
}

/// The entries with the value at the first occurrence of `key` replaced, or
/// with a new entry appended when the key is absent.
pub open spec fn entries_set(es: Seq<(Seq<char>, Json)>, key: Seq<char>, v: Json) -> Seq<
    (Seq<char>, Json),
> {
    match key_pos(es, key, 0) {
        Some(p) => es.update(p, (key, v)),
        None => es.push((key, v)),
    }
}

pub proof fn lemma_key_pos_at(es: Seq<(Seq<char>, Json)>, key: Seq<char>, i: int, p: int)
    requires
        0 <= i <= p < es.len(),
        es[p].0 == key,
        forall|j: int| i <= j < p ==> #[trigger] es[j].0 != key,
    ensures
        key_pos(es, key, i) == Some(p),
    decreases p - i,
{
    if i < p {
        lemma_key_pos_at(es, key, i + 1, p);
    }
}

/// Reading back a key just set on an object gives the value set.
pub proof fn lemma_get_set(j: Json, key: Seq<char>, v: Json)
    requires
        j is Object,
    ensures
        json_get(json_set(j, key, v), key) == Some(v),
{
    let es = j->Object_0;
    lemma_key_pos(es, key, 0);
    let es2 = entries_set(es, key, v);
    match key_pos(es, key, 0) {
        Some(p) => {
            assert forall|k: int| 0 <= k < p implies #[trigger] es2[k].0 != key by {
                assert(es2[k] == es[k]);
            }
            lemma_key_pos_at(es2, key, 0, p);
        },
        None => {
            assert forall|k: int| 0 <= k < es.len() implies #[trigger] es2[k].0 != key by {
                assert(es2[k] == es[k]);
            }
            lemma_key_pos_at(es2, key, 0, es.len() as int);
        },
    }
}

/// `value[key] = v` for an object; any other value stays as it is.
pub open spec fn json_set(j: Json, key: Seq<char>, v: Json) -> Json {
    match j {
        Json::Object(es) => Json::Object(entries_set(es, key, v)),
        _ => j,
    }
}

impl JsonValue {
    /// Position of `key` among an object's entries, if it is there.
    pub fn find_key(es: &Vec<(String, JsonValue)>, key: &str) -> (r: Option<usize>)
        ensures
            match r {
                Some(p) => p < es.len() && key_pos(entries_view(es@), key@, 0) == Some(p as int),
                None => key_pos(entries_view(es@), key@, 0) is None,
            },
    {
        let ghost ev = entries_view(es@);
        let kc = chars_of(key);
        let mut i: usize = 0;
        while i < es.len()
            invariant
                i <= es.len(),
                kc@ == key@,
                ev == entries_view(es@),
                key_pos(ev, key@, 0) == key_pos(ev, key@, i as int),
            decreases es.len() - i,
        {
            let ek = chars_of(es[i].0.as_str());
            if chars_eq(&ek, &kc) {
                return Some(i);
            }
            i += 1;
        }
        proof {
            lemma_key_pos(ev, key@, es.len() as int);
        }
        None
    }

    /// `Value::get`: the value under `key` when this is an object that has it.
    pub fn get(&self, key: &str) -> (r: Option<&JsonValue>)
        ensures
            opt_view(r) == json_get(self@, key@),
    {
        match self {
            JsonValue::Object(es) => {
                proof {
                    lemma_object_view(*es);
                }
                match JsonValue::find_key(es, key) {
                    Some(p) => Some(&es[p].1),
                    None => None,
                }
            },
            _ => None,
        }
    }

    /// `get(key).and_then(Value::as_str)`.
    pub fn get_str(&self, key: &str) -> (r: Option<&String>)
        ensures
            match r {
                Some(s) => get_str(self@, key@) == Some(s@),
                None => get_str(self@, key@) is None,
            },
    {
        match self.get(key) {
            Some(JsonValue::Str(s)) => Some(s),
            _ => None,
        }
    }

    /// `get(key).and_then(Value::as_array)`.
    pub fn get_array(&self, key: &str) -> (r: Option<&Vec<JsonValue>>)
        ensures
            match r {
                Some(items) => get_array(self@, key@) == Some(items_view(items@)),
                None => get_array(self@, key@) is None,
            },
    {
        match self.get(key) {
            Some(JsonValue::Array(items)) => {
                proof {
                    lemma_array_view(*items);
                }
                Some(items)
            },
            _ => None,
        }
    }

    /// A copy of the value.
    pub fn deep_clone(&self) -> (r: JsonValue)
        ensures
            r@ == self@,
        decreases self@,
    {
        match self {
            JsonValue::Null => JsonValue::Null,
            JsonValue::Bool(b) => JsonValue::Bool(*b),
            JsonValue::Number(n) => JsonValue::Number(
                match n {
                    JsonNumber::PosInt(u) => JsonNumber::PosInt(*u),
                    JsonNumber::NegInt(i) => JsonNumber::NegInt(*i),
                    JsonNumber::Float(t) => JsonNumber::Float(t.clone()),
                },
            ),
            JsonValue::Str(s) => JsonValue::Str(s.clone()),
            JsonValue::Array(items) => {
                proof {
                    lemma_array_view(*items);
                }
                let mut out: Vec<JsonValue> = Vec::new();
                let mut i: usize = 0;
                while i < items.len()
                    invariant
                        self@ == Json::Array(items_view(items@)),
                        i <= items.len(),
                        out@.len() == i,
                        forall|k: int| 0 <= k < i ==> (#[trigger] out@[k])@ == items@[k]@,
                    decreases items.len() - i,
                {
                    proof {
                        lemma_array_view(*items);
                        let ghost sv = items_view(items@);
                        assert(sv[i as int] == items@[i as int]@);
                        assert(self@ == Json::Array(sv));
                        assert(decreases_to!(self@ => self@->Array_0));
                        assert(decreases_to!(sv => sv[i as int]));
                    }
                    let c = items[i].deep_clone();
                    out.push(c);
                    i += 1;
                }
                proof {
                    lemma_array_view(*items);
                    lemma_array_view(out);
                    assert(items_view(out@) =~= items_view(items@));
                }
                JsonValue::Array(out)
            },
            JsonValue::Object(es) => {
                proof {
                    lemma_object_view(*es);
                }
                let mut out: Vec<(String, JsonValue)> = Vec::new();
                let mut i: usize = 0;
                while i < es.len()
                    invariant
                        self@ == Json::Object(entries_view(es@)),
                        i <= es.len(),
                        out@.len() == i,
                        forall|k: int|
                            0 <= k < i ==> (#[trigger] out@[k]).0@ == es@[k].0@ && out@[k].1@
                                == es@[k].1@,
                    decreases es.len() - i,
                {
                    proof {
                        lemma_object_view(*es);
                        let ghost sv = entries_view(es@);
                        assert(sv[i as int] == (es@[i as int].0@, es@[i as int].1@));
                        assert(self@ == Json::Object(sv));
                        assert(decreases_to!(self@ => self@->Object_0));
                        assert(decreases_to!(sv => sv[i as int]));
                        assert(decreases_to!(sv[i as int] => sv[i as int].1));
                    }
                    let c = es[i].1.deep_clone();
                    out.push((es[i].0.clone(), c));
                    i += 1;
                }
                proof {
                    lemma_object_view(*es);
                    lemma_object_view(out);
                    assert(entries_view(out@) =~= entries_view(es@));
                }
                JsonValue::Object(out)
            },
        }
    }

    /// `object[key] = value` on an object: replaces the first entry with that
    /// key, or appends one; any other value is left as it is.
    pub fn set_key(&mut self, key: &str, value: JsonValue)
        ensures
            final(self)@ == json_set(old(self)@, key@, value@),
    {
        match self {
            JsonValue::Object(es) => {
                proof {
                    lemma_object_view(*es);
                }
                let ghost before = entries_view(es@);
                match JsonValue::find_key(es, key) {
                    Some(p) => {
                        let k = to_owned_string(key);
                        es.set(p, (k, value));
                        proof {
                            assert(entries_view(es@) =~= before.update(p as int, (key@, value@)));
                        }
                    },
                    None => {
                        let k = to_owned_string(key);
                        es.push((k, value));
                        proof {
                            assert(entries_view(es@) =~= before.push((key@, value@)));
                        }
                    },
                }
                proof {
                    lemma_object_view(*es);
                }
            },
            _ => {},
        }
    }
}

} // verus!
