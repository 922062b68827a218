//! The library's own model of a parsed JSON document (what serde_json's
//! `Value` holds, as far as the scanner reads it), parsing text into it, and
//! the lookups the scanner makes: `get` by key and JSON Pointer paths.
use vstd::prelude::*;

use crate::text::{chars_of, find_char, parse_unsigned, parse_usize, slice_chars, str_eq};

verus! {

/// A parsed JSON value.
///
/// A number keeps the value that serde_json's `Value::as_i64` gives for it,
/// or `None` when it has none (a float, or an integer above `i64::MAX`).
/// The entries of an object have distinct keys, as in serde_json's `Map`.
pub enum JsonValue {
    Null,
    Bool(bool),
    Number(Option<i64>),
    String(String),
    Array(Vec<JsonValue>),
    Object(Vec<(String, JsonValue)>),
}

/// The value stored under `key` in the entries of an object.
pub open spec fn entries_get(entries: Seq<(String, JsonValue)>, key: Seq<char>) -> Option<
    JsonValue,
>
    decreases entries.len(),
{
    if entries.len() == 0 {
        None
    } else if entries[0].0@ == key {
        Some(entries[0].1)
    } else {
        entries_get(entries.drop_first(), key)
    }
}

/// serde_json's `Value::get` with a string key: the member `key` of an
/// object, `None` for anything else.
pub open spec fn json_get(v: JsonValue, key: Seq<char>) -> Option<JsonValue> {
    match v {
        JsonValue::Object(entries) => entries_get(entries@, key),
        _ => None,
    }
}

/// The array index that a pointer token names: digits without a `+` and
/// without a leading zero (other than `0` itself).
pub open spec fn pointer_index(token: Seq<char>) -> Option<nat> {
    if token.len() > 0 && (token[0] == '+' || (token[0] == '0' && token.len() != 1)) {
        None
    } else {
        parse_unsigned(token, usize::MAX as nat)
    }
}

/// One step of a JSON Pointer: the member of an object, or the element of an
/// array, that `token` names.
pub open spec fn pointer_step(v: JsonValue, token: Seq<char>) -> Option<JsonValue> {
    match v {
        JsonValue::Object(entries) => entries_get(entries@, token),
        JsonValue::Array(items) => match pointer_index(token) {
            Some(i) => if i < items@.len() {
                Some(items@[i as int])
            } else {
                None
            },
            None => None,
        },
        _ => None,
    }
}

/// The position of the first `/` in `s`, or its length.
pub open spec fn slash_index(s: Seq<char>) -> nat
    decreases s.len(),
{
    if s.len() == 0 {
        0
    } else if s[0] == '/' {
        0
    } else {
        1 + slash_index(s.drop_first())
    }
}

proof fn lemma_slash_index(s: Seq<char>)
    ensures
        slash_index(s) <= s.len(),
        forall|j: int| 0 <= j < slash_index(s) ==> s[j] != '/',
        slash_index(s) < s.len() ==> s[slash_index(s) as int] == '/',
    decreases s.len(),
{
    if s.len() > 0 && s[0] != '/' {
        lemma_slash_index(s.drop_first());
        assert forall|j: int| 0 <= j < slash_index(s) implies s[j] != '/' by {
            if j > 0 {
                assert(s[j] == s.drop_first()[j - 1]);
            }
        }
    }
}

/// Following the tokens of `rest` (the text after a `/`), one after another.
pub open spec fn pointer_walk(v: JsonValue, rest: Seq<char>) -> Option<JsonValue>
    decreases rest.len(),
{
    let k = slash_index(rest);
    match pointer_step(v, rest.take(k as int)) {
        None => None,
        Some(c) => if k >= rest.len() {
            Some(c)
        } else {
            pointer_walk(c, rest.skip(k as int + 1))
        },
    }
}

/// serde_json's `Value::pointer` for a pointer without `~` escapes: the empty
/// pointer names the value itself, one not starting with `/` names nothing,
/// and otherwise each `/`-separated token is followed in turn.
pub open spec fn json_pointer(v: JsonValue, p: Seq<char>) -> Option<JsonValue> {
    if p.len() == 0 {
        Some(v)
    } else if p[0] != '/' {
        None
    } else {
        pointer_walk(v, p.drop_first())
    }
}

/// The string a value holds, if it is a string.
pub open spec fn json_as_str(v: Option<JsonValue>) -> Option<Seq<char>> {
    match v {
        Some(JsonValue::String(s)) => Some(s@),
        _ => None,
    }
}

/// The member `key` of an object.
pub fn get<'a>(v: &'a JsonValue, key: &str) -> (r: Option<&'a JsonValue>)
    ensures
        match r {
            Some(x) => json_get(*v, key@) == Some(*x),
            None => json_get(*v, key@).is_none(),
        },
{
    match v {
        JsonValue::Object(entries) => entries_lookup(entries, key),
        _ => None,
    }
}

fn entries_lookup<'a>(entries: &'a Vec<(String, JsonValue)>, key: &str) -> (r: Option<
    &'a JsonValue,
>)
    ensures
        match r {
            Some(x) => entries_get(entries@, key@) == Some(*x),
            None => entries_get(entries@, key@).is_none(),
        },
{
    let mut i: usize = 0;
    assert(entries@.skip(0) =~= entries@);
    while i < entries.len()
        invariant
            i <= entries@.len(),
            entries_get(entries@, key@) == entries_get(entries@.skip(i as int), key@),
        decreases entries@.len() - i,
    {
        proof {
            assert(entries@.skip(i as int).drop_first() =~= entries@.skip(i + 1));
        }
        if str_eq(entries[i].0.as_str(), key) {
            return Some(&entries[i].1);
        }
        i = i + 1;
    }
    None
}

fn index_of_token(token: &[char]) -> (r: Option<usize>)
    ensures
        match r {
            Some(i) => pointer_index(token@) == Some(i as nat),
            None => pointer_index(token@).is_none(),
        },
{
    if token.len() > 0 && (token[0] == '+' || (token[0] == '0' && token.len() != 1)) {
        return None;
    }
    parse_usize(token)
}

fn step<'a>(v: &'a JsonValue, token: &[char]) -> (r: Option<&'a JsonValue>)
    ensures
        match r {
            Some(x) => pointer_step(*v, token@) == Some(*x),
            None => pointer_step(*v, token@).is_none(),
        },
{
    match v {
        JsonValue::Object(entries) => {
            let key = crate::text::string_from_chars(token);
            entries_lookup(entries, key.as_str())
        },
        JsonValue::Array(items) => match index_of_token(token) {
            Some(i) => if i < items.len() {
                Some(&items[i])
            } else {
                None
            },
            None => None,
        },
        _ => None,
    }
}

/// The value a JSON Pointer without `~` escapes names.
pub fn pointer<'a>(v: &'a JsonValue, p: &str) -> (r: Option<&'a JsonValue>)
    requires
        forall|i: int| 0 <= i < p@.len() ==> p@[i] != '~',
    ensures
        match r {
            Some(x) => json_pointer(*v, p@) == Some(*x),
            None => json_pointer(*v, p@).is_none(),
        },
{
    let cs = chars_of(p);
    if cs.len() == 0 {
        return Some(v);
    }
    if cs[0] != '/' {
        return None;
    }
    let mut cur: &'a JsonValue = v;
    let mut pos: usize = 1;
    let ghost whole = cs@.drop_first();
    assert(cs@.subrange(1, cs@.len() as int) =~= whole);
    loop
        invariant
            1 <= pos <= cs@.len(),
            whole == cs@.drop_first(),
            json_pointer(*v, p@) == pointer_walk(*cur, cs@.subrange(pos as int, cs@.len() as int)),
        decreases cs@.len() - pos,
    {
        let rest = slice_chars(&cs, pos, cs.len());
        proof {
            lemma_slash_index(rest@);
        }
        let k: usize = match find_char(&rest, '/') {
            Some(k) => k,
            None => rest.len(),
        };
        proof {
            if k < rest@.len() {
                assert(slash_index(rest@) == k) by {
                    if slash_index(rest@) < k {
                        assert(rest@[slash_index(rest@) as int] == '/');
                    } else if slash_index(rest@) > k {
                        assert(rest@[k as int] == '/');
                    }
                }
            } else {
                assert(slash_index(rest@) == k) by {
                    if slash_index(rest@) < k {
                        assert(rest@[slash_index(rest@) as int] == '/');
                    }
                }
            }
        }
        let token = slice_chars(&rest, 0, k);
        assert(token@ =~= rest@.take(k as int));
        match step(cur, &token) {
            None => {
                return None;
            },
            Some(c) => {
                if k >= rest.len() {
                    return Some(c);
                }
                proof {
                    assert(rest@.skip(k + 1) =~= cs@.subrange(pos + k + 1, cs@.len() as int));
                }
                cur = c;
                pos = pos + k + 1;
            },
        }
    }
}

/// The string that `v` holds, if it is a string.
pub fn as_str(v: Option<&JsonValue>) -> (r: Option<&str>)
    ensures
        match r {
            Some(s) => v.is_some() && json_as_str(Some(*v.unwrap())) == Some(s@),
            None => v.is_none() || json_as_str(Some(*v.unwrap())).is_none(),
        },
{
    match v {
        Some(JsonValue::String(s)) => Some(s.as_str()),
        _ => None,
    }
}


// ---------------------------------------------------------------------------
// Parsing
// ---------------------------------------------------------------------------

#[verifier::external_type_specification]
#[verifier::external_body]
pub struct ExSerdeJsonValue(serde_json::Value);

/// The document that serde_json reads from `text`: `None` when the text is
/// not JSON. It depends on the text alone.
pub uninterp spec fn parsed_json(text: Seq<char>) -> Option<JsonValue>;

/// Parses `text` with `serde_json::from_str::<serde_json::Value>` and gives
/// the parsed value in the library's model (see `json_model`), `None` when
/// serde_json refuses the text. The contract claims only that the result is
/// the same for the same text: what serde_json accepts and builds is not
/// stated.
#[verifier::external_body]
pub fn parse_json(text: &str) -> (r: Option<JsonValue>)
    ensures
        r == parsed_json(text@),
{
    match serde_json::from_str::<serde_json::Value>(text) {
        Ok(v) => Some(json_model(&v)),
        Err(_) => None,
    }
}

/// The conversion of a serde_json `Value` into the library's model that
/// `parse_json` applies to what it parsed, variant for variant (a number
/// becomes what `as_i64` gives for it). Nothing is stated of it; only
/// `parse_json` calls it.
#[verifier::external_body]
fn json_model(v: &serde_json::Value) -> JsonValue {
    match v {
        serde_json::Value::Null => JsonValue::Null,
        serde_json::Value::Bool(b) => JsonValue::Bool(*b),
        serde_json::Value::Number(n) => JsonValue::Number(n.as_i64()),
        serde_json::Value::String(s) => JsonValue::String(s.clone()),
        serde_json::Value::Array(a) => JsonValue::Array(a.iter().map(json_model).collect()),
        serde_json::Value::Object(m) => {
            JsonValue::Object(m.iter().map(|(k, x)| (k.clone(), json_model(x))).collect())
        },
    }
}

} // verus!
