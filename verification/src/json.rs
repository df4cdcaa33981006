//! A plain model of a parsed JSON document. The verified logic reads this
//! model; the one trusted function below obtains it from serde_json.
use vstd::prelude::*;

verus! {

/// A parsed JSON document. Numbers carry no value because no rule of this
/// library reads one.
#[derive(Debug)]
pub enum JsonValue {
    Null,
    Bool(bool),
    Num,
    Str(String),
    Arr(Vec<JsonValue>),
    Obj(Vec<(String, JsonValue)>),
}

/// serde_json's own value tree, opaque to the verifier; it only passes
/// between the two trusted functions below.
#[verifier::external_type_specification]
#[verifier::external_body]
pub struct ExSerdeValue(serde_json::Value);

/// The model that serde_json produces for a given input text: `None` when the
/// text is not valid JSON, otherwise the document with object entries in the
/// order serde_json's map iteration yields them. It is a function of the text
/// alone.
pub uninterp spec fn json_of(text: Seq<char>) -> Option<JsonValue>;

/// Relies on serde_json::from_str: parsing either fails or yields the value
/// tree of the input text, deterministically.
#[verifier::external_body]
pub fn parse_json(text: &str) -> (r: Option<JsonValue>)
    ensures
        r == json_of(text@),
{
    serde_json::from_str::<serde_json::Value>(text).ok().map(|v| convert_json(&v))
}

/// Relies on serde_json::Value only to mirror each variant into the library's
/// own model; object entries keep serde_json's iteration order.
#[verifier::external_body]
fn convert_json(v: &serde_json::Value) -> JsonValue {
    match v {
        serde_json::Value::Null => JsonValue::Null,
        serde_json::Value::Bool(b) => JsonValue::Bool(*b),
        serde_json::Value::Number(_) => JsonValue::Num,
        serde_json::Value::String(s) => JsonValue::Str(s.clone()),
        serde_json::Value::Array(items) => JsonValue::Arr(
            items.iter().map(|x| convert_json(x)).collect(),
        ),
        serde_json::Value::Object(entries) => JsonValue::Obj(
            entries.iter().map(|(k, x)| (k.clone(), convert_json(x))).collect(),
        ),
    }
}

/// The value under `key` in an object's entry list: the first match counts,
/// though serde_json never produces two entries with one key.
pub open spec fn obj_lookup(entries: Seq<(String, JsonValue)>, key: Seq<char>) -> Option<
    JsonValue,
>
    decreases entries.len(),
{
    if entries.len() == 0 {
        None
    } else if entries[0].0@ == key {
        Some(entries[0].1)
    } else {
        obj_lookup(entries.drop_first(), key)
    }
}

/// What `Value::get(key)` yields on this model: `None` unless the value is an
/// object holding the key.
pub open spec fn get_spec(v: JsonValue, key: Seq<char>) -> Option<JsonValue> {
    match v {
        JsonValue::Obj(entries) => obj_lookup(entries@, key),
        _ => None,
    }
}

/// Look a key up in a JSON value, as `Value::get` does.
pub fn json_get<'a>(v: &'a JsonValue, key: &str) -> (r: Option<&'a JsonValue>)
    ensures
        match r {
            Some(found) => get_spec(*v, key@) == Some(*found),
            None => get_spec(*v, key@) is None,
        },
{
    match v {
        JsonValue::Obj(entries) => {
            let n = entries.len();
            let mut i: usize = 0;
            proof {
                assert(entries@.skip(0) =~= entries@);
            }
            while i < n
                invariant
                    0 <= i <= n,
                    n == entries@.len(),
                    get_spec(*v, key@) == obj_lookup(entries@, key@),
                    obj_lookup(entries@, key@) == obj_lookup(entries@.skip(i as int), key@),
                decreases n - i,
            {
                let pair = &entries[i];
                proof {
                    assert(entries@.skip(i as int)[0] == entries@[i as int]);
                    assert(entries@.skip(i as int).drop_first() =~= entries@.skip(i + 1));
                }
                if crate::textutil::str_eq(pair.0.as_str(), key) {
                    proof {
                        assert(entries@.skip(i as int)[0].0@ == key@);
                        assert(obj_lookup(entries@.skip(i as int), key@) == Some(
                            entries@.skip(i as int)[0].1,
                        ));
                        assert(entries@.skip(i as int)[0].1 == entries@[i as int].1);
                    }
                    return Some(&pair.1);
                }
                i = i + 1;
            }
            proof {
                assert(entries@.skip(n as int) =~= Seq::<(String, JsonValue)>::empty());
            }
            None
        },
        _ => None,
    }
}

/// What `Value::as_str` yields on this model.
pub open spec fn as_str_spec(v: JsonValue) -> Option<Seq<char>> {
    match v {
        JsonValue::Str(s) => Some(s@),
        _ => None,
    }
}

/// The string content of a JSON value, as `Value::as_str` reports it.
pub fn json_as_str<'a>(v: &'a JsonValue) -> (r: Option<&'a String>)
    ensures
        match r {
            Some(s) => as_str_spec(*v) == Some(s@),
            None => as_str_spec(*v) is None,
        },
{
    match v {
        JsonValue::Str(s) => Some(s),
        _ => None,
    }
}

} // verus!
