//! A plain model of a parsed JSON document and the lookups the library makes in it.
use vstd::prelude::*;

verus! {

/// A JSON number as `serde_json::Number` holds it (without its float value).
#[derive(Clone, Copy, Debug, PartialEq, Eq)]
pub enum JsonNumber {
    PosInt(u64),
    NegInt(i64),
    Float,
}

/// A JSON value as `serde_json::Value` holds it.
#[derive(Debug)]
pub enum JsonValue {
    Null,
    Bool(bool),
    Number(JsonNumber),
    Str(String),
    Array(Vec<JsonValue>),
    Object(Vec<(String, JsonValue)>),
}

/// Index of the first member of `members` at or after `i` whose name is `key`
/// (`members.len()` when there is none).
pub open spec fn member_index(members: Seq<(String, JsonValue)>, key: Seq<char>, i: int) -> int
    decreases members.len() - i,
{
    if i < 0 || i >= members.len() {
        members.len() as int
    } else if members[i].0@ == key {
        i
    } else {
        member_index(members, key, i + 1)
    }
}

/// `Value::get(key)`: the member named `key` of an object, `None` for any other value.
pub open spec fn get_member(v: JsonValue, key: Seq<char>) -> Option<JsonValue> {
    match v {
        JsonValue::Object(m) => {
            let k = member_index(m@, key, 0);
            if k < m@.len() { Some(m@[k].1) } else { None }
        },
        _ => None,
    }
}

/// `Value::as_str`.
pub open spec fn value_str(v: JsonValue) -> Option<Seq<char>> {
    match v {
        JsonValue::Str(s) => Some(s@),
        _ => None,
    }
}

/// `Value::as_i64`.
pub open spec fn value_i64(v: JsonValue) -> Option<i64> {
    match v {
        JsonValue::Number(JsonNumber::PosInt(u)) => if u <= i64::MAX { Some(u as i64) } else { None },
        JsonValue::Number(JsonNumber::NegInt(i)) => Some(i),
        _ => None,
    }
}

/// `Value::get(key)`.
pub fn json_get<'a>(v: &'a JsonValue, key: &String) -> (res: Option<&'a JsonValue>)
    ensures
        match res {
            Some(r) => get_member(*v, key@) == Some(*r),
            None => get_member(*v, key@) is None,
        },
{
    match v {
        JsonValue::Object(m) => {
            let mut i: usize = 0;
            while i < m.len()
                invariant
                    i <= m.len(),
                    *v == JsonValue::Object(*m),
                    member_index(m@, key@, 0) == member_index(m@, key@, i as int),
                decreases m.len() - i,
            {
                if m[i].0 == *key {
                    assert(member_index(m@, key@, i as int) == i);
                    return Some(&m[i].1);
                }
                i = i + 1;
            }
            None
        },
        _ => None,
    }
}

/// `Value::as_str`.
pub fn json_as_str(v: &JsonValue) -> (res: Option<&String>)
    ensures
        match res {
            Some(s) => value_str(*v) == Some(s@),
            None => value_str(*v) is None,
        },
{
    match v {
        JsonValue::Str(s) => Some(s),
        _ => None,
    }
}

/// `Value::as_i64`.
pub fn json_as_i64(v: &JsonValue) -> (res: Option<i64>)
    ensures
        res == value_i64(*v),
{
    match v {
        JsonValue::Number(JsonNumber::PosInt(u)) => if *u <= 0x7fff_ffff_ffff_ffff { Some(*u as i64) } else { None },
        JsonValue::Number(JsonNumber::NegInt(i)) => Some(*i),
        _ => None,
    }
}

} // verus!
