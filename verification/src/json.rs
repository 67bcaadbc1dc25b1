//! JSON values, as the judge's message stream carries them.
//!
//! Each line the judge prints is one JSON document.  Parsing the JSON
//! text is left to `serde_json`; its result is carried over into
//! [`JsonValue`], a tree of plain values that the verified message
//! decoder reads.  A number keeps the text `serde_json` prints for it,
//! so the verified reader in [`crate::num`] decides what quantity it
//! denotes.

use crate::num::spec_parse_number;
use crate::num::parse_number;
use vstd::prelude::*;

verus! {

/// A JSON document over plain values.  Numbers hold their text.
pub enum JsonValue {
    Null,
    Bool(bool),
    Num(String),
    Str(String),
    Arr(Vec<JsonValue>),
    Obj(Vec<(String, JsonValue)>),
}

#[verifier::external_type_specification]
#[verifier::external_body]
pub struct ExSerdeValue(serde_json::Value);

/// Relies on the shape of `serde_json::Value`: carries a parsed JSON
/// tree over into the library's own value type, one arm per variant,
/// moving the fields; a number becomes the text that `serde_json`
/// prints for it.
#[verifier::external_body]
fn json_value_of_serde(v: serde_json::Value) -> JsonValue {
    match v {
        serde_json::Value::Null => JsonValue::Null,
        serde_json::Value::Bool(b) => JsonValue::Bool(b),
        serde_json::Value::Number(n) => JsonValue::Num(n.to_string()),
        serde_json::Value::String(s) => JsonValue::Str(s),
        serde_json::Value::Array(a) => JsonValue::Arr(a.into_iter().map(json_value_of_serde).collect()),
        serde_json::Value::Object(o) => JsonValue::Obj(
            o.into_iter().map(|(k, w)| (k, json_value_of_serde(w))).collect(),
        ),
    }
}

/// The JSON document that a line of text denotes, if it is one.
pub uninterp spec fn json_of(s: Seq<char>) -> Option<JsonValue>;

/// Relies on `serde_json::from_str`: parses one line of JSON text; the
/// result depends on the text alone.
#[verifier::external_body]
pub(crate) fn decode_json(line: &str) -> (r: Option<JsonValue>)
    ensures
        r == json_of(line@),
{
    match serde_json::from_str::<serde_json::Value>(line) {
        Ok(v) => Some(json_value_of_serde(v)),
        Err(_) => None,
    }
}

/// Whether two string slices hold the same characters.
pub fn str_eq(a: &str, b: &str) -> (r: bool)
    ensures
        r == (a@ == b@),
{
    let na = a.unicode_len();
    let nb = b.unicode_len();
    if na != nb {
        return false;
    }
    let mut i: usize = 0;
    while i < na
        invariant
            i <= na,
            na == a@.len(),
            na == b@.len(),
            forall|k: int| 0 <= k < i ==> a@[k] == b@[k],
        decreases na - i,
    {
        if a.get_char(i) != b.get_char(i) {
            return false;
        }
        i += 1;
    }
    proof {
        assert(a@ =~= b@);
    }
    true
}

/// The value under the first field of the given name, if any.
pub open spec fn spec_obj_get(fields: Seq<(String, JsonValue)>, key: Seq<char>) -> Option<JsonValue>
    decreases fields.len(),
{
    if fields.len() == 0 {
        None
    } else if fields[0].0@ == key {
        Some(fields[0].1)
    } else {
        spec_obj_get(fields.drop_first(), key)
    }
}

/// Look a field up in an object's field list.
pub fn obj_get<'a>(fields: &'a Vec<(String, JsonValue)>, key: &str) -> (r: Option<&'a JsonValue>)
    ensures
        match r {
            Some(v) => spec_obj_get(fields@, key@) == Some(*v),
            None => spec_obj_get(fields@, key@) is None,
        },
{
    let mut i: usize = 0;
    proof {
        assert(fields@.skip(0) =~= fields@);
    }
    while i < fields.len()
        invariant
            i <= fields@.len(),
            spec_obj_get(fields@, key@) == spec_obj_get(fields@.skip(i as int), key@),
        decreases fields@.len() - i,
    {
        proof {
            assert(fields@.skip(i as int).drop_first() =~= fields@.skip(i + 1));
            assert(fields@.skip(i as int)[0] == fields@[i as int]);
        }
        if str_eq(fields[i].0.as_str(), key) {
            return Some(&fields[i].1);
        }
        i += 1;
    }
    proof {
        assert(fields@.skip(fields@.len() as int) =~= Seq::<(String, JsonValue)>::empty());
    }
    None
}

/// The characters of a JSON string value.
pub open spec fn spec_json_str(v: JsonValue) -> Option<Seq<char>> {
    match v {
        JsonValue::Str(s) => Some(s@),
        _ => None,
    }
}

/// Read a JSON string value.
pub fn json_str<'a>(v: &'a JsonValue) -> (r: Option<&'a String>)
    ensures
        match r {
            Some(s) => spec_json_str(*v) == Some(s@),
            None => spec_json_str(*v) is None,
        },
{
    match v {
        JsonValue::Str(s) => Some(s),
        _ => None,
    }
}

/// A nonnegative JSON number, in thousandths of its unit.
pub open spec fn spec_json_milli(v: JsonValue) -> Option<u64> {
    match v {
        JsonValue::Num(t) => match spec_parse_number(t@) {
            Some((neg, m)) => if neg && m > 0 {
                None
            } else {
                Some(m)
            },
            None => None,
        },
        _ => None,
    }
}

/// Read a nonnegative JSON number into thousandths of its unit.
pub fn json_milli(v: &JsonValue) -> (r: Option<u64>)
    ensures
        r == spec_json_milli(*v),
{
    match v {
        JsonValue::Num(t) => match parse_number(t.as_str()) {
            Some((neg, m)) => if neg && m > 0 {
                None
            } else {
                Some(m)
            },
            None => None,
        },
        _ => None,
    }
}

/// The integer a number text denotes, where it denotes a whole one.
pub open spec fn spec_seq_int(s: Seq<char>) -> Option<i64> {
    match spec_parse_number(s) {
        Some((neg, m)) => if m % 1000 == 0 {
            if neg {
                Some((-((m / 1000) as int)) as i64)
            } else {
                Some((m / 1000) as i64)
            }
        } else {
            None
        },
        None => None,
    }
}

/// Read an integer number text, as object keys carry them.
pub fn parse_int_text(s: &str) -> (r: Option<i64>)
    ensures
        r == spec_seq_int(s@),
{
    match parse_number(s) {
        Some((neg, m)) => if m % 1000 == 0 {
            let units = (m / 1000) as i64;
            if neg {
                Some(-units)
            } else {
                Some(units)
            }
        } else {
            None
        },
        None => None,
    }
}

/// A JSON integer: a number with no fraction finer than a unit.
pub open spec fn spec_json_int(v: JsonValue) -> Option<i64> {
    match v {
        JsonValue::Num(t) => spec_seq_int(t@),
        _ => None,
    }
}

/// Read a JSON integer.
pub fn json_int(v: &JsonValue) -> (r: Option<i64>)
    ensures
        r == spec_json_int(*v),
{
    match v {
        JsonValue::Num(t) => parse_int_text(t.as_str()),
        _ => None,
    }
}

/// The characters of the string field of the given name.
pub open spec fn spec_field_str(fields: Seq<(String, JsonValue)>, key: Seq<char>) -> Option<
    Seq<char>,
> {
    match spec_obj_get(fields, key) {
        Some(v) => spec_json_str(v),
        None => None,
    }
}

/// Read a string field of an object.
pub fn field_str<'a>(fields: &'a Vec<(String, JsonValue)>, key: &str) -> (r: Option<&'a String>)
    ensures
        match r {
            Some(s) => spec_field_str(fields@, key@) == Some(s@),
            None => spec_field_str(fields@, key@) is None,
        },
{
    match obj_get(fields, key) {
        Some(v) => json_str(v),
        None => None,
    }
}

/// The nonnegative number field of the given name, in thousandths.
pub open spec fn spec_field_milli(fields: Seq<(String, JsonValue)>, key: Seq<char>) -> Option<
    u64,
> {
    match spec_obj_get(fields, key) {
        Some(v) => spec_json_milli(v),
        None => None,
    }
}

/// Read a nonnegative number field of an object, in thousandths.
pub fn field_milli(fields: &Vec<(String, JsonValue)>, key: &str) -> (r: Option<u64>)
    ensures
        r == spec_field_milli(fields@, key@),
{
    match obj_get(fields, key) {
        Some(v) => json_milli(v),
        None => None,
    }
}

/// The nonnegative whole-number field of the given name.
pub open spec fn spec_field_u64(fields: Seq<(String, JsonValue)>, key: Seq<char>) -> Option<u64> {
    match spec_obj_get(fields, key) {
        Some(v) => match spec_json_int(v) {
            Some(i) => if i >= 0 {
                Some(i as u64)
            } else {
                None
            },
            None => None,
        },
        None => None,
    }
}

/// Read a nonnegative whole-number field of an object.
pub fn field_u64(fields: &Vec<(String, JsonValue)>, key: &str) -> (r: Option<u64>)
    ensures
        r == spec_field_u64(fields@, key@),
{
    match obj_get(fields, key) {
        Some(v) => match json_int(v) {
            Some(i) => if i >= 0 {
                Some(i as u64)
            } else {
                None
            },
            None => None,
        },
        None => None,
    }
}

/// The field list of the object field of the given name.
pub open spec fn spec_field_obj(fields: Seq<(String, JsonValue)>, key: Seq<char>) -> Option<
    Seq<(String, JsonValue)>,
> {
    match spec_obj_get(fields, key) {
        Some(JsonValue::Obj(inner)) => Some(inner@),
        _ => None,
    }
}

/// Read an object field of an object.
pub fn field_obj<'a>(fields: &'a Vec<(String, JsonValue)>, key: &str) -> (r: Option<
    &'a Vec<(String, JsonValue)>,
>)
    ensures
        match r {
            Some(v) => spec_field_obj(fields@, key@) == Some(v@),
            None => spec_field_obj(fields@, key@) is None,
        },
{
    match obj_get(fields, key) {
        Some(JsonValue::Obj(inner)) => Some(inner),
        _ => None,
    }
}

/// The items of the array field of the given name.
pub open spec fn spec_field_arr(fields: Seq<(String, JsonValue)>, key: Seq<char>) -> Option<
    Seq<JsonValue>,
> {
    match spec_obj_get(fields, key) {
        Some(JsonValue::Arr(items)) => Some(items@),
        _ => None,
    }
}

/// Read an array field of an object.
pub fn field_arr<'a>(fields: &'a Vec<(String, JsonValue)>, key: &str) -> (r: Option<
    &'a Vec<JsonValue>,
>)
    ensures
        match r {
            Some(v) => spec_field_arr(fields@, key@) == Some(v@),
            None => spec_field_arr(fields@, key@) is None,
        },
{
    match obj_get(fields, key) {
        Some(JsonValue::Arr(items)) => Some(items),
        _ => None,
    }
}

} // verus!
