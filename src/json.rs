//! A JSON value as the library reads it, with numbers kept in their written
//! form, and what a manifest inspection's output names.
use vstd::prelude::*;

use crate::text::same_text;

verus! {

/// A JSON value; a number holds its written form, an object its fields in
/// order.
#[derive(Debug)]
pub enum JsonValue {
    Null,
    Bool(bool),
    Number(String),
    Text(String),
    Array(Vec<JsonValue>),
    Object(Vec<(String, JsonValue)>),
}

/// The value of the first field named `k`, if any.
pub open spec fn field(fields: Seq<(String, JsonValue)>, k: Seq<char>) -> Option<JsonValue>
    decreases fields.len(),
{
    if fields.len() == 0 {
        None
    } else if fields[0].0@ == k {
        Some(fields[0].1)
    } else {
        field(fields.subrange(1, fields.len() as int), k)
    }
}

/// The reference that a manifest inspection's output names: the output is an
/// array whose first element is an object with a string field `Ref`.
pub open spec fn manifest_ref_spec(v: JsonValue) -> Option<Seq<char>> {
    match v {
        JsonValue::Array(items) => if items@.len() > 0 {
            match items@[0] {
                JsonValue::Object(fields) => match field(fields@, "Ref"@) {
                    Some(JsonValue::Text(s)) => Some(s@),
                    _ => None,
                },
                _ => None,
            }
        } else {
            None
        },
        _ => None,
    }
}

/// The value of the first field named `k` of `fields`.
pub fn get_field<'a>(fields: &'a Vec<(String, JsonValue)>, k: &str) -> (r: Option<&'a JsonValue>)
    ensures
        match r {
            Some(v) => field(fields@, k@) == Some(*v),
            None => field(fields@, k@).is_none(),
        },
{
    let n = fields.len();
    let mut i: usize = 0;
    assert(fields@.subrange(0, n as int) =~= fields@);
    while i < n
        invariant
            n == fields@.len(),
            i <= n,
            field(fields@, k@) == field(fields@.subrange(i as int, n as int), k@),
        decreases n - i,
    {
        let ghost rest = fields@.subrange(i as int, n as int);
        assert(rest[0] == fields@[i as int]);
        if same_text(fields[i].0.as_str(), k) {
            return Some(&fields[i].1);
        }
        assert(rest.subrange(1, rest.len() as int) =~= fields@.subrange(i + 1, n as int));
        i = i + 1;
    }
    None
}

/// The reference named by a manifest inspection's output `v`.
pub fn manifest_ref(v: &JsonValue) -> (r: Option<String>)
    ensures
        match r {
            Some(s) => manifest_ref_spec(*v) == Some(s@),
            None => manifest_ref_spec(*v).is_none(),
        },
{
    match v {
        JsonValue::Array(items) => {
            if items.len() == 0 {
                return None;
            }
            match &items[0] {
                JsonValue::Object(fields) => match get_field(fields, "Ref") {
                    Some(JsonValue::Text(s)) => Some(s.clone()),
                    _ => None,
                },
                _ => None,
            }
        },
        _ => None,
    }
}

} // verus!
