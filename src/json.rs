use vstd::prelude::*;

use serde_json::Value;
use std::collections::BTreeMap;

verus! {

/// A JSON value found as a field of a record, with nested values left out.
#[derive(Debug)]
pub enum Field {
    Null,
    Bool(bool),
    /// A number, in the decimal text that serde_json writes for it.
    Number(String),
    Text(String),
    /// An array or an object.
    Composite,
}

impl Field {
    /// A copy of this field.
    pub fn copy(&self) -> (r: Field)
        ensures
            r == *self,
    {
        match self {
            Field::Null => Field::Null,
            Field::Bool(b) => Field::Bool(*b),
            Field::Number(s) => Field::Number(s.clone()),
            Field::Text(s) => Field::Text(s.clone()),
            Field::Composite => Field::Composite,
        }
    }
}

/// A JSON object: its fields in key order.
pub type Record = Vec<(String, Field)>;

/// What serde_json reads from a JSON string document.
pub uninterp spec fn json_string(text: Seq<char>) -> Option<String>;

/// What serde_json reads from a JSON array of strings.
pub uninterp spec fn json_string_list(text: Seq<char>) -> Option<Vec<String>>;

/// What serde_json reads from a JSON array of objects: each object's fields,
/// with nested values left out.
pub uninterp spec fn json_records(text: Seq<char>) -> Option<Vec<Record>>;

/// Relies on `serde_json::from_str::<String>`: the content of a JSON string
/// document, `None` for any other document.
#[verifier::external_body]
pub(crate) fn decode_string(text: &str) -> (r: Option<String>)
    ensures
        r == json_string(text@),
{
    serde_json::from_str::<String>(text).ok()
}

/// Relies on `serde_json::from_str::<Vec<String>>`: the strings of a JSON
/// array of strings, in order; `None` for any other document.
#[verifier::external_body]
pub(crate) fn decode_string_list(text: &str) -> (r: Option<Vec<String>>)
    ensures
        r == json_string_list(text@),
{
    serde_json::from_str::<Vec<String>>(text).ok()
}

/// Relies on `serde_json::from_str` into a `Vec` of `BTreeMap<String, Value>`:
/// the objects of a JSON array of objects, in order, each with its fields in
/// key order (so each key once, as the map holds it), and a number as its
/// `Display` text; `None` for any other document.
#[verifier::external_body]
pub(crate) fn decode_records(text: &str) -> (r: Option<Vec<Record>>)
    ensures
        r == json_records(text@),
        r matches Some(v) ==> forall|k: int, i: int, j: int|
            0 <= k < v@.len() && 0 <= i < j < v@[k]@.len() ==> #[trigger] v@[k]@[i].0@
                != #[trigger] v@[k]@[j].0@,
{
    let rows: Vec<BTreeMap<String, Value>> = serde_json::from_str(text).ok()?;
    Some(rows.into_iter().map(|row| row.into_iter().map(|(k, v)| (k, match v {
        Value::Null => Field::Null,
        Value::Bool(b) => Field::Bool(b),
        Value::Number(n) => Field::Number(n.to_string()),
        Value::String(s) => Field::Text(s),
        Value::Array(_) => Field::Composite,
        Value::Object(_) => Field::Composite,
    })).collect()).collect())
}

/// The first field of `rec` named `key`.
pub open spec fn field_lookup(rec: Seq<(String, Field)>, key: Seq<char>) -> Option<Field>
    decreases rec.len(),
{
    if rec.len() == 0 {
        None
    } else if rec[0].0@ == key {
        Some(rec[0].1)
    } else {
        field_lookup(rec.skip(1), key)
    }
}

/// The first field of `rec` named `key`.
pub fn find_field(rec: &Record, key: &String) -> (r: Option<Field>)
    ensures
        r == field_lookup(rec@, key@),
{
    let mut i: usize = 0;
    assert(rec@.skip(0) =~= rec@);
    while i < rec.len()
        invariant
            i <= rec@.len(),
            field_lookup(rec@, key@) == field_lookup(rec@.skip(i as int), key@),
        decreases rec@.len() - i,
    {
        assert(rec@.skip(i as int).skip(1) =~= rec@.skip(i as int + 1));
        if rec[i].0 == *key {
            return Some(rec[i].1.copy());
        }
        i = i + 1;
    }
    None
}

} // verus!
