//! A JSON value as the Game State Integration readers look at it.

use vstd::prelude::*;

verus! {

/// A JSON value. Numbers that `i64` holds are kept; other numbers (floats,
/// integers beyond `i64`) and the elements of arrays are not looked at by
/// the readers, so only their kind is kept.
#[derive(Debug)]
pub enum JsonValue {
    Null,
    Bool(bool),
    Int(i64),
    Number,
    Str(String),
    Array,
    Object(Vec<JsonEntry>),
}

/// One member of a JSON object, in the order the object lists them.
#[derive(Debug)]
pub struct JsonEntry {
    pub key: String,
    pub value: JsonValue,
}

/// The boolean a value holds, if it is one.
pub open spec fn as_bool_spec(v: JsonValue) -> Option<bool> {
    match v {
        JsonValue::Bool(b) => Some(b),
        _ => None,
    }
}

/// The integer a value holds, if it is a number that `i64` holds.
pub open spec fn as_i64_spec(v: JsonValue) -> Option<i64> {
    match v {
        JsonValue::Int(n) => Some(n),
        _ => None,
    }
}

/// The text a value holds, if it is a string.
pub open spec fn as_str_spec(v: JsonValue) -> Option<Seq<char>> {
    match v {
        JsonValue::Str(s) => Some(s@),
        _ => None,
    }
}

/// The members of a value, if it is an object.
pub open spec fn as_object_spec(v: JsonValue) -> Option<Seq<JsonEntry>> {
    match v {
        JsonValue::Object(entries) => Some(entries@),
        _ => None,
    }
}

/// The value of the member named `key`; when several members share the
/// name, the last one counts.
pub open spec fn lookup(entries: Seq<JsonEntry>, key: Seq<char>) -> Option<JsonValue>
    decreases entries.len(),
{
    if entries.len() == 0 {
        None
    } else if entries.last().key@ == key {
        Some(entries.last().value)
    } else {
        lookup(entries.drop_last(), key)
    }
}

impl JsonValue {
    /// The boolean this value holds, if it is one.
    pub fn as_bool(&self) -> (r: Option<bool>)
        ensures
            r == as_bool_spec(*self),
    {
        match self {
            JsonValue::Bool(b) => Some(*b),
            _ => None,
        }
    }

    /// The integer this value holds, if it is a number that `i64` holds.
    pub fn as_i64(&self) -> (r: Option<i64>)
        ensures
            r == as_i64_spec(*self),
    {
        match self {
            JsonValue::Int(n) => Some(*n),
            _ => None,
        }
    }

    /// The text this value holds, if it is a string.
    pub fn as_str(&self) -> (r: Option<&str>)
        ensures
            match r {
                Some(s) => as_str_spec(*self) == Some(s@),
                None => as_str_spec(*self) is None,
            },
    {
        match self {
            JsonValue::Str(s) => Some(s.as_str()),
            _ => None,
        }
    }

    /// Whether this value is an object.
    pub fn is_object(&self) -> (r: bool)
        ensures
            r == (as_object_spec(*self) is Some),
    {
        match self {
            JsonValue::Object(_) => true,
            _ => false,
        }
    }
}

/// The value of the member named `key` (the last one when the name repeats).
pub fn get<'a>(entries: &'a Vec<JsonEntry>, key: &str) -> (r: Option<&'a JsonValue>)
    ensures
        match r {
            Some(v) => lookup(entries@, key@) == Some(*v),
            None => lookup(entries@, key@) is None,
        },
{
    let wanted = String::from_str(key);
    let mut k = entries.len();
    assert(entries@.take(k as int) =~= entries@);
    loop
        invariant
            k <= entries@.len(),
            wanted@ == key@,
            lookup(entries@, key@) == lookup(entries@.take(k as int), key@),
        decreases k,
    {
        if k == 0 {
            return None;
        }
        let ghost cur = entries@.take(k as int);
        assert(cur.last() == entries@[k - 1]);
        if entries[k - 1].key == wanted {
            return Some(&entries[k - 1].value);
        }
        assert(cur.drop_last() =~= entries@.take(k - 1));
        k = k - 1;
    }
}

} // verus!
