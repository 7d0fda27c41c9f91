//! JSON values as the replies of the dictionary and lyrics services hold them, and
//! the reads that those replies get: a field of an object, an integer, a string, a
//! list.
use vstd::prelude::*;

verus! {

/// A JSON value. Numbers that fit an `i64` are kept; other numbers (fractions,
/// integers beyond `i64`) are only known to be numbers. An object is its list of
/// fields; a read takes the first field with the key (the keys of a parsed object
/// are distinct).
#[derive(Debug)]
pub enum Json {
    Null,
    Bool(bool),
    Int(i64),
    OtherNumber,
    Str(String),
    Array(Vec<Json>),
    Object(Vec<(String, Json)>),
}

/// The value of the first field named `key`.
pub open spec fn lookup(fields: Seq<(String, Json)>, key: Seq<char>) -> Option<Json>
    decreases fields.len(),
{
    if fields.len() == 0 {
        None
    } else if fields[0].0@ == key {
        Some(fields[0].1)
    } else {
        lookup(fields.drop_first(), key)
    }
}

/// `value[key]`: the field of an object, or `Null` where the value is no object or
/// has no such field.
pub open spec fn field(value: Json, key: Seq<char>) -> Json {
    match value {
        Json::Object(fields) => match lookup(fields@, key) {
            Some(v) => v,
            None => Json::Null,
        },
        _ => Json::Null,
    }
}

/// `as_i64`.
pub open spec fn int_of(value: Json) -> Option<i64> {
    match value {
        Json::Int(i) => Some(i),
        _ => None,
    }
}

/// All items of the list are strings.
pub open spec fn all_strings(items: Seq<Json>) -> bool {
    forall|k: int| 0 <= k < items.len() ==> #[trigger] items[k] is Str
}

/// The texts of a list of strings.
pub open spec fn texts(items: Seq<Json>) -> Seq<Seq<char>> {
    items.map_values(|j: Json| if let Json::Str(s) = j { s@ } else { Seq::empty() })
}

/// The value of the first field named `key`.
pub fn find_field<'a>(fields: &'a Vec<(String, Json)>, key: &String) -> (r: Option<&'a Json>)
    ensures
        match r {
            Some(v) => lookup(fields@, key@) == Some(*v),
            None => lookup(fields@, key@) is None,
        },
{
    let mut k: usize = 0;
    assert(fields@.skip(0) == fields@);
    while k < fields.len()
        invariant
            k <= fields@.len(),
            lookup(fields@.skip(k as int), key@) == lookup(fields@, key@),
        decreases fields@.len() - k,
    {
        assert(fields@.skip(k as int).drop_first() == fields@.skip(k + 1));
        assert(fields@.skip(k as int)[0] == fields@[k as int]);
        if fields[k].0 == *key {
            return Some(&fields[k].1);
        }
        k = k + 1;
    }
    None
}

/// `value[key]`, where `None` stands for `Null`.
pub fn field_of<'a>(value: &'a Json, key: &str) -> (r: Option<&'a Json>)
    ensures
        match r {
            Some(v) => field(*value, key@) == *v,
            None => field(*value, key@) == Json::Null,
        },
{
    match value {
        Json::Object(fields) => find_field(fields, &key.to_owned()),
        _ => None,
    }
}

/// `value[key].as_i64()`.
pub fn int_field(value: &Json, key: &str) -> (r: Option<i64>)
    ensures
        r == int_of(field(*value, key@)),
{
    match field_of(value, key) {
        Some(Json::Int(i)) => Some(*i),
        _ => None,
    }
}

/// The texts of a list whose items are all strings.
pub fn strings_of(items: &Vec<Json>) -> (r: Vec<String>)
    requires
        all_strings(items@),
    ensures
        r@.len() == items@.len(),
        forall|k: int| 0 <= k < items@.len() ==> #[trigger] r@[k]@ == texts(items@)[k],
{
    let mut r: Vec<String> = Vec::new();
    for k in 0..items.len()
        invariant
            all_strings(items@),
            r@.len() == k,
            forall|j: int| 0 <= j < k ==> #[trigger] r@[j]@ == texts(items@)[j],
    {
        assert(items@[k as int] is Str);
        match &items[k] {
            Json::Str(s) => r.push(s.clone()),
            _ => {},
        }
    }
    r
}


/// Whether every item of the list is a string.
pub fn are_strings(items: &Vec<Json>) -> (r: bool)
    ensures
        r == all_strings(items@),
{
    for k in 0..items.len()
        invariant
            forall|j: int| 0 <= j < k ==> #[trigger] items@[j] is Str,
    {
        match &items[k] {
            Json::Str(_) => {},
            _ => {
                assert(!(items@[k as int] is Str));
                return false;
            },
        }
    }
    true
}

} // verus!
