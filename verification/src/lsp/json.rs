//! What a language server sends, as much of it as the library reads.
//!
//! Messages arrive as JSON and are parsed by the caller; the library holds
//! the parsed value and reads it through the accessors here.

use crate::text::same_text;
use vstd::prelude::*;

verus! {

/// A JSON number: the unsigned integer it is, if it is one, and how it is
/// written.
#[derive(Debug)]
pub struct JsonNumber {
    pub unsigned: Option<u64>,
    pub text: String,
}

/// A parsed JSON value.
#[derive(Debug)]
pub enum Json {
    Null,
    Bool(bool),
    Number(JsonNumber),
    Str(String),
    Array(Vec<Json>),
    Object(Vec<(String, Json)>),
}

/// The member under `key` of an object's members, the first if several.
pub open spec fn member(members: Seq<(String, Json)>, key: Seq<char>) -> Option<Json>
    decreases members.len(),
{
    if members.len() == 0 {
        None
    } else if members[0].0@ == key {
        Some(members[0].1)
    } else {
        member(members.drop_first(), key)
    }
}

/// The member under `key`, if the value is an object that has one.
pub open spec fn field(v: Json, key: Seq<char>) -> Option<Json> {
    match v {
        Json::Object(members) => member(members@, key),
        _ => None,
    }
}

/// The string a value is, if it is one.
pub open spec fn text_of(v: Option<Json>) -> Option<Seq<char>> {
    match v {
        Some(Json::Str(s)) => Some(s@),
        _ => None,
    }
}

/// The unsigned integer a value is, if it is one.
pub open spec fn unsigned_of(v: Option<Json>) -> Option<u64> {
    match v {
        Some(Json::Number(n)) => n.unsigned,
        _ => None,
    }
}

/// The member under `key`, if the value is an object that has one.
pub fn get<'a>(v: &'a Json, key: &str) -> (r: Option<&'a Json>)
    ensures
        match r {
            Some(x) => field(*v, key@) == Some(*x),
            None => field(*v, key@) is None,
        },
{
    let members = match v {
        Json::Object(members) => members,
        _ => return None,
    };
    let mut i: usize = 0;
    assert(members@.skip(0) =~= members@);
    while i < members.len()
        invariant
            i <= members@.len(),
            field(*v, key@) == member(members@, key@),
            member(members@, key@) == member(members@.skip(i as int), key@),
        decreases members@.len() - i,
    {
        assert(members@.skip(i as int).drop_first() =~= members@.skip(i as int + 1));
        if same_text(members[i].0.as_str(), key) {
            return Some(&members[i].1);
        }
        i = i + 1;
    }
    None
}

/// The string a value is, if it is one.
pub fn as_str(v: Option<&Json>) -> (s: Option<&str>)
    ensures
        match s {
            Some(t) => v is Some && text_of(Some(*v.unwrap())) == Some(t@),
            None => v is None || text_of(Some(*v.unwrap())) is None,
        },
{
    match v {
        Some(Json::Str(s)) => Some(s.as_str()),
        _ => None,
    }
}

/// The unsigned integer a value is, if it is one.
pub fn as_u64(v: Option<&Json>) -> (n: Option<u64>)
    ensures
        n == (match v {
            Some(x) => unsigned_of(Some(*x)),
            None => None,
        }),
{
    match v {
        Some(Json::Number(n)) => n.unsigned,
        _ => None,
    }
}

} // verus!
