//! A JSON document tree as the analysis code reads it.
//!
//! Each node carries `text_len`, the length in bytes of the node's compact
//! serialization as serde_json writes it (`Value::to_string().len()`); the
//! code that builds the tree from a parsed request body fills it in.

use vstd::prelude::*;
use crate::text::{str_eq, str_len};

verus! {

/// The kinds of JSON values.
pub enum JsonKind {
    Null,
    Bool(bool),
    /// A number, held by its text as serde_json writes it.
    Number(String),
    Str(String),
    Array(Vec<Json>),
    /// Members in the order in which the document's map yields them.
    Object(Vec<(String, Json)>),
}

/// A JSON value together with the byte length of its compact serialization.
pub struct Json {
    pub kind: JsonKind,
    pub text_len: usize,
}

/// The value of the first member named `key` among `entries`.
pub open spec fn find_member(entries: Seq<(String, Json)>, key: Seq<char>) -> Option<Json>
    decreases entries.len(),
{
    if entries.len() == 0 {
        None
    } else if entries[0].0@ == key {
        Some(entries[0].1)
    } else {
        find_member(entries.drop_first(), key)
    }
}

/// `j.get(key)`: the member `key` of an object, `None` for anything else.
pub open spec fn field(j: Json, key: Seq<char>) -> Option<Json> {
    match j.kind {
        JsonKind::Object(entries) => find_member(entries@, key),
        _ => None,
    }
}

/// The text of a string value.
pub open spec fn as_str(j: Option<Json>) -> Option<Seq<char>> {
    match j {
        Some(v) => match v.kind {
            JsonKind::Str(s) => Some(s@),
            _ => None,
        },
        None => None,
    }
}

/// The items of an array value.
pub open spec fn as_array(j: Option<Json>) -> Option<Seq<Json>> {
    match j {
        Some(v) => match v.kind {
            JsonKind::Array(items) => Some(items@),
            _ => None,
        },
        None => None,
    }
}

/// `j.get(key).and_then(as_str)`.
pub open spec fn field_str(j: Json, key: Seq<char>) -> Option<Seq<char>> {
    as_str(field(j, key))
}

/// `j.get(key).and_then(as_array)`.
pub open spec fn field_array(j: Json, key: Seq<char>) -> Option<Seq<Json>> {
    as_array(field(j, key))
}

/// Sum of `f` over a sequence of values.
pub open spec fn sum_of(s: Seq<Json>, f: spec_fn(Json) -> nat) -> nat
    decreases s.len(),
{
    if s.len() == 0 {
        0
    } else {
        sum_of(s.drop_last(), f) + f(s.last())
    }
}

pub proof fn lemma_sum_of_step(s: Seq<Json>, f: spec_fn(Json) -> nat, i: int)
    requires
        0 <= i < s.len(),
    ensures
        sum_of(s.take(i + 1), f) == sum_of(s.take(i), f) + f(s[i]),
{
    assert(s.take(i + 1).drop_last() =~= s.take(i));
}

pub proof fn lemma_sum_of_prefix(s: Seq<Json>, f: spec_fn(Json) -> nat, i: int)
    requires
        0 <= i <= s.len(),
    ensures
        sum_of(s.take(i), f) <= sum_of(s, f),
    decreases s.len() - i,
{
    if i < s.len() {
        lemma_sum_of_prefix(s, f, i + 1);
        lemma_sum_of_step(s, f, i);
    } else {
        assert(s.take(i) =~= s);
    }
}

pub proof fn lemma_sum_of_all(s: Seq<Json>, f: spec_fn(Json) -> nat)
    ensures
        sum_of(s.take(s.len() as int), f) == sum_of(s, f),
{
    assert(s.take(s.len() as int) =~= s);
}

/// An element's share never exceeds the sum.
pub proof fn lemma_sum_of_elem(s: Seq<Json>, f: spec_fn(Json) -> nat, i: int)
    requires
        0 <= i < s.len(),
    ensures
        f(s[i]) <= sum_of(s, f),
{
    lemma_sum_of_step(s, f, i);
    lemma_sum_of_prefix(s, f, i + 1);
}

/// Adds two counts, `None` on overflow.
pub fn plus(a: usize, b: usize) -> (r: Option<usize>)
    ensures
        r is Some <==> a + b <= usize::MAX,
        r matches Some(v) ==> v == a + b,
{
    a.checked_add(b)
}

/// The member `key` of an object (`Value::get`).
pub fn get_field<'a>(j: &'a Json, key: &str) -> (r: Option<&'a Json>)
    ensures
        r is None <==> field(*j, key@) is None,
        r matches Some(v) ==> field(*j, key@) == Some(*v),
{
    match &j.kind {
        JsonKind::Object(entries) => {
            let mut i: usize = 0;
            assert(entries@.skip(0) =~= entries@);
            while i < entries.len()
                invariant
                    0 <= i <= entries.len(),
                    find_member(entries@, key@) == find_member(entries@.skip(i as int), key@),
                    field(*j, key@) == find_member(entries@, key@),
                decreases entries.len() - i,
            {
                assert(entries@.skip(i as int)[0] == entries@[i as int]);
                if str_eq(entries[i].0.as_str(), key) {
                    return Some(&entries[i].1);
                }
                assert(entries@.skip(i as int).drop_first() =~= entries@.skip(i + 1));
                i = i + 1;
            }
            None
        },
        _ => None,
    }
}

/// The text of a string value.
pub fn get_str<'a>(j: Option<&'a Json>) -> (r: Option<&'a String>)
    ensures
        r is None <==> as_str(match j {
            Some(v) => Some(*v),
            None => None,
        }) is None,
        r matches Some(s) ==> as_str(match j {
            Some(v) => Some(*v),
            None => None,
        }) == Some(s@),
{
    match j {
        Some(v) => match &v.kind {
            JsonKind::Str(s) => Some(s),
            _ => None,
        },
        None => None,
    }
}

/// The items of an array value.
pub fn get_array<'a>(j: Option<&'a Json>) -> (r: Option<&'a Vec<Json>>)
    ensures
        r is None <==> as_array(match j {
            Some(v) => Some(*v),
            None => None,
        }) is None,
        r matches Some(a) ==> as_array(match j {
            Some(v) => Some(*v),
            None => None,
        }) == Some(a@),
{
    match j {
        Some(v) => match &v.kind {
            JsonKind::Array(items) => Some(items),
            _ => None,
        },
        None => None,
    }
}

/// Byte length of the string member `key`, 0 when there is none
/// (`j.get(key).and_then(as_str).map_or(0, str::len)`).
pub open spec fn field_str_len(j: Json, key: Seq<char>) -> nat {
    match field_str(j, key) {
        Some(t) => str_len(t) as nat,
        None => 0,
    }
}

/// Whether the string member `key` equals `expected`.
pub fn field_str_is(j: &Json, key: &str, expected: &str) -> (r: bool)
    ensures
        r == (field_str(*j, key@) == Some(expected@)),
{
    match get_str(get_field(j, key)) {
        Some(s) => str_eq(s.as_str(), expected),
        None => false,
    }
}

} // verus!
