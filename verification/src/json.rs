//! Reading JSON values, as `serde_json` parses them.
use vstd::prelude::*;

use crate::coord::Coord;
use crate::coord::Point;
use crate::coord::ZERO;

verus! {

/// A parsed JSON value.
#[verifier::external_type_specification]
#[verifier::external_body]
pub struct ExValue(serde_json::Value);

/// What was wrong with a JSON text.
#[verifier::external_type_specification]
#[verifier::external_body]
pub struct ExError(serde_json::Error);

/// What a JSON value holds.
pub enum Json {
    Null,
    Bool(bool),
    /// A number: the integer that it is written as, where that is one from 0 to 2^64 - 1, and the
    /// bit pattern of the double that it is read as.
    Number(Option<u64>, u64),
    Text(Seq<char>),
    List(Seq<Json>),
    Object(Map<Seq<char>, Json>),
}

/// What a `serde_json::Value` holds.
pub uninterp spec fn json_of(v: serde_json::Value) -> Json;

/// The JSON value that a text of bytes writes, by `serde_json::from_slice`.
pub uninterp spec fn json_text(data: Seq<u8>) -> Option<Json>;

/// `serde_json::from_slice` parses a whole text, or says what is wrong with it.
#[verifier::external_body]
fn from_slice(data: &[u8]) -> (r: Result<serde_json::Value, serde_json::Error>)
    ensures
        r is Ok == json_text(data@) is Some,
        r matches Ok(v) ==> json_text(data@) == Some(json_of(v)),
{
    serde_json::from_slice::<serde_json::Value>(data)
}

/// `serde_json::Value::get` with a string gives the member of an object under that name, and
/// nothing for another value or a name that is not there.
#[verifier::external_body]
pub(crate) fn get_member<'a>(v: &'a serde_json::Value, key: &str) -> (r: Option<&'a serde_json::Value>)
    ensures
        match json_of(*v) {
            Json::Object(m) => {
                &&& r is Some == m.dom().contains(key@)
                &&& r matches Some(x) ==> json_of(*x) == m[key@]
            },
            _ => r is None,
        },
{
    v.get(key)
}

/// `serde_json::Value::get` with a number gives the element of an array at that place, and nothing
/// for another value or a place beyond its end.
#[verifier::external_body]
fn get_element<'a>(v: &'a serde_json::Value, i: usize) -> (r: Option<&'a serde_json::Value>)
    ensures
        match json_of(*v) {
            Json::List(s) => {
                &&& r is Some == (i < s.len())
                &&& r matches Some(x) ==> json_of(*x) == s[i as int]
            },
            _ => r is None,
        },
{
    v.get(i)
}

/// `serde_json::Value::as_bool` gives the value of a boolean, and nothing for another value.
pub assume_specification[ serde_json::Value::as_bool ](v: &serde_json::Value) -> (r: Option<bool>)
    ensures
        r == bool_of(json_of(*v)),
;

/// `serde_json::Value::as_u64` gives the integer that a number is written as, where that is one from
/// 0 to 2^64 - 1, and nothing for another value.
pub assume_specification[ serde_json::Value::as_u64 ](v: &serde_json::Value) -> (r: Option<u64>)
    ensures
        r == u64_of(json_of(*v)),
;

/// `serde_json::Value::as_f64` gives the double that a number is read as, here by its bit pattern,
/// and nothing for another value.
#[verifier::external_body]
fn as_double(v: &serde_json::Value) -> (r: Option<u64>)
    ensures
        r == double_of(json_of(*v)),
{
    v.as_f64().map(|n| n.to_bits())
}

/// `serde_json::Value::as_str` gives the text of a string, and nothing for another value.
pub assume_specification[ serde_json::Value::as_str ](v: &serde_json::Value) -> (r: Option<&str>)
    ensures
        match json_of(*v) {
            Json::Text(s) => r matches Some(t) && t@ == s,
            _ => r is None,
        },
;

/// `serde_json::Value::is_null` tells the null value from the others.
pub assume_specification[ serde_json::Value::is_null ](v: &serde_json::Value) -> (r: bool)
    ensures
        r == (json_of(*v) is Null),
;

/// `serde_json::Value::is_object` tells objects from the others.
pub assume_specification[ serde_json::Value::is_object ](v: &serde_json::Value) -> (r: bool)
    ensures
        r == (json_of(*v) is Object),
;

/// `serde_json::Value::as_array` gives the elements of an array in their order, and nothing for
/// another value.
pub assume_specification[ serde_json::Value::as_array ](v: &serde_json::Value) -> (r: Option<
    &Vec<serde_json::Value>,
>)
    ensures
        match json_of(*v) {
            Json::List(s) => {
                &&& r matches Some(items)
                &&& items@.len() == s.len()
                &&& forall|i: int| 0 <= i < s.len() ==> json_of(#[trigger] items@[i]) == s[i]
            },
            _ => r is None,
        },
;

/// The value of a boolean.
pub open spec fn bool_of(j: Json) -> Option<bool> {
    match j {
        Json::Bool(b) => Some(b),
        _ => None,
    }
}

/// The integer that a number is written as.
pub open spec fn u64_of(j: Json) -> Option<u64> {
    match j {
        Json::Number(n, _) => n,
        _ => None,
    }
}

/// The double that a number is read as, by its bit pattern.
pub open spec fn double_of(j: Json) -> Option<u64> {
    match j {
        Json::Number(_, bits) => Some(bits),
        _ => None,
    }
}

/// The text of a string.
pub open spec fn text_of_json(j: Json) -> Option<Seq<char>> {
    match j {
        Json::Text(s) => Some(s),
        _ => None,
    }
}

/// The member of an object, null where there is none.
pub open spec fn member_of(j: Json, key: Seq<char>) -> Json {
    match j {
        Json::Object(m) => if m.dom().contains(key) {
            m[key]
        } else {
            Json::Null
        },
        _ => Json::Null,
    }
}

/// The element of an array, null where there is none.
pub open spec fn element_of(j: Json, i: int) -> Json {
    match j {
        Json::List(s) => if 0 <= i < s.len() {
            s[i]
        } else {
            Json::Null
        },
        _ => Json::Null,
    }
}

/// A number as a coordinate, zero where there is no number.
pub open spec fn coord_of(j: Json) -> Coord {
    match double_of(j) {
        Some(bits) => Coord { bits },
        None => Coord { bits: ZERO },
    }
}

/// The first two elements of an array as a point.
pub open spec fn point_of(j: Json) -> Point {
    Point { x: coord_of(element_of(j, 0)), y: coord_of(element_of(j, 1)) }
}

/// A place in a JSON value that may be missing, and then counts as null.
#[derive(Clone, Copy)]
pub struct Cursor<'a> {
    at: Option<&'a serde_json::Value>,
}

impl<'a> Cursor<'a> {
    /// What stands at the place.
    pub closed spec fn view(&self) -> Json {
        match self.at {
            Some(v) => json_of(*v),
            None => Json::Null,
        }
    }

    /// The whole of a value.
    pub fn new(v: &'a serde_json::Value) -> (r: Cursor<'a>)
        ensures
            r@ == json_of(*v),
    {
        Cursor { at: Some(v) }
    }

    /// Goes to the member of an object.
    pub fn member(self, key: &str) -> (r: Cursor<'a>)
        ensures
            r@ == member_of(self@, key@),
    {
        match self.at {
            Some(v) => Cursor { at: get_member(v, key) },
            None => Cursor { at: None },
        }
    }

    /// Goes to the element of an array.
    pub fn element(self, i: usize) -> (r: Cursor<'a>)
        ensures
            r@ == element_of(self@, i as int),
    {
        match self.at {
            Some(v) => Cursor { at: get_element(v, i) },
            None => Cursor { at: None },
        }
    }

    /// Reads a boolean, false where there is none.
    pub fn flag(self) -> (r: bool)
        ensures
            r == (bool_of(self@) == Some(true)),
    {
        match self.at {
            Some(v) => match v.as_bool() {
                Some(b) => b,
                None => false,
            },
            None => false,
        }
    }

    /// Reads an integer.
    pub fn integer(self) -> (r: Option<u64>)
        ensures
            r == u64_of(self@),
    {
        match self.at {
            Some(v) => v.as_u64(),
            None => None,
        }
    }

    /// Reads a coordinate, zero where there is none.
    pub fn coord(self) -> (r: Coord)
        ensures
            r == coord_of(self@),
    {
        match self.at {
            Some(v) => match as_double(v) {
                Some(bits) => Coord { bits },
                None => Coord { bits: ZERO },
            },
            None => Coord { bits: ZERO },
        }
    }

    /// Reads the two coordinates of a point.
    pub fn point(self) -> (r: Point)
        ensures
            r == point_of(self@),
    {
        Point { x: self.element(0).coord(), y: self.element(1).coord() }
    }

    /// Reads a text.
    pub fn text(self) -> (r: Option<String>)
        ensures
            match text_of_json(self@) {
                Some(s) => r matches Some(t) && t@ == s,
                None => r is None,
            },
    {
        match self.at {
            Some(v) => match v.as_str() {
                Some(s) => Some(s.to_owned()),
                None => None,
            },
            None => None,
        }
    }

    /// Tests for null.
    pub fn is_null(self) -> (r: bool)
        ensures
            r == (self@ is Null),
    {
        match self.at {
            Some(v) => v.is_null(),
            None => true,
        }
    }
}

/// Parses a JSON text.
pub fn parse(data: &[u8]) -> (r: Option<serde_json::Value>)
    ensures
        match json_text(data@) {
            Some(j) => r matches Some(v) && json_of(v) == j,
            None => r is None,
        },
{
    match from_slice(data) {
        Ok(v) => Some(v),
        Err(_) => None,
    }
}

/// Each kind of value is read as itself: a boolean as a boolean, a number as its integer and its
/// double, a string as its text. What it is not, it is not read as.
pub proof fn values_are_read_as_they_are(
    j: Json,
    b: bool,
    n: Option<u64>,
    bits: u64,
    s: Seq<char>,
)
    ensures
        bool_of(j) == Some(b) <==> j == Json::Bool(b),
        u64_of(Json::Number(n, bits)) == n,
        double_of(Json::Number(n, bits)) == Some(bits),
        coord_of(Json::Number(n, bits)) == (Coord { bits }),
        text_of_json(j) == Some(s) <==> j == Json::Text(s),
        j !is Number ==> u64_of(j) is None && double_of(j) is None && coord_of(j) == (Coord {
            bits: 0,
        }),
{
}

/// A member of an object is found under its own name, whatever the other members are, and an element
/// of an array at its own place. What is not there is null.
pub proof fn parts_are_found_where_they_are(
    m: Map<Seq<char>, Json>,
    s: Seq<Json>,
    key: Seq<char>,
    other: Seq<char>,
    i: int,
    v: Json,
)
    ensures
        member_of(Json::Object(m.insert(key, v)), key) == v,
        other != key ==> member_of(Json::Object(m.insert(key, v)), other) == member_of(
            Json::Object(m),
            other,
        ),
        member_of(Json::Object(m.remove(key)), key) is Null,
        member_of(Json::List(s), key) is Null,
        element_of(Json::List(s.push(v)), s.len() as int) == v,
        0 <= i < s.len() ==> element_of(Json::List(s), i) == s[i] && element_of(
            Json::List(s.push(v)),
            i,
        ) == s[i],
        i < 0 || i >= s.len() ==> element_of(Json::List(s), i) is Null,
        element_of(Json::Object(m), i) is Null,
{
}

/// The numbers at the front of an array are the coordinates of a point: the first is `x`, the second
/// `y`.
pub proof fn points_are_pairs(s: Seq<Json>, n: Option<u64>, x: u64, m: Option<u64>, y: u64)
    requires
        s.len() >= 2,
        s[0] == Json::Number(n, x),
        s[1] == Json::Number(m, y),
    ensures
        point_of(Json::List(s)).x.bits == x,
        point_of(Json::List(s)).y.bits == y,
{
}

} // verus!
