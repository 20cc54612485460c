//! The mathematical model of a JSON document.
//!
//! [`Json`] is the ghost counterpart of [`crate::value::JsonValue`]. An object is a
//! sequence of members in document order. Every contract in this crate speaks
//! of documents through this model.

use vstd::prelude::*;

use crate::number;

verus! {

/// The characters of a string.
pub type Text = Seq<char>;

/// The members of an object, in document order.
pub type Members = Seq<(Text, Json)>;

/// A JSON number.
///
/// A floating point number is given by its IEEE 754 binary64 bit pattern.
pub enum Num {
    PosInt(u64),
    NegInt(i64),
    Float(u64),
}

/// A JSON document.
#[verifier::ext_equal]
pub enum Json {
    Null,
    Bool(bool),
    Number(Num),
    String(Text),
    Array(Seq<Json>),
    Object(Members),
}

// --- members ---------------------------------------------------------------

/// The position of the first member named `key` at or after `i`, or the number
/// of members when there is none.
pub open spec fn index_from(m: Members, key: Text, i: int) -> int
    decreases m.len() - i,
{
    if i >= m.len() {
        m.len() as int
    } else if m[i].0 == key {
        i
    } else {
        index_from(m, key, i + 1)
    }
}

/// The position of the member named `key`, or the number of members.
pub open spec fn index_of(m: Members, key: Text) -> int {
    index_from(m, key, 0)
}

/// Whether a member named `key` exists.
pub open spec fn has_key(m: Members, key: Text) -> bool {
    index_of(m, key) < m.len()
}

/// The value of the member named `key`.
pub open spec fn lookup(m: Members, key: Text) -> Option<Json> {
    if has_key(m, key) {
        Some(m[index_of(m, key)].1)
    } else {
        None
    }
}

/// Set the member named `key`: in place when it exists, else at the end.
pub open spec fn insert(m: Members, key: Text, v: Json) -> Members {
    if has_key(m, key) {
        m.update(index_of(m, key), (key, v))
    } else {
        m.push((key, v))
    }
}

/// Drop the member named `key`. The last member takes its place.
pub open spec fn remove(m: Members, key: Text) -> Members {
    if has_key(m, key) {
        m.update(index_of(m, key), m.last()).drop_last()
    } else {
        m
    }
}

/// Set the member named `key` unless it exists.
pub open spec fn insert_new(m: Members, key: Text, v: Json) -> Members {
    if has_key(m, key) {
        m
    } else {
        m.push((key, v))
    }
}

/// The member names, in document order.
pub open spec fn keys(m: Members) -> Seq<Text> {
    Seq::new(m.len(), |i: int| m[i].0)
}

/// No two members share a name.
pub open spec fn distinct(m: Members) -> bool {
    forall|i: int, j: int| 0 <= i < j < m.len() ==> (#[trigger] m[i]).0 != (#[trigger] m[j]).0
}

/// Set every member of `extra` from position `i` on, in order.
pub open spec fn insert_all(m: Members, extra: Members, i: int) -> Members
    decreases extra.len() - i,
{
    if i >= extra.len() {
        m
    } else {
        insert_all(insert(m, extra[i].0, extra[i].1), extra, i + 1)
    }
}

// --- documents -------------------------------------------------------------

impl Json {
    /// The empty object.
    pub open spec fn empty() -> Json {
        Json::Object(Seq::empty())
    }

    /// The object with the single member `key: v`.
    pub open spec fn single(key: Text, v: Json) -> Json {
        Json::Object(seq![(key, v)])
    }

    /// The members of an object. Any other value counts as the empty object.
    pub open spec fn members(self) -> Members {
        match self {
            Json::Object(m) => m,
            _ => Seq::empty(),
        }
    }

    /// The elements of an array. Any other value counts as the empty array.
    pub open spec fn elements(self) -> Seq<Json> {
        match self {
            Json::Array(a) => a,
            _ => Seq::empty(),
        }
    }

    /// The member named `key`. Only an object has members.
    pub open spec fn member(self, key: Text) -> Option<Json> {
        lookup(self.members(), key)
    }

    /// Whether the member named `key` exists.
    pub open spec fn has(self, key: Text) -> bool {
        self.member(key) is Some
    }

    /// The member `a.b`.
    pub open spec fn member2(self, a: Text, b: Text) -> Option<Json> {
        member_of(self.member(a), b)
    }

    /// The text of a string value.
    pub open spec fn text(self) -> Option<Text> {
        match self {
            Json::String(s) => Some(s),
            _ => None,
        }
    }

    /// The text of the string member named `key`.
    pub open spec fn text_member(self, key: Text) -> Option<Text> {
        text_of(self.member(key))
    }

    /// Whether the member named `key` is the string `s`.
    pub open spec fn says(self, key: Text, s: Text) -> bool {
        self.text_member(key) == Some(s)
    }

    /// Set the member named `key`. A value that is no object becomes one first.
    pub open spec fn with(self, key: Text, v: Json) -> Json {
        Json::Object(insert(self.members(), key, v))
    }

    /// Drop the member named `key`. A value that is no object becomes one first.
    pub open spec fn without(self, key: Text) -> Json {
        Json::Object(remove(self.members(), key))
    }

    /// Set the member named `key` unless it exists. A value that is no object
    /// becomes one first.
    pub open spec fn with_new(self, key: Text, v: Json) -> Json {
        Json::Object(insert_new(self.members(), key, v))
    }

    /// Drop the member named `key` of an object. Any other value stays.
    pub open spec fn dropped(self, key: Text) -> Json {
        match self {
            Json::Object(m) => Json::Object(remove(m, key)),
            _ => self,
        }
    }
}

/// The member of an optional value.
pub open spec fn member_of(j: Option<Json>, key: Text) -> Option<Json> {
    match j {
        Some(v) => v.member(key),
        None => None,
    }
}

/// The text of an optional string value.
pub open spec fn text_of(j: Option<Json>) -> Option<Text> {
    match j {
        Some(v) => v.text(),
        None => None,
    }
}

/// An optional value, or `d`.
pub open spec fn value_or(j: Option<Json>, d: Json) -> Json {
    match j {
        Some(v) => v,
        None => d,
    }
}

// --- paths -----------------------------------------------------------------

/// The value under the member names from position `i` on.
pub open spec fn value_at(j: Json, names: Seq<Text>, i: nat) -> Option<Json>
    decreases names.len() - i,
{
    if i >= names.len() {
        Some(j)
    } else {
        match j.member(names[i as int]) {
            Some(v) => value_at(v, names, i + 1),
            None => None,
        }
    }
}

/// `j` with another value under the member names from position `i` on.
pub open spec fn with_at(j: Json, names: Seq<Text>, i: nat, v: Json) -> Json
    decreases names.len() - i,
{
    if i >= names.len() {
        v
    } else {
        let name = names[i as int];
        j.with(name, with_at(j.member(name)->0, names, i + 1, v))
    }
}

// --- equality --------------------------------------------------------------

/// Whether two documents are equal. The order of members does not count.
pub open spec fn same(a: Json, b: Json) -> bool
    decreases a, 0nat,
{
    match (a, b) {
        (Json::Null, Json::Null) => true,
        (Json::Bool(x), Json::Bool(y)) => x == y,
        (Json::Number(x), Json::Number(y)) => number::same_number(x, y),
        (Json::String(x), Json::String(y)) => x == y,
        (Json::Array(x), Json::Array(y)) => x.len() == y.len() && same_elements(x, y, 0),
        (Json::Object(x), Json::Object(y)) => x.len() == y.len() && same_members(x, y, 0),
        _ => false,
    }
}

/// Whether the elements from position `i` on are equal.
pub open spec fn same_elements(x: Seq<Json>, y: Seq<Json>, i: nat) -> bool
    decreases x, x.len() - i,
{
    i >= x.len() || (same(x[i as int], y[i as int]) && same_elements(x, y, i + 1))
}

/// Whether `y` has an equal member for each member of `x` from position `i` on.
pub open spec fn same_members(x: Members, y: Members, i: nat) -> bool
    decreases x, x.len() - i,
{
    i >= x.len() || (match lookup(y, x[i as int].0) {
        Some(v) => same(x[i as int].1, v),
        None => false,
    } && same_members(x, y, i + 1))
}

// --- height ----------------------------------------------------------------

/// The greater of two numbers.
pub open spec fn max(a: nat, b: nat) -> nat {
    if a >= b {
        a
    } else {
        b
    }
}

/// The number of levels of a document.
pub open spec fn height(j: Json) -> nat
    decreases j, 0nat,
{
    match j {
        Json::Array(a) => 1 + elements_height(a, 0),
        Json::Object(m) => 1 + members_height(m, 0),
        _ => 1,
    }
}

/// The height of the highest element from position `i` on.
pub open spec fn elements_height(a: Seq<Json>, i: nat) -> nat
    decreases a, a.len() - i,
{
    if i >= a.len() {
        0
    } else {
        max(height(a[i as int]), elements_height(a, i + 1))
    }
}

/// The height of the highest member from position `i` on.
pub open spec fn members_height(m: Members, i: nat) -> nat
    decreases m, m.len() - i,
{
    if i >= m.len() {
        0
    } else {
        max(height(m[i as int].1), members_height(m, i + 1))
    }
}

/// The texts of a sequence of strings.
pub open spec fn texts(v: Seq<String>) -> Seq<Text> {
    Seq::new(v.len(), |i: int| v[i]@)
}

} // verus!
