//! JSON values.
//!
//! [`JsonValue`] is a JSON document and [`Object`] an insertion-ordered set of
//! members. Their models are [`Json`] and [`Members`].

use vstd::prelude::*;

use crate::json::{self, Json, Members, Text};
use crate::laws;
use crate::number::JsonNumber;

verus! {

/// `==` of `str` compares the characters.
pub assume_specification[ <str as PartialEq>::eq ](a: &str, b: &str) -> (r: bool)
    ensures
        r == (a@ == b@),
;

/// A JSON value.
#[derive(Debug)]
pub enum JsonValue {
    Null,
    Bool(bool),
    Number(JsonNumber),
    String(String),
    Array(Vec<JsonValue>),
    Object(Object),
}

/// The members of a JSON object, in insertion order. No two share a name.
#[derive(Debug)]
pub struct Object {
    names: Vec<String>,
    values: Vec<JsonValue>,
}

impl View for JsonValue {
    type V = Json;

    open spec fn view(&self) -> Json
        decreases self,
    {
        match *self {
            JsonValue::Null => Json::Null,
            JsonValue::Bool(b) => Json::Bool(b),
            JsonValue::Number(n) => Json::Number(n@),
            JsonValue::String(s) => Json::String(s@),
            JsonValue::Array(a) => Json::Array(
                Seq::new(
                    a@.len(),
                    |i: int|
                        if 0 <= i < a@.len() {
                            a@[i].view()
                        } else {
                            Json::Null
                        },
                ),
            ),
            JsonValue::Object(m) => Json::Object(m.view()),
        }
    }
}

impl View for Object {
    type V = Members;

    closed spec fn view(&self) -> Members
        decreases self,
    {
        Seq::new(
            self.names@.len(),
            |i: int|
                if 0 <= i < self.values@.len() {
                    (self.names@[i]@, self.values@[i].view())
                } else {
                    (self.names@[i]@, Json::Null)
                },
        )
    }
}

/// The documents of a sequence of values.
pub open spec fn views(a: Seq<JsonValue>) -> Seq<Json> {
    Seq::new(a.len(), |i: int| a[i]@)
}

/// The document of an optional value.
pub open spec fn opt(v: Option<&JsonValue>) -> Option<Json> {
    match v {
        Some(v) => Some(v@),
        None => None,
    }
}

/// The text of an optional string.
pub open spec fn opt_text(s: Option<&str>) -> Option<Text> {
    match s {
        Some(s) => Some(s@),
        None => None,
    }
}

/// The view of an array lists the views of its elements.
pub broadcast proof fn array_view(a: Vec<JsonValue>)
    ensures
        #[trigger] JsonValue::Array(a)@ == Json::Array(views(a@)),
{
    reveal_with_fuel(<JsonValue as View>::view, 2);
    let s = JsonValue::Array(a)@->Array_0;
    assert(s.len() == a@.len());
    assert forall|i: int| 0 <= i < a@.len() implies s[i] == views(a@)[i] by {
        assert(s[i] == a@[i].view());
    }
    assert(s =~= views(a@));
}

/// Whether `v` is the value of a member of `m`.
pub closed spec fn is_member(m: Object, v: JsonValue) -> bool {
    exists|i: int| 0 <= i < m.values@.len() && #[trigger] m.values@[i] == v
}

/// A member is a part of its object.
pub proof fn member_decreases(m: Object, v: JsonValue)
    requires
        is_member(m, v),
    ensures
        decreases_to!(JsonValue::Object(m) => v),
{
    let i = choose|i: int| 0 <= i < m.values@.len() && #[trigger] m.values@[i] == v;
    let whole = JsonValue::Object(m);
    assert(decreases_to!(whole => whole->Object_0.values@[i]));
}

// --- objects ---------------------------------------------------------------

impl Object {
    /// Every name has a value, and no two members share a name.
    #[verifier::type_invariant]
    spec fn well_formed(&self) -> bool {
        &&& self.names@.len() == self.values@.len()
        &&& forall|i: int, j: int|
            0 <= i < j < self.names@.len() ==> (#[trigger] self.names@[i])@ != (
            #[trigger] self.names@[j])@
    }

    /// The object without members.
    pub fn new() -> (r: Object)
        ensures
            r@ == Members::empty(),
    {
        let r = Object { names: Vec::new(), values: Vec::new() };
        assert(r@ =~= Members::empty());
        r
    }

    /// The number of members.
    pub fn len(&self) -> (n: usize)
        ensures
            n == self@.len(),
            json::distinct(self@),
    {
        proof {
            use_type_invariant(self);
            assert forall|i: int, j: int| 0 <= i < j < self@.len() implies (
            #[trigger] self@[i]).0 != (#[trigger] self@[j]).0 by {
                assert(self.names@[i]@ != self.names@[j]@);
            }
        }
        self.names.len()
    }

    /// Whether there are no members.
    pub fn is_empty(&self) -> (b: bool)
        ensures
            b == (self@.len() == 0),
    {
        self.names.len() == 0
    }

    /// The name of the member at `i`.
    pub fn key_at(&self, i: usize) -> (k: &String)
        requires
            i < self@.len(),
        ensures
            k@ == self@[i as int].0,
    {
        &self.names[i]
    }

    /// The value of the member at `i`.
    pub fn value_at(&self, i: usize) -> (v: &JsonValue)
        requires
            i < self@.len(),
        ensures
            v@ == self@[i as int].1,
            is_member(*self, *v),
    {
        proof {
            use_type_invariant(self);
        }
        &self.values[i]
    }

    /// The value of the member at `i`, to be changed in place.
    pub fn value_at_mut(&mut self, i: usize) -> (v: &mut JsonValue)
        requires
            i < old(self)@.len(),
        ensures
            v@ == old(self)@[i as int].1,
            final(self)@ == old(self)@.update(i as int, (old(self)@[i as int].0, final(v)@)),
    {
        proof {
            use_type_invariant(&*self);
        }
        &mut self.values[i]
    }

    /// The position of the member named `key`, or the number of members.
    fn position(&self, key: &str) -> (r: usize)
        ensures
            r == json::index_of(self@, key@),
            r <= self.names@.len(),
            r < self.names@.len() ==> self.names@[r as int]@ == key@,
            r == self.names@.len() ==> forall|i: int|
                0 <= i < self.names@.len() ==> (#[trigger] self.names@[i])@ != key@,
    {
        let mut i: usize = 0;
        while i < self.names.len()
            invariant
                i <= self.names@.len(),
                json::index_of(self@, key@) == json::index_from(self@, key@, i as int),
                forall|j: int| 0 <= j < i ==> (#[trigger] self.names@[j])@ != key@,
            decreases self.names@.len() - i,
        {
            if *self.names[i].as_str() == *key {
                return i;
            }
            i += 1;
        }
        i
    }

    /// Whether a member named `key` exists.
    pub fn contains_key(&self, key: &str) -> (b: bool)
        ensures
            b == json::has_key(self@, key@),
    {
        self.position(key) < self.names.len()
    }

    /// The member named `key`.
    pub fn get(&self, key: &str) -> (r: Option<&JsonValue>)
        ensures
            opt(r) == json::lookup(self@, key@),
    {
        proof {
            use_type_invariant(self);
        }
        let i: usize = self.position(key);
        if i < self.names.len() {
            Some(&self.values[i])
        } else {
            None
        }
    }

    /// The member named `key`, to be changed in place.
    pub fn get_mut(&mut self, key: &str) -> (r: Option<&mut JsonValue>)
        ensures
            match r {
                Some(v) => {
                    &&& json::lookup(old(self)@, key@) == Some(v@)
                    &&& final(self)@ == json::insert(old(self)@, key@, final(v)@)
                },
                None => json::lookup(old(self)@, key@) is None && final(self)@ == old(self)@,
            },
    {
        proof {
            use_type_invariant(&*self);
        }
        let i: usize = self.position(key);
        if i < self.names.len() {
            Some(&mut self.values[i])
        } else {
            None
        }
    }

    /// The member named `key`, which exists, to be changed in place.
    fn member_mut(&mut self, key: &str) -> (v: &mut JsonValue)
        requires
            json::has_key(old(self)@, key@),
        ensures
            json::lookup(old(self)@, key@) == Some(v@),
            final(self)@ == json::insert(old(self)@, key@, final(v)@),
    {
        proof {
            use_type_invariant(&*self);
        }
        let i: usize = self.position(key);
        &mut self.values[i]
    }

    /// Set the member named `key`: in place when it exists, else at the end.
    pub fn insert(&mut self, key: &str, value: JsonValue)
        ensures
            final(self)@ == json::insert(old(self)@, key@, value@),
    {
        proof {
            use_type_invariant(&*self);
        }
        let i: usize = self.position(key);
        if i < self.names.len() {
            self.values[i] = value;
        } else {
            let mut all = Object::new();
            std::mem::swap(self, &mut all);
            let Object { mut names, mut values } = all;
            names.push(key.to_owned());
            values.push(value);
            *self = Object { names, values };
        }
        assert(self@ =~= json::insert(old(self)@, key@, value@));
    }

    /// Drop the member named `key` and return its value. The last member takes
    /// its place.
    pub fn remove(&mut self, key: &str) -> (r: Option<JsonValue>)
        ensures
            final(self)@ == json::remove(old(self)@, key@),
            match r {
                Some(v) => json::lookup(old(self)@, key@) == Some(v@),
                None => json::lookup(old(self)@, key@) is None,
            },
            json::distinct(old(self)@),
            json::lookup(final(self)@, key@) is None,
    {
        let _ = self.len();
        proof {
            use_type_invariant(&*self);
            laws::lookup_after_remove(self@, key@);
        }
        let i: usize = self.position(key);
        if i < self.names.len() {
            let mut all = Object::new();
            std::mem::swap(self, &mut all);
            let Object { mut names, mut values } = all;
            let _ = names.swap_remove(i);
            let value = values.swap_remove(i);
            *self = Object { names, values };
            assert(self@ =~= json::remove(old(self)@, key@));
            Some(value)
        } else {
            None
        }
    }

    /// Set every member of `other`, in order.
    pub fn set_all(&mut self, other: &Object)
        ensures
            final(self)@ == json::insert_all(old(self)@, other@, 0),
    {
        let n: usize = other.len();
        let mut i: usize = 0;
        while i < n
            invariant
                i <= n,
                n == other@.len(),
                json::insert_all(old(self)@, other@, 0) == json::insert_all(
                    self@,
                    other@,
                    i as int,
                ),
            decreases n - i,
        {
            self.insert(other.key_at(i).as_str(), other.value_at(i).clone());
            i += 1;
        }
    }

    /// The member names, in order.
    pub fn keys(&self) -> (r: Vec<String>)
        ensures
            json::texts(r@) == json::keys(self@),
    {
        let mut r: Vec<String> = Vec::new();
        let mut i: usize = 0;
        while i < self.names.len()
            invariant
                i <= self.names@.len(),
                r@.len() == i,
                forall|j: int| 0 <= j < i ==> (#[trigger] r@[j])@ == self@[j].0,
            decreases self.names@.len() - i,
        {
            r.push(self.names[i].clone());
            i += 1;
        }
        assert(json::texts(r@) =~= json::keys(self@));
        r
    }
}

// --- values ----------------------------------------------------------------

impl JsonValue {
    /// The empty object.
    pub fn empty_object() -> (r: JsonValue)
        ensures
            r@ == Json::empty(),
    {
        JsonValue::Object(Object::new())
    }

    /// The empty array.
    pub fn empty_array() -> (r: JsonValue)
        ensures
            r@ == Json::Array(Seq::empty()),
    {
        let a: Vec<JsonValue> = Vec::new();
        proof {
            array_view(a);
            assert(views(a@) =~= Seq::<Json>::empty());
        }
        JsonValue::Array(a)
    }

    /// The array of the elements of `a`.
    pub fn array(a: Vec<JsonValue>) -> (r: JsonValue)
        ensures
            r@ == Json::Array(views(a@)),
    {
        proof {
            array_view(a);
        }
        JsonValue::Array(a)
    }

    /// The string `s`.
    pub fn text(s: &str) -> (r: JsonValue)
        ensures
            r@ == Json::String(s@),
    {
        JsonValue::String(s.to_owned())
    }

    /// The object with the single member `key: v`.
    pub fn single(key: &str, v: JsonValue) -> (r: JsonValue)
        ensures
            r@ == Json::single(key@, v@),
    {
        let mut m = Object::new();
        m.insert(key, v);
        proof {
            assert(!json::has_key(Members::empty(), key@));
            assert(m@ =~= seq![(key@, v@)]);
        }
        JsonValue::Object(m)
    }

    /// Whether this is `null`.
    pub fn is_null(&self) -> (b: bool)
        ensures
            b == (self@ is Null),
    {
        matches!(self, JsonValue::Null)
    }

    /// Whether this is a string.
    pub fn is_string(&self) -> (b: bool)
        ensures
            b == (self@ is String),
    {
        matches!(self, JsonValue::String(_))
    }

    /// Whether this is an array.
    pub fn is_array(&self) -> (b: bool)
        ensures
            b == (self@ is Array),
    {
        matches!(self, JsonValue::Array(_))
    }

    /// Whether this is an object.
    pub fn is_object(&self) -> (b: bool)
        ensures
            b == (self@ is Object),
    {
        matches!(self, JsonValue::Object(_))
    }

    /// The text of a string.
    pub fn as_str(&self) -> (r: Option<&str>)
        ensures
            opt_text(r) == self@.text(),
    {
        match self {
            JsonValue::String(s) => Some(s.as_str()),
            _ => None,
        }
    }

    /// The value of a boolean.
    pub fn as_bool(&self) -> (r: Option<bool>)
        ensures
            match r {
                Some(b) => self@ == Json::Bool(b),
                None => !(self@ is Bool),
            },
    {
        match self {
            JsonValue::Bool(b) => Some(*b),
            _ => None,
        }
    }

    /// The elements of an array.
    pub fn as_array(&self) -> (r: Option<&Vec<JsonValue>>)
        ensures
            match r {
                Some(a) => self@ == Json::Array(views(a@)),
                None => !(self@ is Array),
            },
    {
        broadcast use array_view;

        match self {
            JsonValue::Array(a) => Some(a),
            _ => None,
        }
    }

    /// The members of an object.
    pub fn as_object(&self) -> (r: Option<&Object>)
        ensures
            match r {
                Some(m) => self@ == Json::Object(m@),
                None => !(self@ is Object),
            },
    {
        match self {
            JsonValue::Object(m) => Some(m),
            _ => None,
        }
    }

    /// The elements of an array, to be changed in place.
    pub fn as_array_mut(&mut self) -> (r: Option<&mut Vec<JsonValue>>)
        ensures
            match r {
                Some(a) => old(self)@ == Json::Array(views(a@)) && final(self)@ == Json::Array(
                    views(final(a)@),
                ),
                None => !(old(self)@ is Array) && final(self)@ == old(self)@,
            },
    {
        broadcast use array_view;

        match self {
            JsonValue::Array(a) => Some(a),
            _ => None,
        }
    }

    /// The members of an object, to be changed in place.
    pub fn as_object_mut(&mut self) -> (r: Option<&mut Object>)
        ensures
            match r {
                Some(m) => old(self)@ == Json::Object(m@) && final(self)@ == Json::Object(
                    final(m)@,
                ),
                None => !(old(self)@ is Object) && final(self)@ == old(self)@,
            },
    {
        match self {
            JsonValue::Object(m) => Some(m),
            _ => None,
        }
    }

    /// The member named `key`.
    pub fn get(&self, key: &str) -> (r: Option<&JsonValue>)
        ensures
            opt(r) == self@.member(key@),
    {
        match self {
            JsonValue::Object(m) => m.get(key),
            _ => None,
        }
    }

    /// The member named `key`, to be changed in place.
    pub fn get_mut(&mut self, key: &str) -> (r: Option<&mut JsonValue>)
        ensures
            match r {
                Some(v) => {
                    &&& old(self)@.member(key@) == Some(v@)
                    &&& final(self)@ == old(self)@.with(key@, final(v)@)
                },
                None => old(self)@.member(key@) is None && final(self)@ == old(self)@,
            },
    {
        match self {
            JsonValue::Object(m) => m.get_mut(key),
            _ => None,
        }
    }

    /// The member named `key`, which exists, to be changed in place.
    fn take_member(&mut self, key: &str) -> (v: &mut JsonValue)
        requires
            old(self)@.has(key@),
        ensures
            old(self)@.member(key@) == Some(v@),
            final(self)@ == old(self)@.with(key@, final(v)@),
    {
        self.make_object();
        match self {
            JsonValue::Object(m) => m.member_mut(key),
            _ => {
                assert(false);
                self
            },
        }
    }

    /// Whether the member named `key` exists.
    pub fn has(&self, key: &str) -> (b: bool)
        ensures
            b == self@.has(key@),
    {
        self.get(key).is_some()
    }

    /// The text of the string member named `key`.
    pub fn get_str(&self, key: &str) -> (r: Option<&str>)
        ensures
            opt_text(r) == self@.text_member(key@),
    {
        match self.get(key) {
            Some(v) => v.as_str(),
            None => None,
        }
    }

    /// Whether the member named `key` is the string `s`.
    pub fn says(&self, key: &str, s: &str) -> (b: bool)
        ensures
            b == self@.says(key@, s@),
    {
        match self.get_str(key) {
            Some(t) => *t == *s,
            None => false,
        }
    }

    /// Make this an object, dropping any other value.
    pub fn make_object(&mut self)
        ensures
            final(self)@ == Json::Object(old(self)@.members()),
    {
        if !self.is_object() {
            *self = JsonValue::empty_object();
        }
    }

    /// Set the member named `key`, making this an object first.
    pub fn put(&mut self, key: &str, value: JsonValue)
        ensures
            final(self)@ == old(self)@.with(key@, value@),
    {
        self.make_object();
        if let JsonValue::Object(m) = self {
            m.insert(key, value);
        }
    }

    /// Drop the member named `key`, making this an object first.
    pub fn cut(&mut self, key: &str)
        ensures
            final(self)@ == old(self)@.without(key@),
            !final(self)@.has(key@),
    {
        self.make_object();
        if let JsonValue::Object(m) = self {
            m.remove(key);
        }
    }

    /// Set the member named `key` unless it exists, making this an object first.
    pub fn put_new(&mut self, key: &str, value: JsonValue)
        ensures
            final(self)@ == old(self)@.with_new(key@, value@),
    {
        self.make_object();
        if let JsonValue::Object(m) = self {
            if !m.contains_key(key) {
                m.insert(key, value);
            }
        }
    }

    /// Move the value out, leaving `null`.
    pub fn take(&mut self) -> (r: JsonValue)
        ensures
            r@ == old(self)@,
            final(self)@ == Json::Null,
    {
        let mut v = JsonValue::Null;
        std::mem::swap(self, &mut v);
        v
    }
}

// --- lists and options -----------------------------------------------------

/// A copy of a list of values.
pub fn clone_values(a: &Vec<JsonValue>) -> (r: Vec<JsonValue>)
    ensures
        views(r@) == views(a@),
{
    let mut r: Vec<JsonValue> = Vec::new();
    let mut i: usize = 0;
    while i < a.len()
        invariant
            i <= a@.len(),
            r@.len() == i,
            forall|j: int| 0 <= j < i ==> (#[trigger] r@[j])@ == a@[j]@,
        decreases a@.len() - i,
    {
        r.push(a[i].clone());
        i += 1;
    }
    assert(views(r@) =~= views(a@));
    r
}

/// The elements of an array. Any other value has none.
pub fn into_elements(v: JsonValue) -> (r: Vec<JsonValue>)
    ensures
        views(r@) == v@.elements(),
{
    broadcast use array_view;

    match v {
        JsonValue::Array(a) => a,
        _ => {
            let r: Vec<JsonValue> = Vec::new();
            assert(views(r@) =~= Seq::<Json>::empty());
            r
        },
    }
}

/// A copy of an optional value.
pub fn cloned(v: Option<&JsonValue>) -> (r: Option<JsonValue>)
    ensures
        match r {
            Some(c) => opt(v) == Some(c@),
            None => v is None,
        },
{
    match v {
        Some(v) => Some(v.clone()),
        None => None,
    }
}

/// The member of an optional value.
pub fn member_of<'a>(v: Option<&'a JsonValue>, key: &str) -> (r: Option<&'a JsonValue>)
    ensures
        opt(r) == json::member_of(opt(v), key@),
{
    match v {
        Some(v) => v.get(key),
        None => None,
    }
}

/// The texts of a list of names.
pub open spec fn names_of(names: Seq<&str>) -> Seq<Text> {
    Seq::new(names.len(), |i: int| names[i]@)
}

/// The value under a path of member names.
pub fn get_at<'a>(v: &'a JsonValue, names: &[&str]) -> (r: Option<&'a JsonValue>)
    ensures
        opt(r) == json::value_at(v@, names_of(names@), 0),
{
    let ghost ns = names_of(names@);
    let mut at: &'a JsonValue = v;
    let mut i: usize = 0;
    while i < names.len()
        invariant
            i <= names@.len(),
            ns == names_of(names@),
            json::value_at(v@, ns, 0) == json::value_at(at@, ns, i as nat),
        decreases names@.len() - i,
    {
        assert(ns[i as int] == names@[i as int]@);
        match at.get(names[i]) {
            Some(c) => {
                at = c;
            },
            None => {
                return None;
            },
        }
        i += 1;
    }
    Some(at)
}

/// The value under a path of member names, to be changed in place.
pub fn get_at_mut<'a>(v: &'a mut JsonValue, names: &[&str]) -> (r: Option<&'a mut JsonValue>)
    ensures
        match r {
            Some(x) => {
                &&& json::value_at(old(v)@, names_of(names@), 0) == Some(x@)
                &&& final(v)@ == json::with_at(old(v)@, names_of(names@), 0, final(x)@)
            },
            None => json::value_at(old(v)@, names_of(names@), 0) is None && final(v)@ == old(v)@,
        },
{
    if get_at(v, names).is_none() {
        return None;
    }
    Some(descend(v, names, 0))
}

/// The value under the member names from position `i` on.
fn descend<'a>(v: &'a mut JsonValue, names: &[&str], i: usize) -> (r: &'a mut JsonValue)
    requires
        i <= names@.len(),
        json::value_at(old(v)@, names_of(names@), i as nat) is Some,
    ensures
        json::value_at(old(v)@, names_of(names@), i as nat) == Some(r@),
        final(v)@ == json::with_at(old(v)@, names_of(names@), i as nat, final(r)@),
    decreases names@.len() - i,
{
    let ghost ns = names_of(names@);
    if i >= names.len() {
        return v;
    }
    assert(ns[i as int] == names@[i as int]@);
    let child = v.take_member(names[i]);
    descend(child, names, i + 1)
}

/// The text of an optional string value.
pub fn text_of<'a>(v: Option<&'a JsonValue>) -> (r: Option<&'a str>)
    ensures
        opt_text(r) == json::text_of(opt(v)),
{
    match v {
        Some(v) => v.as_str(),
        None => None,
    }
}

// --- equality --------------------------------------------------------------

impl JsonValue {
    /// Whether two documents are equal. The order of members does not count.
    pub fn same(&self, other: &JsonValue) -> (b: bool)
        ensures
            b == json::same(self@, other@),
        decreases self,
    {
        broadcast use array_view;

        match (self, other) {
            (JsonValue::Null, JsonValue::Null) => true,
            (JsonValue::Bool(x), JsonValue::Bool(y)) => *x == *y,
            (JsonValue::Number(x), JsonValue::Number(y)) => x.same(y),
            (JsonValue::String(x), JsonValue::String(y)) => *x.as_str() == *y.as_str(),
            (JsonValue::Array(x), JsonValue::Array(y)) => {
                if x.len() != y.len() {
                    return false;
                }
                let ghost xs = views(x@);
                let ghost ys = views(y@);
                let mut i: usize = 0;
                while i < x.len()
                    invariant
                        i <= x@.len(),
                        x@.len() == y@.len(),
                        *self == JsonValue::Array(*x),
                        xs == views(x@),
                        ys == views(y@),
                        self@ == Json::Array(xs),
                        other@ == Json::Array(ys),
                        json::same(self@, other@) == json::same_elements(xs, ys, i as nat),
                    decreases x@.len() - i,
                {
                    assert(decreases_to!(*self => self->Array_0@[i as int]));
                    if !x[i].same(&y[i]) {
                        return false;
                    }
                    i += 1;
                }
                true
            },
            (JsonValue::Object(x), JsonValue::Object(y)) => {
                let n: usize = x.len();
                if n != y.len() {
                    return false;
                }
                let mut i: usize = 0;
                while i < n
                    invariant
                        i <= n,
                        n == x@.len(),
                        n == y@.len(),
                        *self == JsonValue::Object(*x),
                        self@ == Json::Object(x@),
                        other@ == Json::Object(y@),
                        json::same(self@, other@) == json::same_members(x@, y@, i as nat),
                    decreases n - i,
                {
                    let member = x.value_at(i);
                    assert(decreases_to!(*self => *member)) by {
                        member_decreases(*x, *member);
                    }
                    match y.get(x.key_at(i).as_str()) {
                        Some(v) => {
                            if !member.same(v) {
                                return false;
                            }
                        },
                        None => {
                            return false;
                        },
                    }
                    i += 1;
                }
                true
            },
            _ => false,
        }
    }
}

impl PartialEq for JsonValue {
    fn eq(&self, other: &JsonValue) -> (b: bool) {
        self.same(other)
    }
}

impl vstd::std_specs::cmp::PartialEqSpecImpl for JsonValue {
    open spec fn obeys_eq_spec() -> bool {
        true
    }

    open spec fn eq_spec(&self, other: &JsonValue) -> bool {
        json::same(self@, other@)
    }
}

impl Clone for JsonValue {
    fn clone(&self) -> (r: JsonValue)
        ensures
            r@ == self@,
        decreases self,
    {
        broadcast use array_view;

        match self {
            JsonValue::Null => JsonValue::Null,
            JsonValue::Bool(b) => JsonValue::Bool(*b),
            JsonValue::Number(n) => JsonValue::Number(n.clone()),
            JsonValue::String(s) => JsonValue::String(s.clone()),
            JsonValue::Array(a) => {
                let mut out: Vec<JsonValue> = Vec::new();
                let mut i: usize = 0;
                while i < a.len()
                    invariant
                        i <= a@.len(),
                        *self == JsonValue::Array(*a),
                        out@.len() == i,
                        forall|j: int| 0 <= j < i ==> (#[trigger] out@[j])@ == a@[j]@,
                    decreases a@.len() - i,
                {
                    assert(decreases_to!(*self => self->Array_0@[i as int]));
                    out.push(a[i].clone());
                    i += 1;
                }
                assert(views(out@) =~= views(a@));
                JsonValue::Array(out)
            },
            JsonValue::Object(m) => JsonValue::Object(m.clone()),
        }
    }
}

impl Clone for Object {
    fn clone(&self) -> (r: Object)
        ensures
            r@ == self@,
        decreases self,
    {
        proof {
            use_type_invariant(self);
        }
        let mut names: Vec<String> = Vec::new();
        let mut values: Vec<JsonValue> = Vec::new();
        let mut i: usize = 0;
        while i < self.names.len()
            invariant
                i <= self.names@.len(),
                self.names@.len() == self.values@.len(),
                names@.len() == i,
                values@.len() == i,
                forall|j: int| 0 <= j < i ==> (#[trigger] names@[j])@ == self.names@[j]@,
                forall|j: int| 0 <= j < i ==> (#[trigger] values@[j])@ == self.values@[j]@,
            decreases self.names@.len() - i,
        {
            assert(decreases_to!(*self => self.values@[i as int]));
            names.push(self.names[i].clone());
            values.push(self.values[i].clone());
            i += 1;
        }
        let r = Object { names, values };
        assert(r@ =~= self@);
        r
    }
}

} // verus!
