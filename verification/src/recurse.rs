//! Order-preserving depth-first traversal with path state.
//!
//! [`recurse`] visits every own property of a value, handing the container, the
//! current key, and a [`RecurseState`] to a [`Visitor`]. The visitor may mutate
//! the container in place: change `container[key]`, replace the container
//! itself, or delete a key. After the visit, the traversal descends into
//! `container[key]` when it is still an object or array.
//!
//! [`is_ref`] reports whether a key names a string `$ref`.

use vstd::prelude::*;

use crate::common;
use crate::jptr;
use crate::json::{self, Json, Text};
use crate::laws;
use crate::text;
use crate::value::{self, JsonValue};

verus! {

/// Per-visit state passed to the visitor.
pub struct RecurseState {
    /// JSON-pointer-ish path to the current key, built with `#/a/b`.
    pub path: String,
}

/// What a traversal does at each property.
///
/// `State` models the visitor and `visited` what one visit does to it and to
/// the container. A visit makes no container higher, so every traversal ends.
pub trait Visitor: Sized {
    type State;

    /// The model of the visitor.
    spec fn state(&self) -> Self::State;

    /// The visitor and the container after a visit.
    spec fn visited(s: Self::State, container: Json, key: Text, path: Text) -> (Self::State, Json);

    /// A visit makes no container higher.
    proof fn visit_is_bounded(s: Self::State, container: Json, key: Text, path: Text)
        ensures
            json::height(Self::visited(s, container, key, path).1) <= json::height(container),
    ;

    /// Visit `container[key]`.
    fn visit(&mut self, container: &mut JsonValue, key: &str, state: &RecurseState)
        ensures
            (final(self).state(), final(container)@) == Self::visited(
                old(self).state(),
                old(container)@,
                key@,
                state.path@,
            ),
    ;
}

// --- children --------------------------------------------------------------

/// The index that a key spells: decimal digits after an optional `+`.
pub open spec fn key_index(key: Text) -> Option<int> {
    let d = if key.len() > 0 && key[0] == '+' {
        key.skip(1)
    } else {
        key
    };
    if d.len() == 0 {
        None
    } else {
        jptr::digits_from(d, 0, 0)
    }
}

/// The child of `j` under `key`.
pub open spec fn child_at(j: Json, key: Text) -> Option<Json> {
    match j {
        Json::Object(m) => json::lookup(m, key),
        Json::Array(a) => match key_index(key) {
            Some(n) => if 0 <= n < a.len() {
                Some(a[n])
            } else {
                None
            },
            None => None,
        },
        _ => None,
    }
}

/// `j` with another child under `key`.
pub open spec fn with_child(j: Json, key: Text, c: Json) -> Json {
    match j {
        Json::Object(m) => Json::Object(json::insert(m, key, c)),
        Json::Array(a) => Json::Array(a.update(key_index(key)->0, c)),
        _ => j,
    }
}

/// The keys of an object, or the indices of an array.
pub open spec fn child_keys(j: Json) -> Seq<Text> {
    match j {
        Json::Object(m) => json::keys(m),
        Json::Array(a) => Seq::new(a.len(), |i: int| text::decimal(i as nat)),
        _ => Seq::empty(),
    }
}

/// Whether a value has children.
pub open spec fn is_container(j: Json) -> bool {
    j is Object || j is Array
}

/// The path of the child under `key`.
pub open spec fn child_path(path: Text, key: Text) -> Text {
    path + "/"@ + common::uri_encoded(jptr::escaped(key))
}

// --- traversal -------------------------------------------------------------

/// The visitor and the value after a traversal of a value of at most `h` levels.
pub open spec fn traverse<V: Visitor>(h: nat, s: V::State, j: Json, path: Text) -> (V::State, Json)
    decreases h, 1nat, 0nat,
{
    traverse_keys::<V>(h, child_keys(j), 0, s, j, path)
}

/// The visitor and the value after a traversal of the children under the keys
/// from position `i` on. A key that is gone is passed over. After the visit the
/// traversal descends into the child, when that is a container.
pub open spec fn traverse_keys<V: Visitor>(
    h: nat,
    ks: Seq<Text>,
    i: nat,
    s: V::State,
    j: Json,
    path: Text,
) -> (V::State, Json)
    decreases h, 0nat, ks.len() - i,
{
    if i >= ks.len() {
        (s, j)
    } else if child_at(j, ks[i as int]) is None {
        traverse_keys::<V>(h, ks, i + 1, s, j, path)
    } else {
        let key = ks[i as int];
        let p = child_path(path, key);
        let (s1, j1) = V::visited(s, j, key, p);
        match child_at(j1, key) {
            Some(c) => if is_container(c) && h > 0 {
                let (s2, c2) = traverse::<V>((h - 1) as nat, s1, c, p);
                traverse_keys::<V>(h, ks, i + 1, s2, with_child(j1, key, c2), path)
            } else {
                traverse_keys::<V>(h, ks, i + 1, s1, j1, path)
            },
            None => traverse_keys::<V>(h, ks, i + 1, s1, j1, path),
        }
    }
}

/// The visitor and the value after a traversal.
pub open spec fn recursed<V: Visitor>(s: V::State, j: Json, path: Text) -> (V::State, Json) {
    traverse::<V>(json::height(j), s, j, path)
}

/// Visit every property of `object` depth first.
///
/// `parent_path` is the path of the container. Pass `"#"` to start at the
/// document root.
pub fn recurse<V: Visitor>(object: &mut JsonValue, parent_path: &str, visitor: &mut V)
    ensures
        (final(visitor).state(), final(object)@) == recursed::<V>(
            old(visitor).state(),
            old(object)@,
            parent_path@,
        ),
{
    let ghost h = json::height(object@);
    recurse_at(object, parent_path, visitor, Ghost(h));
}

/// A child is lower than its container, and a container whose child becomes no
/// higher becomes no higher.
proof fn child_heights(j: Json, key: Text, c: Json)
    requires
        child_at(j, key) is Some,
        json::height(c) <= json::height(child_at(j, key)->0),
    ensures
        json::height(child_at(j, key)->0) < json::height(j),
        json::height(with_child(j, key, c)) <= json::height(j),
{
    match j {
        Json::Object(m) => {
            laws::member_is_lower(m, key);
            laws::insert_keeps_height(m, key, c);
        },
        Json::Array(a) => {
            laws::element_is_lower(a, key_index(key)->0);
            laws::update_keeps_height(a, key_index(key)->0, c);
        },
        _ => {},
    }
}

fn recurse_at<V: Visitor>(
    object: &mut JsonValue,
    parent_path: &str,
    visitor: &mut V,
    Ghost(h): Ghost<nat>,
)
    requires
        json::height(old(object)@) <= h,
    ensures
        (final(visitor).state(), final(object)@) == traverse::<V>(
            h,
            old(visitor).state(),
            old(object)@,
            parent_path@,
        ),
        json::height(final(object)@) <= json::height(old(object)@),
    decreases h,
{
    let keys = list_keys(object);
    let ghost ks = json::texts(keys@);
    let ghost s0 = visitor.state();
    let ghost j0 = object@;
    let mut i: usize = 0;
    while i < keys.len()
        invariant
            i <= keys@.len(),
            ks == json::texts(keys@),
            json::height(j0) <= h,
            json::height(object@) <= json::height(j0),
            traverse_keys::<V>(h, ks, 0, s0, j0, parent_path@) == traverse_keys::<V>(
                h,
                ks,
                i as nat,
                visitor.state(),
                object@,
                parent_path@,
            ),
        decreases keys@.len() - i,
    {
        let key = keys[i].as_str();
        // The key may have been deleted by an earlier visit in this loop.
        if contains_key(object, key) {
            let encoded = common::encode_uri_component(jptr::jpescape(key).as_str());
            let path = text::cat3(parent_path, "/", encoded.as_str());
            let state = RecurseState { path };
            proof {
                V::visit_is_bounded(visitor.state(), object@, key@, state.path@);
            }
            visitor.visit(object, key, &state);

            // Re-read after the visit, which may have replaced or removed the
            // value or even the container itself.
            let ghost j1 = object@;
            if let Some(child) = get_child_mut(object, key) {
                let ghost c = child@;
                proof {
                    child_heights(j1, key@, c);
                }
                if child.is_object() || child.is_array() {
                    recurse_at(child, state.path.as_str(), visitor, Ghost((h - 1) as nat));
                    proof {
                        child_heights(j1, key@, child@);
                    }
                } else {
                    proof {
                        same_child(j1, key@);
                    }
                }
            }
        }
        i += 1;
    }
}

/// Putting a child back changes nothing.
pub proof fn same_child(j: Json, key: Text)
    requires
        child_at(j, key) is Some,
    ensures
        with_child(j, key, child_at(j, key)->0) == j,
{
    match j {
        Json::Object(m) => {
            laws::insert_same(m, key);
        },
        Json::Array(a) => {
            let n = key_index(key)->0;
            assert(a.update(n, a[n]) =~= a);
        },
        _ => {},
    }
}

/// The keys of `object` in order: member names, or indices.
pub fn list_keys(object: &JsonValue) -> (r: Vec<String>)
    ensures
        json::texts(r@) == child_keys(object@),
{
    match object {
        JsonValue::Object(m) => m.keys(),
        JsonValue::Array(a) => {
            proof {
                value::array_view(*a);
            }
            let mut r: Vec<String> = Vec::new();
            let mut i: usize = 0;
            while i < a.len()
                invariant
                    i <= a@.len(),
                    r@.len() == i,
                    forall|k: int| 0 <= k < i ==> (#[trigger] r@[k])@ == text::decimal(k as nat),
                decreases a@.len() - i,
            {
                r.push(text::u64_text(i as u64));
                i += 1;
            }
            assert(json::texts(r@) =~= child_keys(object@));
            r
        },
        _ => {
            let r: Vec<String> = Vec::new();
            assert(json::texts(r@) =~= Seq::<Text>::empty());
            r
        },
    }
}

/// The index below `len` that a key spells.
fn index_below(key: &str, len: usize) -> (r: Option<usize>)
    ensures
        match r {
            Some(n) => key_index(key@) == Some(n as int) && n < len,
            None => match key_index(key@) {
                Some(n) => n >= len,
                None => true,
            },
        },
{
    let digits = if !key.is_empty() && key.get_char(0) == '+' {
        text::skip(key, 1)
    } else {
        key.to_owned()
    };
    let cs = text::to_chars(digits.as_str());
    if cs.len() == 0 {
        return None;
    }
    let mut acc: u128 = 0;
    let mut i: usize = 0;
    while i < cs.len()
        invariant
            i <= cs@.len(),
            cs@ == digits@,
            digits@.len() > 0,
            key_index(key@) == jptr::digits_from(digits@, 0, 0),
            i > 0 ==> acc < len,
            i == 0 ==> acc == 0,
            jptr::digits_from(digits@, 0, 0) == jptr::digits_from(digits@, i as int, acc as int),
        decreases cs@.len() - i,
    {
        let c: char = cs[i];
        if !text::is_ascii_digit(c) {
            return None;
        }
        let d: u128 = (c as u32 - '0' as u32) as u128;
        let next: u128 = acc * 10 + d;
        if next >= len as u128 {
            proof {
                jptr::digits_grow(digits@, i + 1, next as int);
            }
            return None;
        }
        acc = next;
        i += 1;
    }
    Some(acc as usize)
}

/// Whether `object` still holds `key`.
pub fn contains_key(object: &JsonValue, key: &str) -> (b: bool)
    ensures
        b == (child_at(object@, key@) is Some),
{
    match object {
        JsonValue::Object(m) => m.contains_key(key),
        JsonValue::Array(a) => {
            proof {
                value::array_view(*a);
            }
            index_below(key, a.len()).is_some()
        },
        _ => false,
    }
}

/// Mutable access to `object[key]` for either maps or arrays.
pub fn get_child_mut<'a>(object: &'a mut JsonValue, key: &str) -> (r: Option<&'a mut JsonValue>)
    ensures
        match r {
            Some(c) => {
                &&& child_at(old(object)@, key@) == Some(c@)
                &&& final(object)@ == with_child(old(object)@, key@, final(c)@)
            },
            None => child_at(old(object)@, key@) is None && final(object)@ == old(object)@,
        },
{
    broadcast use value::array_view;

    match object {
        JsonValue::Object(m) => m.get_mut(key),
        JsonValue::Array(a) => match index_below(key, a.len()) {
            Some(n) => {
                let r = &mut a[n];
                assert(value::views(after_borrow(*a)@) =~= value::views(old(object)->Array_0@).update(n as int, final(r)@));
                Some(r)
            },
            None => None,
        },
        _ => None,
    }
}

/// Whether the member named `key` is a string `$ref`.
pub open spec fn names_ref(j: Json, key: Text) -> bool {
    key == "$ref"@ && j.text_member(key) is Some
}

/// Whether `key` is `$ref` and `obj[key]` is a string.
pub fn is_ref(obj: &JsonValue, key: &str) -> (b: bool)
    ensures
        b == names_ref(obj@, key@),
{
    *key == *"$ref" && obj.get_str(key).is_some()
}

} // verus!
