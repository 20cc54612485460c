//! RFC 6901 JSON pointer get and set over a [`JsonValue`].
//!
//! [`get`] reads the pointed-to value or returns `None` on a miss. [`set`]
//! writes a value, creating intermediate containers as needed. Both honour JSON
//! Reference fragments (`#/...`), the `~0`/`~1` escapes, and the array append
//! token `-`.

use vstd::prelude::*;

use crate::common;
use crate::json::{self, Json, Text};
use crate::text;
use crate::value::{self, JsonValue};

verus! {

// --- escapes ---------------------------------------------------------------

/// The escaped form of a character.
pub open spec fn escape_char(c: char) -> Text {
    if c == '~' {
        seq!['~', '0']
    } else if c == '/' {
        seq!['~', '1']
    } else {
        seq![c]
    }
}

/// The escaped form of the characters from position `i` on.
pub open spec fn escape_from(s: Text, i: int) -> Text
    decreases s.len() - i,
{
    if i >= s.len() {
        Seq::empty()
    } else {
        escape_char(s[i]) + escape_from(s, i + 1)
    }
}

/// The text with `~` as `~0` and `/` as `~1`.
pub open spec fn escaped(s: Text) -> Text {
    escape_from(s, 0)
}

/// Escape a path component for use in a JSON pointer.
///
/// `~` becomes `~0` and `/` becomes `~1`.
pub fn jpescape(s: &str) -> (r: String)
    ensures
        r@ == escaped(s@),
{
    let cs = text::to_chars(s);
    let mut out = String::new();
    let mut i: usize = 0;
    while i < cs.len()
        invariant
            i <= cs@.len(),
            cs@ == s@,
            escaped(s@) == out@ + escape_from(s@, i as int),
        decreases cs@.len() - i,
    {
        let c: char = cs[i];
        let ghost before = out@;
        if c == '~' {
            out.push('~');
            out.push('0');
        } else if c == '/' {
            out.push('~');
            out.push('1');
        } else {
            out.push(c);
        }
        assert(out@ =~= before + escape_char(c));
        i += 1;
        assert(before + (escape_char(c) + escape_from(s@, i as int)) =~= (before + escape_char(c))
            + escape_from(s@, i as int));
    }
    assert(out@ + escape_from(s@, i as int) =~= out@);
    out
}

/// The text with `~1` as `/`, then `~0` as `~`.
pub open spec fn unescaped(s: Text) -> Text {
    text::replaced(text::replaced(s, "~1"@, "/"@), "~0"@, "~"@)
}

/// Reverse [`jpescape`].
///
/// `~1` becomes `/` and `~0` becomes `~`. Order matters for the round trip.
pub fn jpunescape(s: &str) -> (r: String)
    ensures
        r@ == unescaped(s@),
{
    text::replace(text::replace(s, "~1", "/").as_str(), "~0", "~")
}

// --- pointers --------------------------------------------------------------

/// What a pointer addresses: the whole document, another document, or the value
/// under a path of components.
pub enum Target {
    Whole,
    External,
    Path(Seq<Text>),
}

/// A parsed pointer.
pub enum Pointer {
    Whole,
    External,
    Path(Vec<String>),
}

impl View for Pointer {
    type V = Target;

    open spec fn view(&self) -> Target {
        match *self {
            Pointer::Whole => Target::Whole,
            Pointer::External => Target::External,
            Pointer::Path(p) => Target::Path(json::texts(p@)),
        }
    }
}

/// The text without one leading `/`.
pub open spec fn without_slash(s: Text) -> Text {
    if s.len() > 0 && s[0] == '/' {
        s.skip(1)
    } else {
        s
    }
}

/// The components of a path.
pub open spec fn path_parts(s: Text) -> Seq<Text> {
    text::pieces(without_slash(s), '/').map_values(|p: Text| unescaped(p))
}

/// What a pointer addresses. A fragment is percent-decoded after its leading
/// `/` is dropped. Text before the `#` names another document.
pub open spec fn target(prop: Text) -> Target {
    if prop.len() == 0 || prop == "#"@ {
        Target::Whole
    } else {
        match text::find_spec(prop, "#"@) {
            Some(i) => if i > 0 {
                Target::External
            } else {
                Target::Path(path_parts(common::uri_decoded(without_slash(prop.skip(1)))))
            },
            None => Target::Path(path_parts(prop)),
        }
    }
}

fn drop_slash(s: &str) -> (r: String)
    ensures
        r@ == without_slash(s@),
{
    if !s.is_empty() && s.get_char(0) == '/' {
        text::skip(s, 1)
    } else {
        s.to_owned()
    }
}

fn split_path(s: &str) -> (r: Vec<String>)
    ensures
        json::texts(r@) == path_parts(s@),
        r@.len() > 0,
{
    let parts = text::split(drop_slash(s).as_str(), '/');
    let mut out: Vec<String> = Vec::new();
    let mut i: usize = 0;
    while i < parts.len()
        invariant
            i <= parts@.len(),
            out@.len() == i,
            forall|j: int| 0 <= j < i ==> (#[trigger] out@[j])@ == unescaped(parts@[j]@),
        decreases parts@.len() - i,
    {
        out.push(jpunescape(parts[i].as_str()));
        i += 1;
    }
    assert(json::texts(parts@).len() == parts@.len());
    assert(json::texts(out@) =~= path_parts(s@));
    out
}

/// Split a pointer into normalised path components.
pub fn components(prop: &str) -> (r: Pointer)
    ensures
        r@ == target(prop@),
        r matches Pointer::Path(p) ==> p@.len() > 0,
{
    if prop.is_empty() || *prop == *"#" {
        return Pointer::Whole;
    }
    match text::find(prop, "#") {
        Some(i) => {
            if i > 0 {
                return Pointer::External;
            }
            proof {
                reveal_strlit("#");
            }
            let after = drop_slash(text::skip(prop, 1).as_str());
            let decoded = common::decode_uri_component(after.as_str());
            Pointer::Path(split_path(decoded.as_str()))
        },
        None => Pointer::Path(split_path(prop)),
    }
}

/// The value of the decimal digits from position `i` on, read after `acc`.
pub open spec fn digits_from(s: Text, i: int, acc: int) -> Option<int>
    decreases s.len() - i,
{
    if i >= s.len() {
        Some(acc)
    } else if text::ascii_digit(s[i]) {
        digits_from(s, i + 1, acc * 10 + (s[i] as int - '0' as int))
    } else {
        None
    }
}

/// The array index that a component spells: decimal digits without a needless
/// leading zero, at most `i64::MAX`.
pub open spec fn index_value(s: Text) -> Option<int> {
    if s.len() == 0 || (s.len() > 1 && s[0] == '0') {
        None
    } else {
        match digits_from(s, 0, 0) {
            Some(n) => if n <= i64::MAX {
                Some(n)
            } else {
                None
            },
            None => None,
        }
    }
}

/// More digits never make a smaller number.
pub proof fn digits_grow(s: Text, i: int, acc: int)
    requires
        0 <= acc,
    ensures
        digits_from(s, i, acc) matches Some(n) ==> n >= acc,
    decreases s.len() - i,
{
    if 0 <= i < s.len() && text::ascii_digit(s[i]) {
        digits_grow(s, i + 1, acc * 10 + (s[i] as int - '0' as int));
    } else if i < 0 && text::ascii_digit(s[i]) {
        digits_grow(s, i + 1, acc * 10 + (s[i] as int - '0' as int));
    }
}

/// The array index that a component spells.
pub fn array_index(component: &str) -> (r: Option<u64>)
    ensures
        match r {
            Some(n) => index_value(component@) == Some(n as int),
            None => index_value(component@) is None,
        },
{
    let cs = text::to_chars(component);
    if cs.len() == 0 || (cs.len() > 1 && cs[0] == '0') {
        return None;
    }
    let mut acc: u64 = 0;
    let mut i: usize = 0;
    while i < cs.len()
        invariant
            i <= cs@.len(),
            cs@ == component@,
            cs@.len() > 0 && !(cs@.len() > 1 && cs@[0] == '0'),
            acc <= i64::MAX,
            digits_from(component@, 0, 0) == digits_from(component@, i as int, acc as int),
        decreases cs@.len() - i,
    {
        let c: char = cs[i];
        if !text::is_ascii_digit(c) {
            return None;
        }
        let d: u64 = (c as u32 - '0' as u32) as u64;
        let next: u128 = acc as u128 * 10 + d as u128;
        if next > 0x7FFF_FFFF_FFFF_FFFF {
            proof {
                digits_grow(component@, i + 1, next as int);
            }
            return None;
        }
        acc = next as u64;
        i += 1;
    }
    Some(acc)
}

// --- reading ---------------------------------------------------------------

/// The child of `j` that a component selects.
pub open spec fn child(j: Json, comp: Text) -> Option<Json> {
    match j {
        Json::Array(a) => match index_value(comp) {
            Some(n) => if n < a.len() {
                Some(a[n])
            } else {
                None
            },
            None => None,
        },
        Json::Object(m) => json::lookup(m, comp),
        _ => None,
    }
}

/// The value under the components from position `i` on.
pub open spec fn resolve(j: Json, parts: Seq<Text>, i: int) -> Option<Json>
    decreases parts.len() - i,
{
    if i >= parts.len() {
        Some(j)
    } else {
        match child(j, parts[i]) {
            Some(c) => resolve(c, parts, i + 1),
            None => None,
        }
    }
}

/// The value at a pointer.
pub open spec fn read(j: Json, prop: Text) -> Option<Json> {
    match target(prop) {
        Target::Whole => Some(j),
        Target::External => None,
        Target::Path(parts) => resolve(j, parts, 0),
    }
}

/// Read the value at `prop`.
///
/// Returns `None` on any miss.
pub fn get<'a>(obj: &'a JsonValue, prop: &str) -> (r: Option<&'a JsonValue>)
    ensures
        value::opt(r) == read(obj@, prop@),
{
    let comps: Vec<String> = match components(prop) {
        Pointer::Path(c) => c,
        Pointer::Whole => return Some(obj),
        Pointer::External => return None,
    };
    let ghost parts = json::texts(comps@);
    let mut cur = obj;
    let mut i: usize = 0;
    while i < comps.len()
        invariant
            i <= comps@.len(),
            parts == json::texts(comps@),
            target(prop@) == Target::Path(parts),
            resolve(obj@, parts, 0) == resolve(cur@, parts, i as int),
        decreases comps@.len() - i,
    {
        match cur {
            JsonValue::Array(a) => {
                proof {
                    value::array_view(*a);
                }
                match array_index(comps[i].as_str()) {
                    Some(n) => {
                        if n >= a.len() as u64 {
                            return None;
                        }
                        cur = &a[n as usize];
                    },
                    None => return None,
                }
            },
            JsonValue::Object(m) => match m.get(comps[i].as_str()) {
                Some(v) => {
                    cur = v;
                },
                None => return None,
            },
            _ => return None,
        }
        i += 1;
    }
    Some(cur)
}

/// Whether `prop` resolves to an existing value.
pub fn pointer_exists(obj: &JsonValue, prop: &str) -> (b: bool)
    ensures
        b == (read(obj@, prop@) is Some),
{
    get(obj, prop).is_some()
}

// --- writing ---------------------------------------------------------------

/// The value that a missing member becomes by a write under the components from
/// position `i` on, and whether the write took place. A missing container becomes an
/// array when the component in it is `0` or `-`, else an object.
pub open spec fn made(parts: Seq<Text>, i: int, v: Json) -> (Json, bool)
    decreases parts.len() - i,
{
    if i >= parts.len() {
        (v, true)
    } else if parts[i] == "-"@ && i + 1 < parts.len() {
        (Json::Array(Seq::empty()), false)
    } else {
        let (c, ok) = made(parts, i + 1, v);
        if parts[i] == "0"@ || parts[i] == "-"@ {
            (Json::Array(seq![c]), ok)
        } else {
            (Json::single(parts[i], c), ok)
        }
    }
}

/// The document after a write under the components from position `i` on, and
/// whether the write took place. Containers that the write made on its way stay
/// when it fails further down.
pub open spec fn assign(j: Json, parts: Seq<Text>, i: int, v: Json) -> (Json, bool)
    decreases parts.len() - i,
{
    if i >= parts.len() {
        (j, false)
    } else {
        let comp = parts[i];
        let last = i + 1 == parts.len();
        match j {
            Json::Array(a) => if comp == "-"@ {
                if last {
                    (Json::Array(a.push(v)), true)
                } else {
                    (j, false)
                }
            } else {
                match index_value(comp) {
                    Some(n) => if n >= a.len() {
                        (j, false)
                    } else if last {
                        (Json::Array(a.update(n, v)), true)
                    } else {
                        let (c, ok) = assign(a[n], parts, i + 1, v);
                        (Json::Array(a.update(n, c)), ok)
                    },
                    None => (j, false),
                }
            },
            Json::Object(m) => if last {
                (Json::Object(json::insert(m, comp, v)), true)
            } else {
                let (c, ok) = match json::lookup(m, comp) {
                    Some(c0) => assign(c0, parts, i + 1, v),
                    None => made(parts, i + 1, v),
                };
                (Json::Object(json::insert(m, comp, c)), ok)
            },
            _ => (j, false),
        }
    }
}

/// The document after a write at a pointer, and whether the write took place.
pub open spec fn write(j: Json, prop: Text, v: Json) -> (Json, bool) {
    match target(prop) {
        Target::Whole => (v, true),
        Target::External => (j, false),
        Target::Path(parts) => assign(j, parts, 0, v),
    }
}

/// Write `new_value` at `prop`, creating intermediate containers as needed.
///
/// Returns the value that was set, or `None` if the path could not be built (for
/// example writing into a scalar). A missing intermediate becomes an array when
/// the next component is `0` or `-`, otherwise an object.
pub fn set(obj: &mut JsonValue, prop: &str, new_value: JsonValue) -> (r: Option<JsonValue>)
    ensures
        final(obj)@ == write(old(obj)@, prop@, new_value@).0,
        match r {
            Some(v) => write(old(obj)@, prop@, new_value@).1 && v@ == new_value@,
            None => !write(old(obj)@, prop@, new_value@).1,
        },
{
    let comps: Vec<String> = match components(prop) {
        Pointer::Path(c) => c,
        Pointer::Whole => {
            *obj = new_value.clone();
            return Some(new_value);
        },
        Pointer::External => return None,
    };
    set_components(obj, &comps, 0, new_value)
}

/// Make the containers for the components from position `i` on, around the value.
fn make_containers(comps: &Vec<String>, i: usize, new_value: JsonValue) -> (r: (JsonValue, bool))
    requires
        i <= comps@.len(),
    ensures
        (r.0@, r.1) == made(json::texts(comps@), i as int, new_value@),
    decreases comps@.len() - i,
{
    if i >= comps.len() {
        return (new_value, true);
    }
    let comp = comps[i].as_str();
    if *comp == *"-" && i < comps.len() - 1 {
        return (JsonValue::empty_array(), false);
    }
    let (child, ok) = make_containers(comps, i + 1, new_value);
    if *comp == *"0" || *comp == *"-" {
        let ghost c = child@;
        let mut list: Vec<JsonValue> = Vec::new();
        list.push(child);
        assert(value::views(list@) =~= seq![c]);
        (JsonValue::array(list), ok)
    } else {
        (JsonValue::single(comp, child), ok)
    }
}

/// Recursive set walking `comps` from position `i`.
fn set_components(cur: &mut JsonValue, comps: &Vec<String>, i: usize, new_value: JsonValue) -> (r: Option<
    JsonValue,
>)
    requires
        i < comps@.len(),
    ensures
        final(cur)@ == assign(old(cur)@, json::texts(comps@), i as int, new_value@).0,
        match r {
            Some(v) => assign(old(cur)@, json::texts(comps@), i as int, new_value@).1 && v@
                == new_value@,
            None => !assign(old(cur)@, json::texts(comps@), i as int, new_value@).1,
        },
    decreases comps@.len() - i,
{
    broadcast use crate::laws::insert_twice;

    let comp = comps[i].as_str();
    let last = i == comps.len() - 1;
    if let Some(arr) = cur.as_array_mut() {
        let ghost before = value::views(arr@);
        if *comp == *"-" {
            if last {
                arr.push(new_value.clone());
                assert(value::views(arr@) =~= before.push(new_value@));
                return Some(new_value);
            }
            return None;
        }
        match array_index(comp) {
            Some(n) => {
                if n >= arr.len() as u64 {
                    return None;
                }
                let k: usize = n as usize;
                if last {
                    arr[k] = new_value.clone();
                    assert(value::views(arr@) =~= before.update(k as int, new_value@));
                    return Some(new_value);
                }
                let r = set_components(&mut arr[k], comps, i + 1, new_value);
                assert(value::views(arr@) =~= before.update(k as int, arr@[k as int]@));
                return r;
            },
            None => return None,
        }
    }
    if let Some(map) = cur.as_object_mut() {
        if last {
            map.insert(comp, new_value.clone());
            return Some(new_value);
        }
        if !map.contains_key(comp) {
            let (made, ok) = make_containers(comps, i + 1, new_value.clone());
            map.insert(comp, made);
            return if ok {
                Some(new_value)
            } else {
                None
            };
        }
        if let Some(child) = map.get_mut(comp) {
            let r = set_components(child, comps, i + 1, new_value);
            return r;
        }
        return None;
    }
    None
}

} // verus!
