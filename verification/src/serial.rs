//! JSON and YAML text.
//!
//! The text formats come from `serde_json` and `serde_yaml`. A document goes
//! over to the values of `serde_json` and back one level at a time, and
//! [`document`] names the document that such a value holds.

use vstd::prelude::*;

use crate::json::{self, Json, Members, Num, Text};
use crate::laws;
use crate::number::{self, JsonNumber, Parts};
use crate::value::{self, JsonValue, Object};

verus! {

// --- the values of serde_json ----------------------------------------------

/// A value of `serde_json`.
#[verifier::external_type_specification]
#[verifier::external_body]
pub struct ExJsonValue(serde_json::Value);

/// A number of `serde_json`.
#[verifier::external_type_specification]
#[verifier::external_body]
pub struct ExJsonNumber(serde_json::Number);

/// The document that a `serde_json` value holds.
pub uninterp spec fn document(v: serde_json::Value) -> Json;

/// The number that a `serde_json` number holds.
pub uninterp spec fn held_number(n: serde_json::Number) -> Num;

/// The documents of a sequence of `serde_json` values.
pub open spec fn documents(a: Seq<serde_json::Value>) -> Seq<Json> {
    Seq::new(a.len(), |i: int| document(a[i]))
}

/// The members that a sequence of named `serde_json` values holds.
pub open spec fn document_members(a: Seq<(String, serde_json::Value)>) -> Members {
    Seq::new(a.len(), |i: int| (a[i].0@, document(a[i].1)))
}

/// The members that a sequence of named `serde_json` values holds.
pub open spec fn referenced_members(a: Seq<(&String, &serde_json::Value)>) -> Members {
    Seq::new(a.len(), |i: int| (a[i].0@, document(*a[i].1)))
}

/// A `serde_json` value, opened one level.
pub enum Opened<'a> {
    Null,
    Bool(bool),
    Number(&'a serde_json::Number),
    String(&'a String),
    Array(&'a Vec<serde_json::Value>),
    Object(Vec<(&'a String, &'a serde_json::Value)>),
}

/// The variants of `serde_json::Value`. `serde_json::Map::iter` lists the
/// members in order, and no two share a name.
#[verifier::external_body]
fn open<'a>(v: &'a serde_json::Value) -> (r: Opened<'a>)
    ensures
        match r {
            Opened::Null => document(*v) == Json::Null,
            Opened::Bool(b) => document(*v) == Json::Bool(b),
            Opened::Number(n) => document(*v) == Json::Number(held_number(*n)),
            Opened::String(s) => document(*v) == Json::String(s@),
            Opened::Array(a) => document(*v) == Json::Array(documents(a@)),
            Opened::Object(m) => {
                &&& document(*v) == Json::Object(referenced_members(m@))
                &&& json::distinct(referenced_members(m@))
            },
        },
{
    match v {
        serde_json::Value::Null => Opened::Null,
        serde_json::Value::Bool(b) => Opened::Bool(*b),
        serde_json::Value::Number(n) => Opened::Number(n),
        serde_json::Value::String(s) => Opened::String(s),
        serde_json::Value::Array(a) => Opened::Array(a),
        serde_json::Value::Object(m) => Opened::Object(m.iter().collect()),
    }
}

/// The variants of `serde_json::Number`, told apart by `as_u64` and `as_i64`.
/// Any other number is finite, has the bits that `as_f64` gives and prints as
/// its `Display`.
#[verifier::external_body]
fn open_number(n: &serde_json::Number) -> (r: Parts)
    ensures
        r@ == held_number(*n),
        match r {
            Parts::PosInt(_) => true,
            Parts::NegInt(n) => n < 0,
            Parts::Float { bits, text } => number::finite(bits) && text@ == number::float_text(
                bits,
            ),
        },
{
    match (n.as_u64(), n.as_i64()) {
        (Some(u), _) => Parts::PosInt(u),
        (None, Some(i)) => Parts::NegInt(i),
        (None, None) => Parts::Float {
            bits: n.as_f64().map(|x| x.to_bits()).unwrap_or_default(),
            text: n.to_string(),
        },
    }
}

/// `serde_json::Value::Null` is `null`.
#[verifier::external_body]
fn make_null() -> (r: serde_json::Value)
    ensures
        document(r) == Json::Null,
{
    serde_json::Value::Null
}

/// `serde_json::Value::Bool` holds a boolean.
#[verifier::external_body]
fn make_bool(b: bool) -> (r: serde_json::Value)
    ensures
        document(r) == Json::Bool(b),
{
    serde_json::Value::Bool(b)
}

/// `serde_json::Value::from` of an integer of at least zero holds it as such.
#[verifier::external_body]
fn make_unsigned(n: u64) -> (r: serde_json::Value)
    ensures
        document(r) == Json::Number(Num::PosInt(n)),
{
    serde_json::Value::from(n)
}

/// `serde_json::Value::from` of an integer below zero holds it as such.
#[verifier::external_body]
fn make_negative(n: i64) -> (r: serde_json::Value)
    requires
        n < 0,
    ensures
        document(r) == Json::Number(Num::NegInt(n)),
{
    serde_json::Value::from(n)
}

/// `serde_json::Number::from_f64` holds a finite number. The number is the one
/// that prints as `text`: reading back what a number prints as gives that number.
#[verifier::external_body]
fn make_float(bits: u64, text: &str) -> (r: serde_json::Value)
    requires
        number::finite(bits),
        text@ == number::float_text(bits),
    ensures
        document(r) == Json::Number(Num::Float(bits)),
{
    let number = text.parse().ok().and_then(serde_json::Number::from_f64);
    number.map_or(serde_json::Value::Null, serde_json::Value::Number)
}

/// `serde_json::Value::String` holds a string.
#[verifier::external_body]
fn make_string(s: String) -> (r: serde_json::Value)
    ensures
        document(r) == Json::String(s@),
{
    serde_json::Value::String(s)
}

/// `serde_json::Value::Array` holds its elements in order.
#[verifier::external_body]
fn make_array(a: Vec<serde_json::Value>) -> (r: serde_json::Value)
    ensures
        document(r) == Json::Array(documents(a@)),
{
    serde_json::Value::Array(a)
}

/// Collecting members with distinct names into a `serde_json::Map` keeps them
/// in order.
#[verifier::external_body]
fn make_object(m: Vec<(String, serde_json::Value)>) -> (r: serde_json::Value)
    requires
        json::distinct(document_members(m@)),
    ensures
        document(r) == Json::Object(document_members(m@)),
{
    serde_json::Value::Object(m.into_iter().collect())
}

// --- going over ------------------------------------------------------------

/// The `serde_json` value that holds the document `v`.
pub fn to_serde(v: &JsonValue) -> (r: serde_json::Value)
    ensures
        document(r) == v@,
    decreases v,
{
    broadcast use value::array_view;

    match v {
        JsonValue::Null => make_null(),
        JsonValue::Bool(b) => make_bool(*b),
        JsonValue::Number(n) => match n.parts() {
            Parts::PosInt(n) => make_unsigned(*n),
            Parts::NegInt(n) => make_negative(*n),
            Parts::Float { bits, text } => make_float(*bits, text.as_str()),
        },
        JsonValue::String(s) => make_string(s.clone()),
        JsonValue::Array(a) => {
            let mut out: Vec<serde_json::Value> = Vec::new();
            let mut i: usize = 0;
            while i < a.len()
                invariant
                    i <= a@.len(),
                    *v == JsonValue::Array(*a),
                    out@.len() == i,
                    forall|j: int| 0 <= j < i ==> document(#[trigger] out@[j]) == a@[j]@,
                decreases a@.len() - i,
            {
                assert(decreases_to!(*v => v->Array_0@[i as int]));
                out.push(to_serde(&a[i]));
                i += 1;
            }
            assert(documents(out@) =~= value::views(a@));
            make_array(out)
        },
        JsonValue::Object(m) => {
            let mut out: Vec<(String, serde_json::Value)> = Vec::new();
            let n: usize = m.len();
            let mut i: usize = 0;
            while i < n
                invariant
                    i <= n,
                    n == m@.len(),
                    *v == JsonValue::Object(*m),
                    out@.len() == i,
                    forall|j: int|
                        0 <= j < i ==> (#[trigger] out@[j]).0@ == m@[j].0 && document(out@[j].1)
                            == m@[j].1,
                decreases n - i,
            {
                let member = m.value_at(i);
                assert(decreases_to!(*v => *member)) by {
                    value::member_decreases(*m, *member);
                }
                out.push((m.key_at(i).clone(), to_serde(member)));
                i += 1;
            }
            assert(document_members(out@) =~= m@);
            make_object(out)
        },
    }
}

/// The document that a `serde_json` value holds.
pub fn from_serde(v: &serde_json::Value) -> (r: JsonValue)
    ensures
        r@ == document(*v),
    decreases json::height(document(*v)),
{
    match open(v) {
        Opened::Null => JsonValue::Null,
        Opened::Bool(b) => JsonValue::Bool(b),
        Opened::Number(n) => JsonValue::Number(JsonNumber::from_parts(open_number(n))),
        Opened::String(s) => JsonValue::String(s.clone()),
        Opened::Array(a) => {
            let mut out: Vec<JsonValue> = Vec::new();
            let mut i: usize = 0;
            while i < a.len()
                invariant
                    i <= a@.len(),
                    document(*v) == Json::Array(documents(a@)),
                    out@.len() == i,
                    forall|j: int| 0 <= j < i ==> (#[trigger] out@[j])@ == document(a@[j]),
                decreases a@.len() - i,
            {
                proof {
                    laws::element_is_lower(documents(a@), i as int);
                }
                out.push(from_serde(&a[i]));
                i += 1;
            }
            assert(value::views(out@) =~= documents(a@));
            JsonValue::array(out)
        },
        Opened::Object(m) => {
            let ghost all = referenced_members(m@);
            let mut out = Object::new();
            let mut i: usize = 0;
            while i < m.len()
                invariant
                    i <= m@.len(),
                    all == referenced_members(m@),
                    document(*v) == Json::Object(all),
                    json::distinct(all),
                    out@ == all.take(i as int),
                decreases m@.len() - i,
            {
                proof {
                    laws::index_is_first(all, all[i as int].0, 0, i as int);
                    laws::member_is_lower(all, all[i as int].0);
                    laws::new_name(all, i as int);
                    assert(all.take(i + 1) =~= all.take(i as int).push(all[i as int]));
                }
                out.insert(m[i].0.as_str(), from_serde(m[i].1));
                i += 1;
            }
            assert(all.take(m@.len() as int) =~= all);
            JsonValue::Object(out)
        },
    }
}

// --- JSON text -------------------------------------------------------------

/// The text that `serde_json` writes for a document.
pub uninterp spec fn json_text(j: Json) -> Text;

/// `serde_json::to_string` writes a document as compact JSON.
#[verifier::external_body]
fn write_json(v: &serde_json::Value) -> (r: String)
    ensures
        r@ == json_text(document(*v)),
{
    serde_json::to_string(v).unwrap_or_default()
}

/// The JSON text of a document.
pub fn to_json_text(v: &JsonValue) -> (r: String)
    ensures
        r@ == json_text(v@),
{
    write_json(&to_serde(v))
}

/// The document that `serde_json` reads from a text.
pub uninterp spec fn json_read(s: Text) -> Option<Json>;

/// `serde_json::from_str` reads a JSON text. It fails on any other text.
#[verifier::external_body]
fn read_json(s: &str) -> (r: Option<serde_json::Value>)
    ensures
        match r {
            Some(v) => json_read(s@) == Some(document(v)),
            None => json_read(s@) is None,
        },
{
    serde_json::from_str(s).ok()
}

/// The document of a JSON text.
pub fn from_json_text(s: &str) -> (r: Option<JsonValue>)
    ensures
        match r {
            Some(v) => json_read(s@) == Some(v@),
            None => json_read(s@) is None,
        },
{
    match read_json(s) {
        Some(v) => Some(from_serde(&v)),
        None => None,
    }
}

// --- the values of serde_yaml ----------------------------------------------

/// A YAML document. A number is given by its value, when that is finite, and by
/// the text that it prints as.
pub enum Yaml {
    Null,
    Bool(bool),
    Number(Option<Num>, Text),
    String(Text),
    Sequence(Seq<Yaml>),
    Mapping(Seq<(Yaml, Yaml)>),
    Tagged(Text, Box<Yaml>),
}

/// A value of `serde_yaml`.
#[verifier::external_type_specification]
#[verifier::external_body]
pub struct ExYamlValue(serde_yaml::Value);

/// A number of `serde_yaml`.
#[verifier::external_type_specification]
#[verifier::external_body]
pub struct ExYamlNumber(serde_yaml::Number);

/// An error of `serde_yaml`.
#[verifier::external_type_specification]
#[verifier::external_body]
pub struct ExYamlError(serde_yaml::Error);

/// The document that a `serde_yaml` value holds.
pub uninterp spec fn yaml_document(v: serde_yaml::Value) -> Yaml;

/// The value of a `serde_yaml` number, when that is finite, and the text that it
/// prints as.
pub uninterp spec fn yaml_number(n: serde_yaml::Number) -> (Option<Num>, Text);

/// The documents of a sequence of `serde_yaml` values.
pub open spec fn yaml_documents(a: Seq<serde_yaml::Value>) -> Seq<Yaml> {
    Seq::new(a.len(), |i: int| yaml_document(a[i]))
}

/// The entries of a mapping.
pub open spec fn yaml_entries(a: Seq<(&serde_yaml::Value, &serde_yaml::Value)>) -> Seq<
    (Yaml, Yaml),
> {
    Seq::new(a.len(), |i: int| (yaml_document(*a[i].0), yaml_document(*a[i].1)))
}

/// A `serde_yaml` value, opened one level.
pub enum OpenedYaml<'a> {
    Null,
    Bool(bool),
    Number(&'a serde_yaml::Number),
    String(&'a String),
    Sequence(&'a Vec<serde_yaml::Value>),
    Mapping(Vec<(&'a serde_yaml::Value, &'a serde_yaml::Value)>),
    Tagged(String, &'a serde_yaml::Value),
}

/// The variants of `serde_yaml::Value`. `serde_yaml::Mapping::iter` lists the
/// entries in order. A tag is given as its `Display`.
#[verifier::external_body]
pub(crate) fn open_yaml<'a>(v: &'a serde_yaml::Value) -> (r: OpenedYaml<'a>)
    ensures
        match r {
            OpenedYaml::Null => yaml_document(*v) == Yaml::Null,
            OpenedYaml::Bool(b) => yaml_document(*v) == Yaml::Bool(b),
            OpenedYaml::Number(n) => yaml_document(*v) == Yaml::Number(
                yaml_number(*n).0,
                yaml_number(*n).1,
            ),
            OpenedYaml::String(s) => yaml_document(*v) == Yaml::String(s@),
            OpenedYaml::Sequence(a) => yaml_document(*v) == Yaml::Sequence(yaml_documents(a@)),
            OpenedYaml::Mapping(m) => yaml_document(*v) == Yaml::Mapping(yaml_entries(m@)),
            OpenedYaml::Tagged(tag, t) => yaml_document(*v) == Yaml::Tagged(
                tag@,
                Box::new(yaml_document(*t)),
            ),
        },
{
    match v {
        serde_yaml::Value::Null => OpenedYaml::Null,
        serde_yaml::Value::Bool(b) => OpenedYaml::Bool(*b),
        serde_yaml::Value::Number(n) => OpenedYaml::Number(n),
        serde_yaml::Value::String(s) => OpenedYaml::String(s),
        serde_yaml::Value::Sequence(a) => OpenedYaml::Sequence(a),
        serde_yaml::Value::Mapping(m) => OpenedYaml::Mapping(m.iter().collect()),
        serde_yaml::Value::Tagged(t) => OpenedYaml::Tagged(t.tag.to_string(), &t.value),
    }
}

/// The integer that a `serde_yaml` number is, told apart by `as_u64` and
/// `as_i64`, or the `serde_json` number that `serde_json::Number::from_f64` makes
/// of a finite `as_f64`. An infinite number and a NaN have no value.
#[verifier::external_body]
fn open_yaml_number(n: &serde_yaml::Number) -> (r: Option<serde_json::Number>)
    ensures
        match r {
            Some(x) => yaml_number(*n).0 == Some(held_number(x)),
            None => yaml_number(*n).0 is None,
        },
{
    match (n.as_u64(), n.as_i64()) {
        (Some(u), _) => Some(serde_json::Number::from(u)),
        (None, Some(i)) => Some(serde_json::Number::from(i)),
        (None, None) => n.as_f64().and_then(serde_json::Number::from_f64),
    }
}

/// `serde_yaml::Number` prints as its `Display`.
#[verifier::external_body]
pub(crate) fn yaml_number_text(n: &serde_yaml::Number) -> (r: String)
    ensures
        r@ == yaml_number(*n).1,
{
    n.to_string()
}

/// The value of a `serde_yaml` number, when that is finite.
pub(crate) fn from_yaml_number(n: &serde_yaml::Number) -> (r: Option<JsonNumber>)
    ensures
        match r {
            Some(x) => yaml_number(*n).0 == Some(x@),
            None => yaml_number(*n).0 is None,
        },
{
    match open_yaml_number(n) {
        Some(x) => Some(JsonNumber::from_parts(open_number(&x))),
        None => None,
    }
}

// --- YAML text -------------------------------------------------------------

/// The text that `serde_yaml` writes for a JSON document.
pub uninterp spec fn yaml_text(j: Json) -> Text;

/// `serde_yaml::to_string` writes a document as YAML.
#[verifier::external_body]
fn write_yaml(v: &serde_json::Value) -> (r: String)
    ensures
        r@ == yaml_text(document(*v)),
{
    serde_yaml::to_string(v).unwrap_or_default()
}

/// The YAML text of a document.
pub fn to_yaml_text(v: &JsonValue) -> (r: String)
    ensures
        r@ == yaml_text(v@),
{
    write_yaml(&to_serde(v))
}

/// The text that `serde_yaml` writes for a YAML document.
pub uninterp spec fn yaml_source(y: Yaml) -> Text;

/// `serde_yaml::to_string` writes a value as YAML.
#[verifier::external_body]
pub(crate) fn write_yaml_value(v: &serde_yaml::Value) -> (r: String)
    ensures
        r@ == yaml_source(yaml_document(*v)),
{
    serde_yaml::to_string(v).unwrap_or_default()
}

/// The message of a `serde_yaml` error.
pub uninterp spec fn yaml_message(e: serde_yaml::Error) -> Text;

/// `serde_yaml::Error` prints as its `Display`.
#[verifier::external_body]
pub(crate) fn describe_yaml_error(e: &serde_yaml::Error) -> (r: String)
    ensures
        r@ == yaml_message(*e),
{
    e.to_string()
}

/// The document that `serde_yaml` reads from a text, or the message of the error.
pub uninterp spec fn yaml_read(s: Text) -> Result<Yaml, Text>;

/// `serde_yaml::from_str` reads a YAML text. It fails on any other text.
#[verifier::external_body]
pub(crate) fn read_yaml(s: &str) -> (r: Result<serde_yaml::Value, serde_yaml::Error>)
    ensures
        match r {
            Ok(v) => yaml_read(s@) == Ok::<Yaml, Text>(yaml_document(v)),
            Err(e) => yaml_read(s@) == Err::<Yaml, Text>(yaml_message(e)),
        },
{
    serde_yaml::from_str(s)
}

} // verus!
