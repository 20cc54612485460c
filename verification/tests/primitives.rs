//! Unit tests for the JSON pointer, clone, recurse, and is_ref primitives.
//!
//! These guard the building blocks that the `$ref` rewriting core depends on.

use swagger2openapi::clone::clone;
use swagger2openapi::jptr::{get, jpescape, jpunescape};
use swagger2openapi::json::{Json, Text};
use swagger2openapi::recurse::{is_ref, recurse, RecurseState, Visitor};
use swagger2openapi::serial::from_json_text;
use swagger2openapi::value::JsonValue;

/// The value of a JSON text.
fn json(text: &str) -> JsonValue {
    from_json_text(text).expect("a JSON text")
}

/// A visitor that counts its visits.
struct Counter {
    count: usize,
}

impl Visitor for Counter {
    type State = usize;

    fn state(&self) -> usize {
        unreachable!()
    }

    fn visited(_state: usize, _container: Json, _key: Text, _path: Text) -> (usize, Json) {
        unreachable!()
    }

    fn visit_is_bounded(_state: usize, _container: Json, _key: Text, _path: Text) {
        unreachable!()
    }

    fn visit(&mut self, _container: &mut JsonValue, _key: &str, _state: &RecurseState) {
        self.count += 1;
    }
}

/// The rich fixture object with tricky keys.
fn fixture() -> JsonValue {
    json(r##"{
        "name": "obj",
        "x/y": "x",
        "~": "tilde",
        "#": { "": true },
        "400WithDocument": true,
        "array": ["b"],
        "children": [
            { "$ref": "#/definitions/Child" },
            { "name": "SecondChild", "age": 4 }
        ],
        "definitions": {
            "Child": { "name": "FirstChild", "age": 6 },
            "-": { "value": true }
        }
    }"##)
}

#[test]
fn jptr_custom_and_negative() {
    let obj = fixture();
    assert_eq!(get(&obj, "#/name"), Some(&json(r##""obj""##)));
    assert_eq!(get(&obj, "#/name/-"), None); // not an array
    assert_eq!(get(&obj, "#/age"), None);
    assert_eq!(get(&obj, "#/x/y"), None); // x has no member y
    assert_eq!(get(&obj, "#/x~1y"), Some(&json(r##""x""##)));
    assert_eq!(get(&obj, "#/~"), Some(&json(r##""tilde""##)));
    assert_eq!(get(&obj, "#/~0"), Some(&json(r##""tilde""##)));
    assert_eq!(get(&obj, "#/children/1/name"), Some(&json(r##""SecondChild""##)));
    assert_eq!(
        get(&obj, "#/children/0/$ref"),
        Some(&json(r##""#/definitions/Child""##))
    );
    assert_eq!(get(&obj, "#/children/2"), None);
    assert_eq!(get(&obj, "#/400WithDocument"), Some(&json(r##"true"##)));
    assert_eq!(get(&obj, "#/definitions/-/value"), Some(&json(r##"true"##)));
}

#[test]
fn jptr_set_creates_paths() {
    let mut obj = fixture();
    assert_eq!(
        swagger2openapi::jptr::set(&mut obj, "#/not/there/yet", json(r##""hello""##)),
        Some(json(r##""hello""##))
    );
    assert_eq!(get(&obj, "#/not/there/yet"), Some(&json(r##""hello""##)));
    swagger2openapi::jptr::set(&mut obj, "#/newly/created/0", json(r##""goodbye""##));
    assert!(get(&obj, "#/newly/created").unwrap().is_array());
    swagger2openapi::jptr::set(&mut obj, "#/newly/made/-", json(r##""sailor""##));
    assert!(get(&obj, "#/newly/made").unwrap().is_array());
}

#[test]
fn jptr_array_mutation() {
    let mut obj = fixture();
    assert_eq!(get(&obj, "#/array/0"), Some(&json(r##""b""##)));
    swagger2openapi::jptr::set(&mut obj, "#/array/0", json(r##""c""##));
    assert_eq!(get(&obj, "#/array/0"), Some(&json(r##""c""##)));
    assert_eq!(get(&obj, "#/array/1"), None);
    swagger2openapi::jptr::set(&mut obj, "#/array/-", json(r##""d""##));
    assert_eq!(get(&obj, "#/array/1"), Some(&json(r##""d""##)));
}

#[test]
fn jptr_undefined_obj() {
    // An undefined value is modeled as the absence of a value, which yields a
    // miss for any pointer.
    let obj = JsonValue::Null;
    assert_eq!(get(&obj, "#/anything"), None);
}

#[test]
fn jptr_rfc6901() {
    let doc = json(r##"{
        "foo": ["bar", "baz"],
        "": 0,
        "a/b": 1,
        "c%d": 2,
        "e^f": 3,
        "g|h": 4,
        "i\\j": 5,
        "k\"l": 6,
        " ": 7,
        "m~n": 8
    }"##);
    assert_eq!(get(&doc, ""), Some(&doc));
    assert_eq!(get(&doc, "/foo"), Some(&json(r##"["bar", "baz"]"##)));
    assert_eq!(get(&doc, "/foo/0"), Some(&json(r##""bar""##)));
    assert_eq!(get(&doc, "/"), Some(&json(r##"0"##)));
    assert_eq!(get(&doc, "/a~1b"), Some(&json(r##"1"##)));
    assert_eq!(get(&doc, "/c%d"), Some(&json(r##"2"##)));
    assert_eq!(get(&doc, "/e^f"), Some(&json(r##"3"##)));
    assert_eq!(get(&doc, "/g|h"), Some(&json(r##"4"##)));
    assert_eq!(get(&doc, "/i\\j"), Some(&json(r##"5"##)));
    assert_eq!(get(&doc, "/k\"l"), Some(&json(r##"6"##)));
    assert_eq!(get(&doc, "/ "), Some(&json(r##"7"##)));
    assert_eq!(get(&doc, "/m~0n"), Some(&json(r##"8"##)));
}

#[test]
fn jptr_json_reference_rfc6901() {
    let doc = json(r##"{
        "foo": ["bar", "baz"],
        "": 0,
        "c%d": 2,
        "e^f": 3,
        "g|h": 4,
        " ": 7,
        "m~n": 8
    }"##);
    assert_eq!(get(&doc, "#"), Some(&doc));
    assert_eq!(get(&doc, "#/foo/0"), Some(&json(r##""bar""##)));
    assert_eq!(get(&doc, "#/"), Some(&json(r##"0"##)));
    assert_eq!(get(&doc, "#/c%25d"), Some(&json(r##"2"##)));
    assert_eq!(get(&doc, "#/e%5Ef"), Some(&json(r##"3"##)));
    assert_eq!(get(&doc, "#/g%7Ch"), Some(&json(r##"4"##)));
    assert_eq!(get(&doc, "#/%20"), Some(&json(r##"7"##)));
    assert_eq!(get(&doc, "#/m~0n"), Some(&json(r##"8"##)));
}

#[test]
fn jptr_endpointer() {
    let obj = fixture();
    assert_eq!(get(&obj, "/#/"), None); // external reference to uri /
    assert_eq!(get(&obj, "#/%23/"), Some(&json(r##"true"##))); // %-encoded # in fragment
}

#[test]
fn jptr_top_level_mutation() {
    let mut o = json(r##"{ "hello": "sailor" }"##);
    let n = json(r##"{ "hello": "dolly" }"##);
    assert_eq!(swagger2openapi::jptr::set(&mut o, "", n.clone()), Some(n.clone()));
    assert_eq!(o, n);
}

#[test]
fn primitives_escape_round_trip() {
    assert_eq!(jpescape("a/b~c"), "a~1b~0c");
    assert_eq!(jpunescape("a~1b~0c"), "a/b~c");
}

#[test]
fn clone_is_deep() {
    let input = json(r##"{ "container": { "child": { "value": true } } }"##);
    let output = clone(&input);
    assert_eq!(output, input);
}

#[test]
fn recurse_visits_every_property() {
    let input = json(r##"{ "container": { "child": { "value": true } } }"##);
    let mut counter = Counter { count: 0 };
    let mut v = input;
    recurse(&mut v, "#", &mut counter);
    assert_eq!(counter.count, 3);
}

#[test]
fn is_ref_basic() {
    let simple = json(r##"{ "$ref": "#/" }"##);
    let extended = json(r##"{ "$ref": "#/", "description": "desc" }"##);
    let wrong_type = json(r##"{ "$ref": true }"##);
    assert!(is_ref(&simple, "$ref"));
    assert!(is_ref(&extended, "$ref"));
    assert!(!is_ref(&simple, "description"));
    assert!(!is_ref(&extended, "description"));
    assert!(!is_ref(&wrong_type, "$ref"));
    assert!(!is_ref(&JsonValue::Null, "$ref"));
}

