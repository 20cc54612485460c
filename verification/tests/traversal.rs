//! Depth-first traversal.

use swagger2openapi::json::{Json, Text};
use swagger2openapi::recurse::{is_ref, recurse, RecurseState, Visitor};
use swagger2openapi::serial::from_json_text;
use swagger2openapi::value::JsonValue;

/// The value of a JSON text.
fn json(text: &str) -> JsonValue {
    from_json_text(text).expect("a JSON text")
}

/// A visitor that notes the keys and paths it sees.
struct Notes {
    seen: Vec<(String, String)>,
}

impl Visitor for Notes {
    type State = usize;

    fn state(&self) -> usize {
        unreachable!()
    }

    fn visited(_state: usize, _container: Json, _key: Text, _path: Text) -> (usize, Json) {
        unreachable!()
    }

    fn visit_is_bounded(_state: usize, _container: Json, _key: Text, _path: Text) {
        unreachable!()
    }

    fn visit(&mut self, _container: &mut JsonValue, key: &str, state: &RecurseState) {
        self.seen.push((key.to_string(), state.path.clone()));
    }
}

/// A visitor that deletes the member `a`.
struct Deleter {}

impl Visitor for Deleter {
    type State = usize;

    fn state(&self) -> usize {
        unreachable!()
    }

    fn visited(_state: usize, _container: Json, _key: Text, _path: Text) -> (usize, Json) {
        unreachable!()
    }

    fn visit_is_bounded(_state: usize, _container: Json, _key: Text, _path: Text) {
        unreachable!()
    }

    fn visit(&mut self, container: &mut JsonValue, key: &str, _state: &RecurseState) {
        if key == "a" {
            container.as_object_mut().unwrap().remove("a");
        }
    }
}

#[test]
fn visits_in_order_with_paths() {
    let mut input = json(r##"{
        "container": {
            "child": { "value": true, "string": "1234" },
            "child2": { "value": false, "{id}": { "test": "abc" } }
        }
    }"##);
    let mut notes = Notes { seen: Vec::new() };
    recurse(&mut input, "#", &mut notes);
    let seen = notes.seen;
    assert_eq!(seen.len(), 8);
    assert_eq!(seen[0], ("container".into(), "#/container".into()));
    // The path includes the current key.
    assert_eq!(
        seen[7],
        ("test".into(), "#/container/child2/%7Bid%7D/test".into())
    );
}

#[test]
fn does_not_traverse_scalars() {
    let mut notes = Notes { seen: Vec::new() };
    for mut v in [json(r##""hello""##), json(r##"true"##), json(r##"1"##), json(r##"null"##)] {
        recurse(&mut v, "#", &mut notes);
    }
    assert_eq!(notes.seen.len(), 0);
}

#[test]
fn traverses_arrays() {
    let mut notes = Notes { seen: Vec::new() };
    let mut v = json(r##"[0, 1, 2]"##);
    recurse(&mut v, "#", &mut notes);
    assert_eq!(notes.seen.len(), 3);
}

#[test]
fn callback_can_delete() {
    let mut v = json(r##"{ "a": 1, "b": 2 }"##);
    recurse(&mut v, "#", &mut Deleter {});
    assert_eq!(v, json(r##"{ "b": 2 }"##));
}

#[test]
fn is_ref_detects_string_ref() {
    assert!(is_ref(&json(r##"{ "$ref": "#/" }"##), "$ref"));
    assert!(!is_ref(&json(r##"{ "$ref": true }"##), "$ref"));
    assert!(!is_ref(&json(r##"{ "x": "y" }"##), "$ref"));
}
