//! The laws of text, pointers, traversal and repair on concrete values.

use swagger2openapi::common::{
    decode_uri_component, encode_uri_component, hash, to_camel_case,
};
use swagger2openapi::fixup::fix_up_sub_schema;
use swagger2openapi::jptr::{components, get, jpescape, Pointer};
use swagger2openapi::json::{Json, Text};
use swagger2openapi::recurse::{recurse, RecurseState, Visitor};
use swagger2openapi::serial::from_json_text;
use swagger2openapi::value::JsonValue;
use swagger2openapi::yaml::has_alias;
use swagger2openapi::{convert_obj, Options};

/// The value of a JSON text.
fn json(text: &str) -> JsonValue {
    from_json_text(text).expect("a JSON text")
}

#[test]
fn hashes_of_texts_in_a_row() {
    for (a, b) in [("", ""), ("abc", "def"), ("x", "\u{1f600}y"), ("{\"k\":1}", "ü"), ("zzzzzzzzz", "zzzzzzz")] {
        let units = b.encode_utf16().count() as u32;
        let expected = hash(a).wrapping_mul(31i32.wrapping_pow(units)).wrapping_add(hash(b));
        assert_eq!(hash(&format!("{a}{b}")), expected);
    }
    assert_eq!(hash("a"), 97);
    assert_eq!(hash("\u{ffff}"), 0xffff);
}

#[test]
fn every_separator_is_dropped() {
    assert_eq!(to_camel_case("a--b"), "aB");
    assert_eq!(to_camel_case("get_pets_{id}_"), "getPets{id}");
    assert_eq!(to_camel_case("get__pets___by-/.id"), "getPetsById");
    assert_eq!(to_camel_case("--"), "");
    assert_eq!(to_camel_case("_"), "");
    assert_eq!(to_camel_case("AddPet item"), "addpetItem");
    assert_eq!(to_camel_case("a_1b"), "a1b");
    assert_eq!(to_camel_case("straße_ärger"), "straßeÄrger");
    for s in ["Foo-Bar baz", "a.b/c_d", "x__Y"] {
        assert_eq!(to_camel_case(&s.to_ascii_uppercase()), to_camel_case(s));
    }
}

#[test]
fn body_names_lose_every_separator() {
    let mut options = Options::new();
    let op = r#"{ "parameters": [ { "in": "formData", "name": "b", "type": "string" } ], "responses": { "200": { "description": "ok" } } }"#;
    let input = json(
        &r#"{ "swagger": "2.0", "info": { "title": "T", "version": "1" },
              "paths": { "/a/{x}/b": { "post": OP, "put": OP } } }"#
            .replace("OP", op),
    );
    convert_obj(&input, &mut options).unwrap();
    let bodies = get(&options.openapi, "#/components/requestBodies").unwrap();
    assert_eq!(bodies.as_object().unwrap().keys(), vec!["postAXB"]);
}

#[test]
fn values_are_written_into_arrays_that_are_made() {
    let mut doc = json("{}");
    let set = swagger2openapi::jptr::set(&mut doc, "#/newly/created/0", json(r#""x""#));
    assert_eq!(set, Some(json(r#""x""#)));
    assert_eq!(doc, json(r#"{ "newly": { "created": ["x"] } }"#));
    assert_eq!(get(&doc, "#/newly/created/0"), Some(&json(r#""x""#)));
    swagger2openapi::jptr::set(&mut doc, "#/newly/made/-", json("1")).unwrap();
    assert_eq!(get(&doc, "#/newly/made"), Some(&json("[1]")));
    swagger2openapi::jptr::set(&mut doc, "#/deep/0/0/k", json("2")).unwrap();
    assert_eq!(get(&doc, "#/deep"), Some(&json(r#"[[{ "k": 2 }]]"#)));
    // An array that was there is not made longer, and `-` has no place to go on from.
    let mut doc = json(r#"{ "l": [] }"#);
    assert_eq!(swagger2openapi::jptr::set(&mut doc, "#/l/0", json("1")), None);
    assert_eq!(doc, json(r#"{ "l": [] }"#));
    assert_eq!(swagger2openapi::jptr::set(&mut doc, "#/m/-/x", json("1")), None);
    assert_eq!(doc, json(r#"{ "l": [], "m": [] }"#));
}

#[test]
fn matches_stay_and_name_an_anchor() {
    let text = "a: &x 1\nb: *x";
    assert!(has_alias(text));
    for more in ["", "# *y", "c: &y 2\nd: *z", "'"] {
        assert!(has_alias(&format!("{text}\n{more}")));
    }
    assert!(!has_alias("a: &x 1\nb: *y"));
    assert!(!has_alias("a: & 1\nb: * 2"));
}

/// The components of a pointer to a path.
fn parts(pointer: &str) -> Vec<String> {
    match components(pointer) {
        Pointer::Path(p) => p,
        _ => panic!("no path: {pointer}"),
    }
}

#[test]
fn pointers_have_three_outcomes() {
    assert!(matches!(components(""), Pointer::Whole));
    assert!(matches!(components("#"), Pointer::Whole));
    assert!(matches!(components("other#/a"), Pointer::External));
    assert!(matches!(components("/a#"), Pointer::External));
    for keys in [vec!["a", "b"], vec!["", "x"], vec!["a/b~c", "%41", "+"], vec![""]] {
        let escaped: Vec<String> = keys.iter().map(|k| jpescape(k)).collect();
        assert_eq!(parts(&format!("/{}", escaped.join("/"))), keys);
    }
    assert_eq!(parts("#/%41+b"), vec!["A+b"]);
}

#[test]
fn encoded_texts_use_their_alphabet() {
    for s in ["", "a b", "ü+%~'()*!", "日本\u{1f600}", "\u{0}"] {
        let e = encode_uri_component(s);
        assert_eq!(decode_uri_component(&e), s);
        assert!(e.chars().all(|c| c.is_ascii_alphanumeric() || "-_.!~*'()%".contains(c)));
        for (i, _) in e.match_indices('%') {
            let hex = &e[i + 1..i + 3];
            assert!(hex.chars().all(|c| c.is_ascii_digit() || ('A'..='F').contains(&c)));
        }
    }
    for s in ["a+b", "日本", "%", "50% off", "%g0%4", "%2"] {
        assert_eq!(decode_uri_component(s), s);
    }
    assert_eq!(decode_uri_component("%zz%41"), "%zzA");
}

/// A visitor that notes each visit.
struct Visits {
    seen: Vec<(String, String, JsonValue)>,
}

impl Visitor for Visits {
    type State = usize;

    fn state(&self) -> usize {
        unreachable!()
    }

    fn visited(_state: usize, _container: Json, _key: Text, _path: Text) -> (usize, Json) {
        unreachable!()
    }

    fn visit_is_bounded(_state: usize, _container: Json, _key: Text, _path: Text) {
        unreachable!()
    }

    fn visit(&mut self, container: &mut JsonValue, key: &str, state: &RecurseState) {
        let value = match container {
            JsonValue::Array(a) => a[key.parse::<usize>().unwrap()].clone(),
            _ => container.get(key).unwrap().clone(),
        };
        self.seen.push((key.to_string(), state.path.clone(), value));
    }
}

#[test]
fn each_key_is_visited_once() {
    let mut doc = json(r#"{ "b": [ { "x": 1 }, [] ], "a": { "y": { "z": null } }, "": 2 }"#);
    let before = doc.clone();
    let mut visits = Visits { seen: Vec::new() };
    recurse(&mut doc, "#", &mut visits);
    assert_eq!(doc, before);
    let keys: Vec<&str> = visits.seen.iter().map(|v| v.0.as_str()).collect();
    assert_eq!(keys, vec!["b", "0", "x", "1", "a", "y", "z", ""]);
    for (i, (_, path, value)) in visits.seen.iter().enumerate() {
        assert_eq!(get(&doc, path), Some(value), "{path}");
        assert!(visits.seen[..i].iter().all(|v| v.1 != *path));
    }
    let mut scalar = json("3");
    let mut none = Visits { seen: Vec::new() };
    recurse(&mut scalar, "#", &mut none);
    assert!(none.seen.is_empty());
}

#[test]
fn repaired_keywords_stay_repaired() {
    let mut options = Options::new();
    options.patch = true;
    for (given, expected) in [
        (
            r#"{ "type": ["string", "null"], "items": [ { "a": 1 }, {} ], "discriminator": "d" }"#,
            r#"{ "type": "string", "nullable": true, "items": { "anyOf": [ { "a": 1 }, {} ] }, "discriminator": { "propertyName": "d" } }"#,
        ),
        (
            r#"{ "type": ["string", "array"], "required": true, "allowEmptyValue": 1 }"#,
            r#"{ "oneOf": [ { "type": "string" }, { "type": "array" } ] }"#,
        ),
        (
            r#"{ "type": ["array"], "xml": { "namespace": "", "name": "n" } }"#,
            r#"{ "type": "array", "items": {}, "xml": { "name": "n" } }"#,
        ),
        (r#"{ "type": ["null"], "x-not": {} }"#, r#"{ "nullable": true, "x-not": {} }"#),
        (r#"{ "type": [], "items": [ { "k": 2 } ] }"#, r#"{ "items": { "k": 2 } }"#),
        (r#"{ "type": ["file"] }"#, r#"{ "type": "string", "format": "binary" }"#),
    ] {
        let mut schema = json(given);
        fix_up_sub_schema(&mut schema, None, &mut options).unwrap();
        assert_eq!(schema, json(expected), "{given}");
        fix_up_sub_schema(&mut schema, None, &mut options).unwrap();
        assert_eq!(schema, json(expected), "{given}");
    }
}

#[test]
fn patch_and_warn_only_cover_every_problem() {
    let input = json(
        r##"{
            "swagger": "2.0",
            "info": { "title": "T", "version": 1, "logo": "l" },
            "paths": {
                "/p/{id}": {
                    "get": {
                        "consumes": "application/json",
                        "parameters": [
                            { "name": "id", "in": "path", "type": ["string", "null"] },
                            { "name": "h", "in": "header", "type": "array", "collectionFormat": "ssv" },
                            { "$ref": "#/parameters/none" }
                        ],
                        "responses": { "200": { "headers": { "Status Code": { "type": "string" } } } }
                    }
                }
            }
        }"##,
    );
    for (patch, warn_only) in [(false, false), (false, true), (true, false), (true, true)] {
        let mut options = Options::new();
        options.patch = patch;
        options.warn_only = warn_only;
        match convert_obj(&input, &mut options) {
            Ok(_) => assert!(patch && warn_only),
            Err(e) => {
                let patchable = e.message.starts_with("(Patchable) ");
                assert!(if patchable { !patch } else { !warn_only });
            }
        }
    }
    for refused in [r#"{ "swagger": "1.2" }"#, r#"{ "openapi": "2.0" }"#, "null"] {
        let mut options = Options::new();
        options.patch = true;
        options.warn_only = true;
        let e = convert_obj(&json(refused), &mut options).unwrap_err();
        assert!(e.message.starts_with("Unsupported swagger/OpenAPI version: "));
    }
    let plain = json(r#"{ "swagger": "2.0", "info": { "title": "T", "version": "1" }, "paths": {} }"#);
    let mut options = Options::new();
    options.patch = true;
    options.warn_only = true;
    options.resolve = true;
    assert_eq!(
        convert_obj(&plain, &mut options).unwrap_err().message,
        "resolve requires options.source"
    );
}
