//! The laws of the library on concrete values.

use swagger2openapi::clone::circular_clone;
use swagger2openapi::common::{
    decode_uri_component, encode_uri_component, sanitise, sanitise_all, unique_only,
};
use swagger2openapi::convert::cache::RbCache;
use swagger2openapi::error::warn_or_error;
use swagger2openapi::jptr::{get, jpescape, jpunescape};
use swagger2openapi::json::{Json, Text};
use swagger2openapi::recurse::{recurse, RecurseState, Visitor};
use swagger2openapi::serial::from_json_text;
use swagger2openapi::status_codes::reason_phrase;
use swagger2openapi::value::{JsonValue, Object};
use swagger2openapi::{convert_obj, Options, RefSiblings};

/// The value of a JSON text.
fn json(text: &str) -> JsonValue {
    from_json_text(text).expect("a JSON text")
}

#[test]
fn written_values_are_read_back() {
    let mut doc = json(r#"{ "a": { "b": [1, 2] } }"#);
    for pointer in ["#/a/b/1", "#/a/x~1y", "/new/deep/path", "#/a/%25", "#/", ""] {
        let set = swagger2openapi::jptr::set(&mut doc, pointer, json(r#"{ "k": 7 }"#));
        assert_eq!(set, Some(json(r#"{ "k": 7 }"#)), "{pointer}");
        assert_eq!(get(&doc, pointer), Some(&json(r#"{ "k": 7 }"#)), "{pointer}");
    }
}

#[test]
fn appended_values_are_last() {
    let mut doc = json(r#"{ "a": { "b": [1, 2] } }"#);
    swagger2openapi::jptr::set(&mut doc, "#/a/b/-", json("3")).unwrap();
    assert_eq!(get(&doc, "#/a/b"), Some(&json("[1, 2, 3]")));
    assert_eq!(get(&doc, "#/a/b/-"), None);
    swagger2openapi::jptr::set(&mut doc, "#/a/c/-", json("4")).unwrap();
    assert_eq!(get(&doc, "#/a/c"), Some(&json("[4]")));
}

#[test]
fn refused_writes_say_so() {
    let mut doc = json(r#"{ "a": 1, "l": [0] }"#);
    assert_eq!(swagger2openapi::jptr::set(&mut doc, "#/a/b", json("2")), None);
    assert_eq!(swagger2openapi::jptr::set(&mut doc, "#/l/1", json("2")), None);
    assert_eq!(swagger2openapi::jptr::set(&mut doc, "#/l/-/x", json("2")), None);
    assert_eq!(swagger2openapi::jptr::set(&mut doc, "other#/l", json("2")), None);
    assert_eq!(doc, json(r#"{ "a": 1, "l": [0] }"#));
}

#[test]
fn a_plus_sign_is_a_plus_sign() {
    let doc = json(r#"{ "a+b": 1, "a b": 2 }"#);
    assert_eq!(get(&doc, "#/a+b"), Some(&json("1")));
    assert_eq!(get(&doc, "#/a%20b"), Some(&json("2")));
}

#[test]
fn escapes_are_undone() {
    for s in ["", "~", "/", "~1", "~0", "a/b~c", "~01/~10", "plain"] {
        assert_eq!(jpunescape(&jpescape(s)), s);
    }
    for s in ["", "a b", "ü/%~", "100%", "日本"] {
        assert_eq!(decode_uri_component(&encode_uri_component(s)), s);
    }
    assert_eq!(encode_uri_component("a b/ü"), "a%20b%2F%C3%BC");
    assert_eq!(decode_uri_component("%zz%4"), "%zz%4");
    assert_eq!(decode_uri_component("a%FFb"), "a\u{fffd}b");
}

/// A visitor that notes the paths it sees.
struct Paths {
    seen: Vec<String>,
}

impl Visitor for Paths {
    type State = usize;

    fn state(&self) -> usize {
        unreachable!()
    }

    fn visited(_state: usize, _container: Json, _key: Text, _path: Text) -> (usize, Json) {
        unreachable!()
    }

    fn visit_is_bounded(_state: usize, _container: Json, _key: Text, _path: Text) {
        unreachable!()
    }

    fn visit(&mut self, _container: &mut JsonValue, _key: &str, state: &RecurseState) {
        self.seen.push(state.path.clone());
    }
}

#[test]
fn reported_paths_address_what_was_visited() {
    let mut doc = json(r##"{ "a/b": { "~x": [ { "ü %": 1 } ] }, "#": { "": 2 } }"##);
    let mut paths = Paths { seen: Vec::new() };
    recurse(&mut doc, "#", &mut paths);
    assert_eq!(
        paths.seen,
        vec![
            "#/a~1b",
            "#/a~1b/~0x",
            "#/a~1b/~0x/0",
            "#/a~1b/~0x/0/%C3%BC%20%25",
            "#/%23",
            "#/%23/",
        ]
    );
    for path in &paths.seen {
        assert!(get(&doc, path).is_some(), "{path}");
    }
}

#[test]
fn names_are_sanitised_once() {
    for s in ["Foo Bar", "a/b", "x[]y[]", "ünï", "", "ok-name_1.0", "a  b", "[]"] {
        let name = sanitise_all(s);
        assert_eq!(sanitise_all(&name), name);
        assert_eq!(sanitise(&name), name);
        assert!(name.chars().all(|c| c.is_ascii_alphanumeric() || "_-.".contains(c)));
    }
    assert_eq!(sanitise("a b/c d"), "a_b/c d");
    assert_eq!(sanitise_all("a b/c d"), "a_b_c_d");
    assert_eq!(sanitise("x[]y[]"), "xArrayy_");
}

#[test]
fn unique_values_are_all_values() {
    let given = ["b", "a", "b", "c", "a"].map(String::from);
    assert_eq!(unique_only(&given), vec!["b", "a", "c"]);
    assert_eq!(unique_only(&[]), Vec::<String>::new());
}

#[test]
fn objects_keep_their_order() {
    let mut m = Object::new();
    m.insert("a", json("1"));
    m.insert("b", json("2"));
    m.insert("c", json("3"));
    m.insert("a", json("4"));
    assert_eq!(m.keys(), vec!["a", "b", "c"]);
    assert_eq!(m.get("a"), Some(&json("4")));
    // The last member takes the place of a removed one.
    assert_eq!(m.remove("a"), Some(json("4")));
    assert_eq!(m.keys(), vec!["c", "b"]);
    assert_eq!(m.remove("a"), None);
}

#[test]
fn warnings_do_not_fail() {
    let mut container = json("{}");
    let mut options = Options::new();
    let err = warn_or_error("trouble", &mut container, &options).unwrap_err();
    assert_eq!(err.message, "trouble");
    assert_eq!(container, json("{}"));
    options.warn_only = true;
    warn_or_error("trouble", &mut container, &options).unwrap();
    assert_eq!(container, json(r#"{ "x-s2o-warning": "trouble" }"#));
    options.warn_property = String::new();
    warn_or_error("again", &mut container, &options).unwrap();
    assert_eq!(container, json(r#"{ "x-s2o-warning": "again" }"#));
    let mut list = json("[]");
    warn_or_error("lost", &mut list, &options).unwrap();
    assert_eq!(list, json("[]"));
}

#[test]
fn cached_bodies_stay_apart() {
    let mut cache = RbCache::new();
    let a = json(r#"{ "description": "Aa" }"#);
    let b = json(r#"{ "description": "BB" }"#);
    assert_eq!(cache.get_or_insert(7, &a, "first"), 0);
    assert_eq!(cache.get_or_insert(7, &b, "second"), 1);
    assert_eq!(cache.get_or_insert(7, &a, "third"), 0);
    assert_eq!(cache.entries[0].name, "first");
    assert_eq!(cache.entries.len(), 2);
}

#[test]
fn reason_phrases() {
    assert_eq!(reason_phrase("200"), Some("OK"));
    assert_eq!(reason_phrase("504"), Some("Gateway Timeout"));
    assert_eq!(reason_phrase("default"), Some("Default response"));
    assert_eq!(reason_phrase("7XX"), Some("Developer Error"));
    assert_eq!(reason_phrase("299"), None);
}

#[test]
fn openapi_three_is_repaired_under_patch() {
    let mut options = Options::new();
    let input = json(r#"{ "openapi": "3.0.1", "info": { "title": "T", "version": 2 } }"#);
    let err = convert_obj(&input, &mut options).unwrap_err();
    assert_eq!(err.message, "(Patchable) info.version must be a string");
    assert!(options.openapi.is_null());
    options.patch = true;
    convert_obj(&input, &mut options).unwrap();
    assert_eq!(
        options.openapi,
        json(r#"{ "openapi": "3.0.1", "info": { "title": "T", "version": "2" }, "paths": {} }"#)
    );
    assert_eq!(options.patches, 2);
}

#[test]
fn reported_versions() {
    for (input, version) in [
        (r#"{ "swagger": "1.2" }"#, "1.2"),
        (r#"{ "swagger": 1.5 }"#, "1.5"),
        (r#"{ "openapi": "2.9", "swagger": "9" }"#, "2.9"),
        (r#"{ "swagger": { "a": [1] } }"#, r#"{"a":[1]}"#),
        (r#"{ "swagger": true }"#, "true"),
        (r#"[]"#, "undefined"),
    ] {
        let mut options = Options::new();
        let err = convert_obj(&json(input), &mut options).unwrap_err();
        assert_eq!(err.message, format!("Unsupported swagger/OpenAPI version: {version}"));
    }
}

#[test]
fn top_level_members_of_a_converted_document() {
    let mut options = Options::new();
    let input = json(
        r##"{
            "swagger": "2.0",
            "info": { "title": "T", "version": "1" },
            "host": "example.com",
            "basePath": "/v1/",
            "schemes": ["https", "wss"],
            "consumes": "application/xml",
            "produces": ["text/plain"],
            "tags": [ { "name": "t", "description": null } ],
            "paths": {},
            "definitions": { "A": { "type": "string" } },
            "parameters": { "q": { "name": "q", "in": "query", "type": "integer" } },
            "responses": { "R": { "description": "r" } },
            "securityDefinitions": { "k": { "type": "apiKey", "name": "k", "in": "header" } }
        }"##,
    );
    let before = input.clone();
    convert_obj(&input, &mut options).unwrap();
    assert_eq!(input, before);
    assert_eq!(
        options.openapi,
        json(
            r##"{
                "openapi": "3.0.0",
                "info": { "title": "T", "version": "1" },
                "tags": [ { "name": "t" } ],
                "paths": {},
                "servers": [
                    { "url": "https://example.com/v1" },
                    { "url": "wss://example.com/v1" }
                ],
                "components": {
                    "schemas": { "A": { "type": "string" } },
                    "parameters": { "q": { "name": "q", "in": "query", "schema": { "type": "integer" } } },
                    "responses": { "R": { "description": "r" } },
                    "securitySchemes": { "k": { "type": "apiKey", "name": "k", "in": "header" } }
                }
            }"##
        )
    );
    assert_eq!(options.openapi.as_object().unwrap().keys()[0], "openapi");
}

#[test]
fn ref_siblings_are_handled() {
    let text = r##"{
        "swagger": "2.0",
        "info": { "title": "T", "version": "1" },
        "paths": {},
        "definitions": {
            "A": { "type": "object", "properties": { "b": { "$ref": "#/definitions/B", "description": "d" } } },
            "B": { "type": "string" }
        }
    }"##;
    for (how, expected) in [
        (RefSiblings::Remove, r##"{ "$ref": "#/components/schemas/B" }"##),
        (RefSiblings::Preserve, r##"{ "$ref": "#/components/schemas/B", "description": "d" }"##),
        (
            RefSiblings::AllOf,
            r##"{ "allOf": [ { "$ref": "#/components/schemas/B" }, { "description": "d" } ] }"##,
        ),
    ] {
        let mut options = Options::new();
        options.ref_siblings = how;
        convert_obj(&json(text), &mut options).unwrap();
        assert_eq!(
            get(&options.openapi, "#/components/schemas/A/properties/b"),
            Some(&json(expected))
        );
    }
}

#[test]
fn clones_are_equal() {
    let doc = json(r#"{ "a": [ { "b": null }, 1.5, "x" ] }"#);
    let mut copy = circular_clone(&doc);
    assert_eq!(copy, doc);
    swagger2openapi::jptr::set(&mut copy, "#/a/0/b", json("2")).unwrap();
    assert_ne!(copy, doc);
    assert_eq!(get(&doc, "#/a/0/b"), Some(&json("null")));
}
