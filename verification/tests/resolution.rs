//! Resolution of references.

use swagger2openapi::convert::{resume_conversion, Progress};
use swagger2openapi::inlining::resolve_all_internal;
use swagger2openapi::jptr::get;
use swagger2openapi::resolver::{
    normalise, optional_resolve, parent_path, relative_to, resolve_one, rewrite_nested_external_refs,
    scan_external_refs, split_fragment, ExternalRef, Segment,
};
use swagger2openapi::serial::from_json_text;
use swagger2openapi::value::{JsonValue, Object};
use swagger2openapi::{convert_obj, Options};

/// The value of a JSON text.
fn json(text: &str) -> JsonValue {
    from_json_text(text).expect("a JSON text")
}

fn segments(path: &[&str]) -> Vec<Segment> {
    path.iter()
        .map(|s| match *s {
            "/" => Segment::Base("/".to_string()),
            ".." => Segment::Parent,
            "." => Segment::Current,
            name => Segment::Name(name.to_string()),
        })
        .collect()
}

fn texts(path: &[Segment]) -> Vec<String> {
    path.iter()
        .map(|s| match s {
            Segment::Base(name) | Segment::Name(name) => name.clone(),
            Segment::Parent => "..".to_string(),
            Segment::Current => ".".to_string(),
        })
        .collect()
}

#[test]
fn references_split_at_the_fragment() {
    let split = |r: &str| split_fragment(r);
    assert_eq!(split("a.yaml#/b"), ("a.yaml".to_string(), "/b".to_string()));
    assert_eq!(split("a.yaml"), ("a.yaml".to_string(), String::new()));
    assert_eq!(split("a#b#c"), ("a".to_string(), "b#c".to_string()));
    assert_eq!(split("#/b"), (String::new(), "/b".to_string()));
    assert_eq!(split("a.yaml#"), ("a.yaml".to_string(), String::new()));
    assert_eq!(split("defs.yaml#/a"), ("defs.yaml".to_string(), "/a".to_string()));
}

#[test]
fn external_references_are_listed_in_document_order() {
    let doc = json(
        r##"{
            "b": { "$ref": "two.yaml#/x" },
            "a": [ { "$ref": "one.yaml" }, { "$ref": "#/inner" }, { "$ref": "two.yaml#/x" } ],
            "c": { "$ref": true }
        }"##,
    );
    let refs = scan_external_refs(&doc);
    assert_eq!(refs.len(), 2);
    assert_eq!(refs[0].reference, "two.yaml#/x");
    assert_eq!(refs[0].paths, vec!["#/b", "#/a/2"]);
    assert_eq!(refs[1].reference, "one.yaml");
    assert_eq!(refs[1].paths, vec!["#/a/0"]);
    assert_eq!(parent_path("#/a/b"), "#/a");
    assert_eq!(parent_path("#"), "#");
}

#[test]
fn resolution_is_optional() {
    let mut options = Options::new();
    options.openapi = json(r##"{ "a": { "$ref": "one.yaml" } }"##);
    assert!(optional_resolve(&options).unwrap().is_empty());
    options.resolve = true;
    let err = optional_resolve(&options).unwrap_err();
    assert_eq!(err.message, "resolve requires options.source");
    options.source = Some("api.yaml".to_string());
    assert_eq!(optional_resolve(&options).unwrap().len(), 1);
}

#[test]
fn dots_collapse() {
    assert_eq!(texts(&normalise(&segments(&["a", ".", "b", "..", "c"]))), vec!["a", "c"]);
    assert_eq!(texts(&normalise(&segments(&["..", "a"]))), vec!["a"]);
    assert_eq!(texts(&normalise(&segments(&["/", "..", "a"]))), vec!["/", "a"]);
    let once = normalise(&segments(&["x", "..", "..", "y", "."]));
    assert_eq!(texts(&normalise(&once)), texts(&once));
}

#[test]
fn paths_become_relative_to_the_base() {
    let base = segments(&["dir"]);
    assert_eq!(texts(&relative_to(&segments(&["dir", "sub", "..", "f"]), &base)), vec!["f"]);
    assert_eq!(texts(&relative_to(&segments(&["other", "f"]), &base)), vec!["other", "f"]);
    assert_eq!(texts(&relative_to(&segments(&["di"]), &base)), vec!["di"]);
    assert_eq!(texts(&relative_to(&segments(&["f"]), &segments(&[]))), vec!["f"]);
}

#[test]
fn nested_references_follow_their_files() {
    let mut data = json(
        r##"{ "a": { "$ref": "./sub/ok.yaml#/x" }, "b": { "$ref": "#/y" }, "c": { "$ref": "z.yaml" } }"##,
    );
    let mut moved = Object::new();
    moved.insert("./sub/ok.yaml", JsonValue::text("dir/sub/ok.yaml"));
    rewrite_nested_external_refs(&mut data, &moved);
    assert_eq!(
        data,
        json(
            r##"{ "a": { "$ref": "dir/sub/ok.yaml#/x" }, "b": { "$ref": "#/y" }, "c": { "$ref": "z.yaml" } }"##
        )
    );
}

#[test]
fn internal_references_are_inlined_once() {
    let context = json(
        r##"{
            "defs": { "a": { "type": "string" }, "b": { "of": { "$ref": "#/defs/a" } } }
        }"##,
    );
    let mut data = json(
        r##"{ "x": { "$ref": "#/defs/b" }, "y": { "$ref": "#/defs/a" }, "z": { "$ref": "#/gone" } }"##,
    );
    resolve_all_internal(&mut data, &context, "#/at");
    // `y` is met before the reference within the copy of `b`.
    assert_eq!(get(&data, "#/y"), Some(&json(r##"{ "type": "string" }"##)));
    assert_eq!(
        get(&data, "#/x/of"),
        Some(&json(r##"{ "$ref": "#/at/y", "x-miro": "#/defs/a" }"##))
    );
    assert_eq!(get(&data, "#/z"), Some(&json("{}")));
}

#[test]
fn internal_references_in_a_circle_end() {
    let context = json(r##"{ "node": { "next": { "$ref": "#/node" } } }"##);
    let mut data = context.clone();
    resolve_all_internal(&mut data, &context, "#");
    assert_eq!(
        data,
        json(
            r##"{ "node": { "next": { "next": { "$ref": "#/node/next", "x-miro": "#/node" } } } }"##
        )
    );
    let mut alone = json(r##"{ "$ref": "#/a" }"##);
    resolve_all_internal(&mut alone, &json(r##"{ "a": { "$ref": "#/a" } }"##), "#/p");
    assert_eq!(alone.get_str("x-miro"), Some("#/a"));
    assert!(alone.get("$fixed").is_none());
}

#[test]
fn the_shortest_path_holds_the_copy() {
    let mut options = Options::new();
    options.openapi = json(
        r##"{ "deep": { "er": { "$ref": "f.yaml#/d" } }, "top": { "$ref": "f.yaml#/d" } }"##,
    );
    let refs = scan_external_refs(&options.openapi);
    let context = json(r##"{ "d": { "type": "object" } }"##);
    resolve_one(&mut options, &refs[0], &context, &Object::new());
    assert_eq!(
        options.openapi,
        json(r##"{ "deep": { "er": { "$ref": "#/top" } }, "top": { "type": "object" } }"##)
    );
    // A fragment that leads nowhere is an empty object.
    let lost = ExternalRef { reference: "f.yaml#/none".to_string(), paths: vec!["#/top".to_string()] };
    resolve_one(&mut options, &lost, &context, &Object::new());
    assert_eq!(get(&options.openapi, "#/top"), Some(&json("{}")));
    // Without a fragment the whole file is taken.
    let whole = ExternalRef { reference: "f.yaml".to_string(), paths: vec!["#/top".to_string()] };
    resolve_one(&mut options, &whole, &context, &Object::new());
    assert_eq!(get(&options.openapi, "#/top"), Some(&context));
}

#[test]
fn conversions_stop_for_external_references() {
    let mut options = Options::new();
    options.resolve = true;
    options.source = Some("api.yaml".to_string());
    let input = json(
        r##"{
            "swagger": "2.0",
            "info": { "title": "T", "version": "1" },
            "paths": {},
            "definitions": { "A": { "$ref": "defs.yaml#/A" } }
        }"##,
    );
    let progress = convert_obj(&input, &mut options).unwrap();
    let (stage, refs) = match progress {
        Progress::Unresolved(stage, refs) => (stage, refs),
        Progress::Done => panic!("the file is needed"),
    };
    assert_eq!(refs.len(), 1);
    assert_eq!(refs[0].paths, vec!["#/components/schemas/A"]);
    resolve_one(&mut options, &refs[0], &json(r##"{ "A": { "type": "integer" } }"##), &Object::new());
    let rest = resume_conversion(stage, &mut options).unwrap();
    assert!(matches!(rest, Progress::Done));
    assert_eq!(
        get(&options.openapi, "#/components/schemas/A/type").and_then(|v| v.as_str().map(String::from)),
        Some("integer".to_string())
    );
    options.source = None;
    let err = convert_obj(&input, &mut options).unwrap_err();
    assert_eq!(err.message, "resolve requires options.source");
}
