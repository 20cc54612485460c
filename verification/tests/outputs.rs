//! What a conversion leaves alone, the names it gives and what a repair reaches.

use swagger2openapi::fixup::fix_up_schema;
use swagger2openapi::jptr::get;
use swagger2openapi::serial::from_json_text;
use swagger2openapi::value::JsonValue;
use swagger2openapi::{convert_obj, Options};

/// The value of a JSON text.
fn json(text: &str) -> JsonValue {
    from_json_text(text).expect("a JSON text")
}

/// Convert a Swagger 2.0 document with more top-level members.
fn convert(extra: &str) -> JsonValue {
    let mut base = json(
        r#"{ "swagger": "2.0", "info": { "title": "T", "version": "1" }, "paths": {} }"#,
    );
    let extra = json(extra);
    if let (Some(b), Some(e)) = (base.as_object_mut(), extra.as_object()) {
        b.set_all(e);
    }
    let mut options = Options::new();
    convert_obj(&base, &mut options).unwrap();
    options.openapi
}

fn at(doc: &JsonValue, pointer: &str) -> JsonValue {
    get(doc, pointer).unwrap_or_else(|| panic!("nothing at {pointer}")).clone()
}

#[test]
fn other_members_are_left_alone() {
    let out = convert(
        r##"{
            "x-note": "kept",
            "x-count": 3,
            "host": "example.com",
            "definitions": { "A": { "$ref": "#/definitions/B" }, "B": { "type": "string" } }
        }"##,
    );
    assert_eq!(at(&out, "#/x-note"), json(r#""kept""#));
    assert_eq!(at(&out, "#/x-count"), json("3"));
    assert_eq!(at(&out, "#/openapi"), json(r#""3.0.0""#));
    for gone in ["swagger", "host", "basePath", "definitions", "responses", "parameters"] {
        assert!(!out.has(gone), "{gone}");
    }
}

#[test]
fn a_reference_into_a_member_relocates_it() {
    let out = convert(r##"{ "x-note": "moved", "definitions": { "A": { "$ref": "#/x-note" } } }"##);
    assert_eq!(at(&out, "#/x-note"), json(r#""moved""#));
    let out = convert(r##"{ "title": "moved", "definitions": { "A": { "$ref": "#/title" } } }"##);
    assert_eq!(at(&out, "#/title"), json(r##"{ "$ref": "#/components/schemas/schema1" }"##));
    assert_eq!(at(&out, "#/components/schemas/schema1"), json(r#""moved""#));
}

#[test]
fn relocated_targets_get_free_names() {
    let out = convert(
        r##"{
            "paths": { "/p": { "get": { "responses": { "200": { "description": "ok", "schema": { "type": "object", "properties": { "x": { "type": "string" } } } } } } } },
            "definitions": {
                "schema1": { "type": "integer" },
                "schema2": { "type": "number" },
                "A": { "properties": { "x": { "$ref": "#/paths/~1p/get/responses/200/schema/properties/x" } } }
            }
        }"##,
    );
    assert_eq!(at(&out, "#/components/schemas/schema1"), json(r#"{ "type": "integer" }"#));
    assert_eq!(at(&out, "#/components/schemas/schema2"), json(r#"{ "type": "number" }"#));
    assert_eq!(at(&out, "#/components/schemas/schema3"), json(r#"{ "type": "string" }"#));
    assert_eq!(
        at(&out, "#/components/schemas/A/properties/x"),
        json(r##"{ "$ref": "#/components/schemas/schema3" }"##)
    );
}

#[test]
fn renamed_schemas_get_free_names() {
    let out = convert(
        r##"{ "definitions": {
            "A_B": { "type": "integer" },
            "A B": { "type": "string" },
            "A/B": { "type": "boolean" }
        } }"##,
    );
    assert_eq!(at(&out, "#/components/schemas/A_B"), json(r#"{ "type": "integer" }"#));
    assert_eq!(at(&out, "#/components/schemas/A_B2"), json(r#"{ "type": "string" }"#));
    assert_eq!(at(&out, "#/components/schemas/A_B3"), json(r#"{ "type": "boolean" }"#));
}

#[test]
fn shared_bodies_get_new_names() {
    let op = |id: &str, ty: &str| {
        format!(
            r#"{{ "operationId": "{id}", "parameters": [ {{ "in": "body", "name": "b", "x-s2o-name": "N", "schema": {{ "type": "{ty}" }} }} ], "responses": {{ "200": {{ "description": "ok" }} }} }}"#
        )
    };
    let out = convert(&format!(
        r#"{{ "paths": {{
            "/a": {{ "post": {a}, "put": {b} }},
            "/b": {{ "post": {c}, "put": {d} }}
        }} }}"#,
        a = op("one", "string"),
        b = op("two", "string"),
        c = op("three", "integer"),
        d = op("four", "integer"),
    ));
    let bodies = at(&out, "#/components/requestBodies");
    assert_eq!(bodies.as_object().unwrap().len(), 2);
    let first = at(&out, "#/paths/~1a/post/requestBody/$ref");
    let second = at(&out, "#/paths/~1b/post/requestBody/$ref");
    assert_ne!(first, second);
    assert_eq!(at(&out, "#/paths/~1a/put/requestBody/$ref"), first);
    assert_eq!(at(&out, "#/paths/~1b/put/requestBody/$ref"), second);
}

#[test]
fn every_subschema_is_repaired() {
    let mut schema = json(
        r##"{
            "type": "array",
            "x-anyOf": [ { "type": "file" } ],
            "properties": { "p": { "discriminator": "d", "x-nullable": true } },
            "additionalProperties": { "type": "null" },
            "allOf": [ { "allowEmptyValue": true, "items": { "required": true, "x-not": { "type": "array" } } } ],
            "not": { "$ref": "#/definitions/A", "x-nullable": true }
        }"##,
    );
    let mut options = Options::new();
    fix_up_schema(&mut schema, &mut options).unwrap();
    assert_eq!(
        schema,
        json(
            r##"{
                "type": "array",
                "items": {},
                "anyOf": [ { "type": "string", "format": "binary" } ],
                "properties": { "p": { "discriminator": { "propertyName": "d" }, "nullable": true } },
                "additionalProperties": { "nullable": true },
                "allOf": [ { "items": { "not": { "type": "array", "items": {} } } } ],
                "not": { "$ref": "#/definitions/A", "x-nullable": true }
            }"##
        )
    );
}
