//! Parameters, request bodies, responses and references of operations.

use swagger2openapi::fixup::fix_up_schema;
use swagger2openapi::jptr::get;
use swagger2openapi::serial::{from_json_text, to_json_text};
use swagger2openapi::value::JsonValue;
use swagger2openapi::{convert_obj, Options};

/// The value of a JSON text.
fn json(text: &str) -> JsonValue {
    from_json_text(text).expect("a JSON text")
}

/// Convert a Swagger 2.0 document with more top-level members.
fn convert_with(extra: &str, options: &mut Options) {
    let mut base = json(
        r#"{ "swagger": "2.0", "info": { "title": "T", "version": "1" }, "paths": {} }"#,
    );
    let extra = json(extra);
    if let (Some(b), Some(e)) = (base.as_object_mut(), extra.as_object()) {
        b.set_all(e);
    }
    convert_obj(&base, options).unwrap();
}

fn convert(extra: &str) -> JsonValue {
    let mut options = Options::new();
    convert_with(extra, &mut options);
    options.openapi
}

fn at(doc: &JsonValue, pointer: &str) -> JsonValue {
    get(doc, pointer).unwrap_or_else(|| panic!("nothing at {pointer}")).clone()
}

#[test]
fn form_parameters_merge_into_one_body() {
    let out = convert(
        r##"{ "paths": { "/f": { "post": {
            "operationId": "send it",
            "consumes": ["application/x-www-form-urlencoded"],
            "parameters": [
                { "name": "a", "in": "formData", "type": "string", "required": true, "description": "A", "maxLength": 3 },
                { "name": "b", "in": "formData", "type": "array", "items": { "type": "integer", "collectionFormat": "csv" }, "x-note": 1 },
                { "name": "q", "in": "query", "type": "string" }
            ],
            "responses": { "200": { "description": "ok" } }
        } } } }"##,
    );
    assert_eq!(
        at(&out, "#/paths/~1f/post/requestBody"),
        json(
            r##"{
                "content": { "application/x-www-form-urlencoded": { "schema": {
                    "type": "object",
                    "properties": {
                        "a": { "description": "A", "type": "string", "maxLength": 3 },
                        "b": { "type": "array", "items": { "type": "integer" }, "x-note": 1 }
                    },
                    "required": ["a"]
                } } },
                "required": true
            }"##
        )
    );
    assert_eq!(
        at(&out, "#/paths/~1f/post/parameters"),
        json(r#"[ { "name": "q", "in": "query", "schema": { "type": "string" } } ]"#)
    );
}

#[test]
fn file_parameters_become_binary() {
    let out = convert(
        r##"{ "paths": { "/f": { "post": {
            "consumes": ["multipart/form-data"],
            "parameters": [ { "name": "up", "in": "formData", "type": "file" } ],
            "responses": { "200": { "description": "ok", "schema": { "type": "file" } } }
        } } } }"##,
    );
    assert_eq!(
        at(&out, "#/paths/~1f/post/requestBody/content/multipart~1form-data/schema/properties/up"),
        json(r#"{ "type": "string", "format": "binary" }"#)
    );
    assert_eq!(
        at(&out, "#/paths/~1f/post/responses/200/content"),
        json(r#"{ "*/*": { "schema": { "type": "string", "format": "binary" } } }"#)
    );
}

#[test]
fn body_parameters_use_every_media_type() {
    let out = convert(
        r##"{ "consumes": ["application/json", "text/xml", "application/json"], "paths": { "/b": { "put": {
            "parameters": [ { "name": "b", "in": "body", "description": "D", "required": true, "schema": { "type": "array" }, "x-s2o-test": 1, "x-keep": 2 } ],
            "responses": { "200": { "description": "ok" } }
        } } } }"##,
    );
    assert_eq!(
        at(&out, "#/paths/~1b/put/requestBody"),
        json(
            r##"{
                "content": {
                    "application/json": { "schema": { "type": "array", "items": {} } },
                    "text/xml": { "schema": { "type": "array", "items": {} } }
                },
                "description": "D",
                "required": true,
                "x-keep": 2
            }"##
        )
    );
    assert!(get(&out, "#/paths/~1b/put/parameters").is_none());
}

#[test]
fn equal_bodies_are_shared() {
    let out = convert(
        r##"{ "paths": {
            "/a": { "post": { "operationId": "one", "parameters": [ { "name": "b", "in": "body", "schema": { "$ref": "#/definitions/D" } } ], "responses": { "200": { "description": "ok" } } } },
            "/c d": { "post": { "operationId": "two", "parameters": [ { "name": "b", "in": "body", "schema": { "$ref": "#/definitions/D" } } ], "responses": { "200": { "description": "ok" } } } }
        }, "definitions": { "D": { "type": "string" } } }"##,
    );
    assert_eq!(
        at(&out, "#/components/requestBodies"),
        json(
            r##"{ "D": { "content": { "application/json": { "schema": { "$ref": "#/components/schemas/D" } } } } }"##
        )
    );
    let shared = json(r##"{ "$ref": "#/components/requestBodies/D" }"##);
    assert_eq!(at(&out, "#/paths/~1a/post/requestBody"), shared);
    assert_eq!(at(&out, "#/paths/~1c%20d/post/requestBody"), shared);

    let mut apart = Options::new();
    apart.resolve_internal = true;
    convert_with(
        r##"{ "paths": {
            "/a": { "post": { "parameters": [ { "name": "b", "in": "body", "schema": {} } ], "responses": { "200": { "description": "ok" } } } },
            "/c": { "post": { "parameters": [ { "name": "b", "in": "body", "schema": {} } ], "responses": { "200": { "description": "ok" } } } }
        } }"##,
        &mut apart,
    );
    assert!(apart.openapi.get("components").is_none());
}

#[test]
fn component_parameters_are_inlined_as_bodies() {
    let out = convert(
        r##"{
            "parameters": { "B": { "name": "b", "in": "body", "schema": { "type": "string" } }, "Q": { "name": "q", "in": "query", "type": "string" } },
            "paths": { "/p": {
                "parameters": [ { "$ref": "#/parameters/Q" } ],
                "post": { "parameters": [ { "$ref": "#/parameters/B" } ], "responses": { "200": { "description": "ok" } } }
            } }
        }"##,
    );
    assert_eq!(
        at(&out, "#/components"),
        json(r##"{ "parameters": { "Q": { "name": "q", "in": "query", "schema": { "type": "string" } } } }"##)
    );
    assert_eq!(
        at(&out, "#/paths/~1p"),
        json(
            r##"{
                "parameters": [ { "$ref": "#/components/parameters/Q" } ],
                "post": {
                    "responses": { "200": { "description": "ok" } },
                    "requestBody": { "content": { "application/json": { "schema": { "type": "string" } } } }
                }
            }"##
        )
    );
}

#[test]
fn direct_references_are_relocated() {
    let out = convert(
        r##"{
            "paths": { "/p": { "get": { "responses": { "200": { "description": "ok", "schema": { "type": "object", "properties": { "x": { "type": "string" } } } } } } } },
            "definitions": { "A": { "properties": { "x": { "$ref": "#/paths/~1p/get/responses/200/schema/properties/x" } } } }
        }"##,
    );
    assert_eq!(
        at(&out, "#/components/schemas/A/properties/x"),
        json(r##"{ "$ref": "#/components/schemas/schema1" }"##)
    );
    assert_eq!(at(&out, "#/components/schemas/schema1"), json(r#"{ "type": "string" }"#));
    assert_eq!(
        at(&out, "#/paths/~1p/get/responses/200/content/*~1*/schema/properties/x"),
        json(r##"{ "$ref": "#/components/schemas/schema1" }"##)
    );
}

#[test]
fn operation_schemes_become_servers() {
    let out = convert(
        r##"{ "host": "h", "basePath": "/b", "schemes": ["http"], "paths": {
            "/p": { "get": { "schemes": ["http", "wss"], "responses": { "200": { "description": "ok" } } },
                    "x-trace": { "responses": { "200": { "description": "ok" } } }, "x-summary": "S" }
        } }"##,
    );
    assert_eq!(at(&out, "#/paths/~1p/get/servers"), json(r#"[ { "url": "wss://h/b" } ]"#));
    assert_eq!(at(&out, "#/paths/~1p/summary"), json(r#""S""#));
    assert!(get(&out, "#/paths/~1p/trace/responses/200").is_some());
    assert!(get(&out, "#/paths/~1p/x-trace").is_none());
}

#[test]
fn missing_responses_get_a_default() {
    let out = convert(r#"{ "paths": { "/p": { "get": {} } } }"#);
    assert_eq!(
        at(&out, "#/paths/~1p/get"),
        json(r#"{ "responses": { "default": { "description": "Default response" } } }"#)
    );
}

#[test]
fn response_examples_move_to_their_media_type() {
    let out = convert(
        r##"{ "paths": { "/p": { "get": {
            "produces": ["application/json"],
            "responses": { "200": { "description": "ok", "schema": { "type": "object" },
                "examples": { "application/json": { "a": 1 }, "text/plain": "t" } } }
        } } } }"##,
    );
    assert_eq!(
        at(&out, "#/paths/~1p/get/responses/200"),
        json(
            r##"{ "description": "ok", "content": {
                "application/json": { "schema": { "type": "object" }, "examples": { "response": { "value": { "a": 1 } } } },
                "text/plain": { "examples": { "response": { "value": "t" } } }
            } }"##
        )
    );
}

#[test]
fn debug_keeps_what_is_consumed() {
    let mut options = Options::new();
    options.debug = true;
    convert_with(
        r##"{ "produces": ["text/plain"], "paths": { "/p": { "post": {
            "parameters": [ { "name": "b", "in": "body", "schema": {} } ],
            "responses": { "200": { "description": "ok" } }
        } } } }"##,
        &mut options,
    );
    let out = &options.openapi;
    assert_eq!(at(out, "#/x-s2o-consumes"), json("[]"));
    assert_eq!(at(out, "#/x-s2o-produces"), json(r#"["text/plain"]"#));
    assert_eq!(at(out, "#/paths/~1p/post/parameters/0/x-s2o-delete"), json("true"));
    assert!(out.get("produces").is_none());
}

#[test]
fn security_names_are_sanitised() {
    let out = convert(
        r##"{
            "securityDefinitions": { "my key": { "type": "apiKey", "name": "k", "in": "header" } },
            "security": [ { "my key": [] } ],
            "paths": { "/p": { "get": { "security": [ { "my key": ["s"] } ], "responses": { "200": { "description": "ok" } } } } }
        }"##,
    );
    assert_eq!(at(&out, "#/security"), json(r#"[ { "my_key": [] } ]"#));
    assert_eq!(at(&out, "#/paths/~1p/get/security"), json(r#"[ { "my_key": ["s"] } ]"#));
    assert!(get(&out, "#/components/securitySchemes/my_key").is_some());
}

#[test]
fn azure_paths_are_paths() {
    let out = convert(
        r##"{ "x-ms-paths": { "/q?a=1": { "get": { "parameters": [ { "name": "a", "in": "query", "type": "integer", "x-ms-skip-url-encoding": true } ], "responses": { "200": { "description": "ok" } } } } } }"##,
    );
    assert_eq!(
        at(&out, "#/x-ms-paths/~1q%3Fa=1/get/parameters/0"),
        json(r#"{ "name": "a", "in": "query", "schema": { "type": "integer" }, "allowReserved": true }"#)
    );
}

#[test]
fn schemas_are_repaired() {
    let mut options = Options::new();
    options.patch = true;
    let mut schema = json(
        r##"{
            "type": "object",
            "discriminator": "kind",
            "xml": { "namespace": "" },
            "allowEmptyValue": true,
            "properties": {
                "a": { "type": ["string", "integer", "null"] },
                "b": { "type": "array" },
                "c": { "name": "c", "required": true, "type": "null" },
                "d": { "$ref": "#/definitions/D", "x-nullable": true },
                "e": { "x-oneOf": [ { "type": "file" } ] },
                "f": { "type": [] }
            }
        }"##,
    );
    fix_up_schema(&mut schema, &mut options).unwrap();
    assert_eq!(
        schema,
        json(
            r##"{
                "type": "object",
                "discriminator": { "propertyName": "kind" },
                "xml": {},
                "properties": {
                    "a": { "nullable": true, "oneOf": [ { "type": "string" }, { "type": "integer" } ] },
                    "b": { "type": "array", "items": {} },
                    "c": { "name": "c", "nullable": true },
                    "d": { "$ref": "#/definitions/D", "x-nullable": true },
                    "e": { "oneOf": [ { "type": "string", "format": "binary" } ] },
                    "f": {}
                },
                "required": ["c"]
            }"##
        )
    );
}

#[test]
fn split_types_lose_no_properties_in_silence() {
    let text = r#"{ "type": ["null"], "oneOf": [ { "type": "string", "maxLength": 2 } ] }"#;
    let mut options = Options::new();
    options.patch = true;
    let err = fix_up_schema(&mut json(text), &mut options).unwrap_err();
    assert_eq!(err.message, "Lost properties from oneOf");
    options.warn_only = true;
    let mut schema = json(text);
    fix_up_schema(&mut schema, &mut options).unwrap();
    assert_eq!(
        schema,
        json(r#"{ "nullable": true, "type": "string", "x-s2o-warning": "Lost properties from oneOf" }"#)
    );
}

#[test]
fn references_to_media_types_are_replaced() {
    let out = convert(
        r##"{ "consumes": ["a/b"], "paths": { "/p": { "post": {
            "consumes": { "$ref": "#/consumes" },
            "parameters": [ { "name": "b", "in": "body", "schema": {} } ],
            "responses": { "200": { "description": "ok" } }
        } } } }"##,
    );
    assert_eq!(
        at(&out, "#/paths/~1p/post/requestBody"),
        json(r#"{ "content": { "a/b": { "schema": {} } } }"#)
    );
}

#[test]
fn misplaced_definitions_are_reported() {
    let mut options = Options::new();
    options.warn_only = true;
    convert_with(
        r##"{
            "definitions": { "D": { "name": "d", "in": "query", "type": "string" } },
            "paths": { "/p": { "get": {
                "parameters": [ { "$ref": "other.json#/definitions/D" } ],
                "responses": { "200": { "$ref": "other.json#/definitions/D" } }
            } } }
        }"##,
        &mut options,
    );
    let text = to_json_text(&at(&options.openapi, "#/paths/~1p/get"));
    assert!(text.contains("Definition used as parameter"));
    assert!(text.contains("definition used as response: other.json#/definitions/D"));
}
