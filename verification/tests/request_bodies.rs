//! Request bodies, references and operation patches in whole conversions.

use swagger2openapi::convert::parameter::fix_param_ref;
use swagger2openapi::serial::from_json_text;
use swagger2openapi::value::JsonValue;
use swagger2openapi::{convert_obj, Options};

/// The value of a JSON text.
fn json(text: &str) -> JsonValue {
    from_json_text(text).expect("a JSON text")
}

/// The value under nested keys and indices.
fn at<'a>(value: &'a JsonValue, keys: &[&str]) -> &'a JsonValue {
    let mut here = value;
    for key in keys {
        here = match here {
            JsonValue::Array(list) => &list[key.parse::<usize>().unwrap()],
            _ => here.get(key).unwrap_or_else(|| panic!("no {key}")),
        };
    }
    here
}

fn convert(input: JsonValue) -> Options {
    let mut options = Options::new();
    convert_obj(&input, &mut options).unwrap();
    options
}

#[test]
fn request_body_cache_keeps_hash_collisions_distinct() {
    let options = convert(json(r##"{
        "swagger": "2.0",
        "info": { "title": "Demo", "version": "1.0.0" },
        "paths": {
            "/aa": {
                "post": {
                    "operationId": "create",
                    "parameters": [
                        {
                            "name": "payload",
                            "in": "body",
                            "schema": {
                                "description": "Aa",
                                "type": "object"
                            }
                        }
                    ],
                    "responses": { "200": { "description": "ok" } }
                }
            },
            "/bb": {
                "post": {
                    "operationId": "create",
                    "parameters": [
                        {
                            "name": "payload",
                            "in": "body",
                            "schema": {
                                "description": "BB",
                                "type": "object"
                            }
                        }
                    ],
                    "responses": { "200": { "description": "ok" } }
                }
            }
        }
    }"##));

    let aa = at(&options.openapi, &["paths", "/aa", "post", "requestBody", "content", "application/json", "schema", "description"]);
    let bb = at(&options.openapi, &["paths", "/bb", "post", "requestBody", "content", "application/json", "schema", "description"]);
    assert_eq!(aa.as_str(), Some("Aa"));
    assert_eq!(bb.as_str(), Some("BB"));
    assert!(options
        .openapi
        .get("components")
        .and_then(|c| c.get("requestBodies"))
        .is_none());
}

#[test]
fn parameter_ref_decodes_segment_before_sanitise() {
    let options = convert(json(r##"{
        "swagger": "2.0",
        "info": { "title": "Demo", "version": "1.0.0" },
        "parameters": {
            "a b": {
                "name": "a b",
                "in": "query",
                "type": "string"
            }
        },
        "paths": {
            "/p": {
                "get": {
                    "parameters": [
                        { "$ref": "#/parameters/a%20b" }
                    ],
                    "responses": { "200": { "description": "ok" } }
                }
            }
        }
    }"##));

    assert_eq!(at(&options.openapi, &["paths", "/p", "get", "parameters", "0", "$ref"]).as_str(), Some("#/components/parameters/a_b"));
}

#[test]
fn response_ref_decodes_segment_before_sanitise() {
    let options = convert(json(r##"{
        "swagger": "2.0",
        "info": { "title": "Demo", "version": "1.0.0" },
        "responses": {
            "a b": { "description": "ok" }
        },
        "paths": {
            "/p": {
                "get": {
                    "responses": {
                        "200": { "$ref": "#/responses/a%20b" }
                    }
                }
            }
        }
    }"##));

    assert_eq!(at(&options.openapi, &["paths", "/p", "get", "responses", "200", "$ref"]).as_str(), Some("#/components/responses/a_b"));
}

#[test]
fn fix_param_ref_decodes_segment_before_sanitise() {
    let options = Options::new();
    let mut param = json(r##"{ "$ref": "./defs.json#/parameters/a%20b" }"##);
    fix_param_ref(&mut param, &options).unwrap();

    assert_eq!(at(&param, &["$ref"]).as_str(), Some("./defs.json#/components/parameters/a_b"));
}

#[test]
fn path_body_parameter_creates_operation_request_body() {
    let options = convert(json(r##"{
        "swagger": "2.0",
        "info": { "title": "Demo", "version": "1.0.0" },
        "paths": {
            "/p": {
                "parameters": [
                    {
                        "name": "payload",
                        "in": "body",
                        "schema": { "type": "object" }
                    }
                ],
                "get": {
                    "responses": { "200": { "description": "ok" } }
                }
            }
        }
    }"##));

    assert!(at(&options.openapi, &["paths", "/p", "get", "requestBody"]).is_object());
    assert_eq!(
        at(&options.openapi, &["paths", "/p", "parameters"])
            .as_array()
            .map(Vec::len),
        Some(0)
    );
}

#[test]
fn patch_string_operation_produces_sets_response_content() {
    let mut options = Options::new();
    options.patch = true;
    convert_obj(
        &json(r##"{
            "swagger": "2.0",
            "info": { "title": "Demo", "version": "1.0.0" },
            "paths": {
                "/p": {
                    "get": {
                        "produces": "application/json",
                        "responses": {
                            "200": {
                                "description": "ok",
                                "schema": { "type": "object" }
                            }
                        }
                    }
                }
            }
        }"##),
        &mut options,
    )
    .unwrap();

    let content = at(&options.openapi, &["paths", "/p", "get", "responses", "200", "content"]);
    assert!(at(content, &["application/json"]).is_object());
    assert!(content.get("*/*").is_none());
    assert_eq!(options.patches, 1);
}
