//! Every problem that a conversion reports, and its repair.

use swagger2openapi::serial::from_json_text;
use swagger2openapi::value::JsonValue;
use swagger2openapi::{convert_obj, Options};

/// The value of a JSON text.
fn json(text: &str) -> JsonValue {
    from_json_text(text).expect("a JSON text")
}

/// A Swagger 2.0 document with more top-level members.
fn doc(extra: &str) -> JsonValue {
    let mut base = json(
        r#"{ "swagger": "2.0", "info": { "title": "T", "version": "1" }, "paths": {} }"#,
    );
    let extra = json(extra);
    if let (Some(b), Some(e)) = (base.as_object_mut(), extra.as_object()) {
        b.set_all(e);
    }
    base
}

/// A document with one operation.
fn operation(op: &str) -> JsonValue {
    doc(&r#"{ "paths": { "/p/{id}": { "get": OP } } }"#.replace("OP", op))
}

/// A document with one parameter of an operation.
fn parameter(param: &str) -> JsonValue {
    operation(
        &r#"{ "parameters": [ PARAM ], "responses": { "200": { "description": "ok" } } }"#
            .replace("PARAM", param),
    )
}

/// A document with one response of an operation.
fn response(response: &str) -> JsonValue {
    operation(&r#"{ "responses": { "200": RESPONSE } }"#.replace("RESPONSE", response))
}

fn failure(input: &JsonValue) -> String {
    convert_obj(input, &mut Options::new()).unwrap_err().message
}

fn patched(input: &JsonValue) -> Options {
    let mut options = Options::new();
    options.patch = true;
    convert_obj(input, &mut options).unwrap();
    options
}

#[test]
fn patchable_problems_are_repaired() {
    let cases: Vec<(JsonValue, &str, u64)> = vec![
        (doc(r#"{ "info": null }"#), "info object is mandatory", 1),
        (
            doc(r#"{ "info": { "version": "1" } }"#),
            "info.title cannot be null",
            1,
        ),
        (
            doc(r#"{ "info": { "title": "T" } }"#),
            "info.version cannot be null",
            1,
        ),
        (
            doc(r#"{ "info": { "title": "T", "version": 1 } }"#),
            "info.version must be a string",
            1,
        ),
        (
            doc(r#"{ "info": { "title": "T", "version": "1", "logo": "l" } }"#),
            "info should not have logo property",
            1,
        ),
        (
            doc(r#"{ "info": { "title": "T", "version": "1", "termsOfService": "none" } }"#),
            "info.termsOfService must be a URL",
            1,
        ),
        (doc(r#"{ "paths": null }"#), "paths object is mandatory", 1),
        (
            doc(r#"{ "definitions": { "A": { "type": ["string"] } } }"#),
            "schema type must not be an array",
            1,
        ),
        (
            doc(
                r#"{ "securityDefinitions": { "o": { "type": "oauth2", "flow": "implicit", "authorizationUrl": "/a", "scopes": {}, "name": "n" } } }"#,
            ),
            "oauth2 securitySchemes should not have name property",
            1,
        ),
        (
            operation(
                r#"{ "consumes": "text/plain", "parameters": [ { "name": "q", "in": "query", "type": "string" } ], "responses": { "200": { "description": "ok" } } }"#,
            ),
            "operation.consumes must be an array",
            1,
        ),
        (
            operation(
                r#"{ "produces": "text/plain", "responses": { "200": { "description": "ok", "schema": { "type": "string" } } } }"#,
            ),
            "operation.produces must be an array",
            1,
        ),
        (
            parameter(r#"{ "name": "q", "in": "query" }"#),
            "parameter.type is mandatory for non-body parameters",
            1,
        ),
        (
            parameter(r#"{ "name": "q", "in": "query", "type": "string", "collectionFormat": "csv" }"#),
            "collectionFormat is only applicable to param.type array",
            1,
        ),
        (
            parameter(r#"{ "name": "id", "in": "path", "type": "string" }"#),
            "path parameters must be required:true [id in get:/p/{id}]",
            1,
        ),
        (response("{}"), "response.description is mandatory", 1),
        (
            response(r#"{ "description": "ok", "headers": { "Status Code": { "type": "string" } } }"#),
            "\"Status Code\" is not a valid header",
            1,
        ),
        (
            response(
                r#"{ "description": "ok", "headers": { "X": { "type": "string", "collectionFormat": "csv" } } }"#,
            ),
            "collectionFormat is only applicable to header.type array",
            1,
        ),
    ];
    for (input, message, patches) in &cases {
        assert_eq!(failure(input), format!("(Patchable) {message}"));
        assert_eq!(patched(input).patches, *patches, "{message}");
    }
}

#[test]
fn other_problems_are_errors_or_warnings() {
    let cases: Vec<(JsonValue, &str)> = vec![
        (
            parameter(r##"{ "$ref": "#/parameters/none" }"##),
            "Could not resolve reference #/components/parameters/none",
        ),
        (
            doc(r##"{ "definitions": { "A": { "properties": { "b": { "$ref": "#/definitions/B" } } } } }"##),
            "Could not resolve reference #/definitions/B",
        ),
        (
            doc(r##"{ "definitions": { "A": { "x-ms-odata": "#/definitions/B" } } }"##),
            "Could not resolve reference #/definitions/B",
        ),
        (
            doc(r##"{ "definitions": { "A": { "properties": { "b": { "$ref": "#/x-none/B" } } } } }"##),
            "direct $ref not found #/x-none/B",
        ),
        (
            parameter(
                r##"{ "name": "q", "in": "query", "type": "array", "items": { "type": "string" }, "collectionFormat": "pipes" }, { "name": "h", "in": "header", "type": "array", "items": { "type": "string" }, "collectionFormat": "pipes" }"##,
            ),
            "collectionFormat:pipes is no longer supported except for in:query parameters",
        ),
        (
            parameter(
                r##"{ "name": "q", "in": "query", "type": "array", "items": { "type": "string" }, "schema": {} }"##,
            ),
            "parameter has array,items and schema",
        ),
        (
            response(
                r##"{ "description": "ok", "headers": { "X": { "type": "array", "items": { "type": "string", "collectionFormat": "csv" } } } }"##,
            ),
            "Nested collectionFormats are not supported",
        ),
        (
            operation(
                r##"{ "operationId": "op", "parameters": [ { "name": "a", "in": "body", "schema": {} }, { "name": "b", "in": "body", "schema": {} } ], "responses": { "200": { "description": "ok" } } }"##,
            ),
            "Operation op has multiple requestBodies",
        ),
    ];
    for (input, message) in &cases {
        assert_eq!(failure(input), *message);
        let mut options = Options::new();
        options.warn_only = true;
        convert_obj(input, &mut options).unwrap();
    }
    assert_eq!(failure(&doc(r#"{ "info": [] }"#)), "info must be an object");
}

#[test]
fn terms_of_service_are_no_null() {
    let input = json(
        r#"{ "openapi": "3.0.0", "info": { "title": "T", "version": "1", "termsOfService": null }, "paths": {} }"#,
    );
    assert_eq!(failure(&input), "(Patchable) info.termsOfService cannot be null");
    let options = patched(&input);
    assert_eq!(options.patches, 2);
    assert!(options.openapi.get("info").unwrap().get("termsOfService").is_none());
}

#[test]
fn problems_count_from_nothing_each_time() {
    let input = parameter(r#"{ "name": "id", "in": "path" }"#);
    let mut options = Options::new();
    options.patch = true;
    options.patches = 40;
    convert_obj(&input, &mut options).unwrap();
    assert_eq!(options.patches, 2);
}

#[test]
fn warnings_take_the_place_of_other_errors() {
    let mut options = Options::new();
    options.warn_only = true;
    let input = doc(
        r#"{
            "parameters": { "a b": { "name": "one", "in": "query", "type": "string" }, "a_b": { "name": "two", "in": "query", "type": "integer" } },
            "responses": { "a b": { "description": "one" }, "a_b": { "description": "two" } },
            "securityDefinitions": { "a b": { "type": "basic" }, "a_b": { "type": "apiKey", "name": "k", "in": "header" } }
        }"#,
    );
    convert_obj(&input, &mut options).unwrap();
    let components = options.openapi.get("components").unwrap();
    assert_eq!(
        components.get("parameters"),
        Some(&json(
            r#"{
                "a b": { "name": "one", "in": "query", "schema": { "type": "string" }, "x-s2o-warning": "Duplicate sanitised parameter name a_b" },
                "a_b": { "name": "two", "in": "query", "schema": { "type": "integer" } }
            }"#
        ))
    );
    assert_eq!(
        components.get("responses"),
        Some(&json(
            r#"{
                "a b": { "description": "one", "x-s2o-warning": "Duplicate sanitised response name a_b" },
                "a_b": { "description": "two" }
            }"#
        ))
    );
    assert_eq!(
        components.get("securitySchemes"),
        Some(&json(
            r#"{
                "a b": { "type": "http", "scheme": "basic", "x-s2o-warning": "Duplicate sanitised securityScheme name a_b" },
                "a_b": { "type": "apiKey", "name": "k", "in": "header" }
            }"#
        ))
    );

    let input = doc(r#"{ "info": "none" }"#);
    assert_eq!(failure(&input), "info must be an object");
    let mut options = Options::new();
    options.warn_only = true;
    options.patch = true;
    convert_obj(&input, &mut options).unwrap();
    assert_eq!(
        options.openapi.get("info"),
        Some(&json(r#"{ "x-s2o-warning": "info must be an object", "title": "", "version": "" }"#))
    );
}
