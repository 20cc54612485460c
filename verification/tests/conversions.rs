//! Focused conversion tests beyond the golden corpus.
//!
//! Each case locks down a behavior the corpus does not exercise: the Azure
//! `x-ms-*` conversions, the version gate edges, security scheme conversion,
//! schema extension fixups, duplicate-name errors, URL validation,
//! collectionFormat handling, type-array and items fixups, and server variable
//! extraction. The expected values are checked against the conversion algorithm.

use swagger2openapi::serial::from_json_text;
use swagger2openapi::value::JsonValue;
use swagger2openapi::{convert_obj, Options};

/// The value of a JSON text.
fn json(text: &str) -> JsonValue {
    from_json_text(text).expect("a JSON text")
}

/// The value under nested keys and indices.
fn at<'a>(value: &'a JsonValue, keys: &[&str]) -> &'a JsonValue {
    let mut here = value;
    for key in keys {
        here = match here {
            JsonValue::Array(list) => &list[key.parse::<usize>().unwrap()],
            _ => here.get(key).unwrap_or_else(|| panic!("no {key}")),
        };
    }
    here
}

/// Convert a value with default options, returning the document or the error.
fn convert(input: JsonValue) -> Result<JsonValue, String> {
    convert_with(input, false)
}

/// Convert with an explicit patch flag.
fn convert_with(input: JsonValue, patch: bool) -> Result<JsonValue, String> {
    let mut options = Options::new();
    options.patch = patch;
    convert_obj(&input, &mut options)
        .map(|_| options.openapi)
        .map_err(|e| e.message)
}

/// Wrap a Swagger 2.0 skeleton around `extra` top-level members.
fn doc(extra: JsonValue) -> JsonValue {
    let mut base = json(r##"{
        "swagger": "2.0",
        "info": { "title": "T", "version": "1" },
        "paths": {}
    }"##);
    if let (Some(b), Some(e)) = (base.as_object_mut(), extra.as_object()) {
        b.set_all(e);
    }
    base
}

// --- x-ms-parameterized-host ------------------------------------------

#[test]
fn parameterized_host_builds_one_server_without_scheme_prefix() {
    let out = convert(doc(json(r##"{
        "schemes": ["https"],
        "x-ms-parameterized-host": {
            "hostTemplate": "{accountName}.example.com",
            "useSchemePrefix": false,
            "parameters": [
                { "name": "accountName", "in": "host", "required": true, "type": "string" }
            ]
        }
    }"##)))
    .unwrap();
    assert_eq!(*at(&out, &["servers"]), json(r##"[{
            "url": "{accountName}.example.com",
            "variables": { "accountName": { "default": "none" } }
        }]"##)
    );
    assert!(out.get("x-ms-parameterized-host").is_none());
}

#[test]
fn parameterized_host_prefixes_each_scheme() {
    // basePath alone first yields a {url: basePath} server. The parameterized
    // host then appends one prefixed server per scheme. The default comes from
    // the first enum value.
    let out = convert(doc(json(r##"{
        "basePath": "/v1",
        "schemes": ["http", "https"],
        "x-ms-parameterized-host": {
            "hostTemplate": "{region}.example.com",
            "parameters": [
                { "name": "region", "in": "host", "required": true, "type": "string",
                  "enum": ["us", "eu"] }
            ]
        }
    }"##)))
    .unwrap();
    assert_eq!(*at(&out, &["servers"]), json(r##"[
            { "url": "/v1" },
            {
                "url": "http://{region}.example.com/v1",
                "variables": { "region": { "enum": ["us", "eu"], "default": "us" } }
            },
            {
                "url": "https://{region}.example.com/v1",
                "variables": { "region": { "enum": ["us", "eu"], "default": "us" } }
            }
        ]"##)
    );
}

// --- x-ms-examples -----------------------------------------------------

#[test]
fn ms_examples_map_onto_parameters_and_responses() {
    let out = convert(doc(json(r##"{
        "paths": { "/p": { "get": {
            "operationId": "getP",
            "parameters": [ { "name": "q", "in": "query", "type": "string" } ],
            "responses": { "200": { "description": "ok", "schema": { "type": "object" } } },
            "x-ms-examples": { "Ex 1": {
                "parameters": { "q": "hello" },
                "responses": { "200": { "body": { "a": 1 } } }
            } }
        } } }
    }"##)))
    .unwrap();
    let op = at(&out, &["paths", "/p", "get"]);
    assert_eq!(*at(op, &["parameters", "0", "examples", "Ex 1"]), json(r##"{ "value": "hello" }"##)
    );
    // The body lands under components.examples keyed by the sanitised name.
    assert_eq!(*at(&out, &["components", "examples", "Ex_1"]), json(r##"{ "value": { "a": 1 } }"##)
    );
    // Each content type references the shared example by the raw key.
    assert_eq!(*at(op, &["responses", "200", "content", "*/*", "examples", "Ex 1"]), json(r##"{ "$ref": "#/components/examples/Ex_1" }"##)
    );
    assert!(op.get("x-ms-examples").is_none());
}

#[test]
fn ms_examples_set_response_header_example() {
    let out = convert(doc(json(r##"{
        "paths": { "/p": { "get": {
            "operationId": "getP",
            "responses": { "200": { "description": "ok",
                "headers": { "X-Rate": { "type": "string" } } } },
            "x-ms-examples": { "Ex": {
                "responses": { "200": { "headers": { "X-Rate": "42" } } }
            } }
        } } }
    }"##)))
    .unwrap();
    let header = at(&out, &["paths", "/p", "get", "responses", "200", "headers", "X-Rate"]);
    assert_eq!(*at(header, &["example"]), json(r##""42""##));
}

// --- version gate -----------------------------------------------------

#[test]
fn numeric_swagger_two_is_accepted() {
    // The version gate compares loosely, so a numeric 2.0 and the integer 2
    // both satisfy it the same way the string "2.0" does.
    let out = convert(doc(json(r##"{ "swagger": 2.0 }"##))).unwrap();
    assert_eq!(at(&out, &["openapi"]).as_str(), Some("3.0.0"));
    let mut int_two = doc(json(r##"{}"##));
    int_two.put("swagger", json(r##"2"##));
    let out = convert(int_two).unwrap();
    assert_eq!(at(&out, &["openapi"]).as_str(), Some("3.0.0"));
}

#[test]
fn near_miss_versions_are_rejected() {
    for bad in [json(r##"2.5"##), json(r##""2""##), json(r##""2.0.0""##)] {
        let mut input = doc(json(r##"{}"##));
        input.put("swagger", bad.clone());
        let err = convert(input).unwrap_err();
        assert!(
            err.contains("Unsupported swagger/OpenAPI version"),
            "expected reject for {bad:?}, got {err}"
        );
    }
}

// --- oauth2 security scheme ------------------------------------------

#[test]
fn oauth2_flow_rename_and_url_trim() {
    let out = convert(doc(json(r##"{
        "securityDefinitions": { "oa": {
            "type": "oauth2", "flow": "accessCode",
            "authorizationUrl": "https://ex/auth?x=1",
            "tokenUrl": "https://ex/token?y=2",
            "scopes": { "read": "r" }
        } }
    }"##)))
    .unwrap();
    assert_eq!(*at(&out, &["components", "securitySchemes", "oa"]), json(r##"{ "type": "oauth2", "flows": { "authorizationCode": {
            "authorizationUrl": "https://ex/auth",
            "tokenUrl": "https://ex/token",
            "scopes": { "read": "r" }
        } } }"##)
    );
}

#[test]
fn oauth2_query_only_url_collapses_to_slash() {
    let out = convert(doc(json(r##"{
        "securityDefinitions": { "oa": {
            "type": "oauth2", "flow": "application", "tokenUrl": "?onlyquery", "scopes": {}
        } }
    }"##)))
    .unwrap();
    assert_eq!(at(&out, &["components", "securitySchemes", "oa", "flows", "clientCredentials", "tokenUrl"]).as_str(), Some("/"));
}

#[test]
fn basic_scheme_becomes_http_basic() {
    let out = convert(doc(json(r##"{
        "securityDefinitions": { "b": { "type": "basic" } }
    }"##)))
    .unwrap();
    assert_eq!(*at(&out, &["components", "securitySchemes", "b"]), json(r##"{ "type": "http", "scheme": "basic" }"##)
    );
}

#[test]
fn oauth2_with_name_errors_without_patch() {
    let err = convert(doc(json(r##"{
        "securityDefinitions": { "oa": {
            "type": "oauth2", "flow": "accessCode",
            "authorizationUrl": "https://ex/a", "tokenUrl": "https://ex/t",
            "scopes": {}, "name": "x"
        } }
    }"##)))
    .unwrap_err();
    assert_eq!(
        err,
        "(Patchable) oauth2 securitySchemes should not have name property"
    );
}

// --- schema extension fixups -----------------------------------------

#[test]
fn schema_extensions_promote_to_keywords() {
    let out = convert(doc(json(r##"{
        "definitions": { "Foo": {
            "type": "object",
            "x-anyOf": [ { "type": "string" }, { "type": "number" } ],
            "x-required": ["a", "b"],
            "x-nullable": true,
            "properties": { "a": { "type": "string" } }
        } }
    }"##)))
    .unwrap();
    assert_eq!(*at(&out, &["components", "schemas", "Foo"]), json(r##"{
            "type": "object",
            "properties": { "a": { "type": "string" } },
            "required": ["a", "b"],
            "anyOf": [ { "type": "string" }, { "type": "number" } ],
            "nullable": true
        }"##)
    );
}

#[test]
fn discriminator_mapping_rewrites_definition_pointers() {
    let out = convert(doc(json(r##"{
        "definitions": { "Pet": {
            "type": "object",
            "x-discriminator": {
                "propertyName": "kind",
                "mapping": { "cat": "#/definitions/Cat" }
            }
        }, "Cat": { "type": "object" } }
    }"##)))
    .unwrap();
    assert_eq!(*at(&out, &["components", "schemas", "Pet", "discriminator"]), json(r##"{ "propertyName": "kind", "mapping": { "cat": "#/components/schemas/Cat" } }"##)
    );
}

// --- duplicate sanitised names ---------------------------------------

#[test]
fn duplicate_parameter_name_errors() {
    let err = convert(doc(json(r##"{
        "parameters": {
            "a b": { "name": "x", "in": "query", "type": "string" },
            "a_b": { "name": "y", "in": "query", "type": "string" }
        }
    }"##)))
    .unwrap_err();
    assert_eq!(err, "Duplicate sanitised parameter name a_b");
}

#[test]
fn duplicate_response_name_errors() {
    let err = convert(doc(json(r##"{
        "responses": { "a b": { "description": "d1" }, "a_b": { "description": "d2" } }
    }"##)))
    .unwrap_err();
    assert_eq!(err, "Duplicate sanitised response name a_b");
}

// --- origin, odata, logo, termsOfService -----------------------------

#[test]
fn origin_provenance_is_recorded() {
    let mut options = Options::new();
    options.origin = true;
    options.source = Some("http://ex/api.json".to_string());
    convert_obj(&doc(json(r##"{}"##)), &mut options).unwrap();
    assert_eq!(*at(&options.openapi, &["x-origin"]), json(r##"[{
            "url": "http://ex/api.json",
            "format": "swagger",
            "version": "2.0",
            "converter": { "url": "https://github.com/mermade/oas-kit", "version": "7.0.8" }
        }]"##)
    );
}

#[test]
fn ms_odata_pointer_is_rewritten() {
    let out = convert(doc(json(r##"{
        "definitions": {
            "Foo": { "type": "object", "x-ms-odata": "#/definitions/Bar" },
            "Bar": { "type": "object" }
        }
    }"##)))
    .unwrap();
    assert_eq!(at(&out, &["components", "schemas", "Foo", "x-ms-odata"]).as_str(), Some("#/components/schemas/Bar"));
}

#[test]
fn logo_moves_under_patch_else_errors() {
    let err = convert(doc(
        json(r##"{ "info": { "title": "T", "version": "1", "logo": { "url": "x" } } }"##),
    ))
    .unwrap_err();
    assert_eq!(err, "(Patchable) info should not have logo property");

    let out = convert_with(
        doc(json(r##"{ "info": { "title": "T", "version": "1", "logo": { "url": "x" } } }"##)),
        true,
    )
    .unwrap();
    assert_eq!(*at(&out, &["info", "x-logo"]), json(r##"{ "url": "x" }"##));
    assert!(at(&out, &["info"]).get("logo").is_none());
}

#[test]
fn terms_of_service_url_validation() {
    for ok in [
        "mailto:a@b.com",
        "urn:isbn:123",
        "foo://bar",
        "http://ex.com",
    ] {
        let out = convert(doc(json(&r##"{ "info": { "title": "T", "version": "1", "termsOfService": "TERMS" } }"##.replace("TERMS", ok))))
        .unwrap();
        assert_eq!(at(&out, &["info", "termsOfService"]).as_str(), Some(ok));
    }
    for bad in ["example.com", "not a url"] {
        let err = convert(doc(json(&r##"{ "info": { "title": "T", "version": "1", "termsOfService": "TERMS" } }"##.replace("TERMS", bad))))
        .unwrap_err();
        assert_eq!(err, "(Patchable) info.termsOfService must be a URL");
    }
    // Under patch the bad value is dropped.
    let out = convert_with(
        doc(json(r##"{ "info": { "title": "T", "version": "1", "termsOfService": "example.com" } }"##)),
        true,
    )
    .unwrap();
    assert!(at(&out, &["info"]).get("termsOfService").is_none());
}

// --- collectionFormat -------------------------------------------------

#[test]
fn param_tsv_errors_without_warn_only() {
    let err = convert(doc(json(r##"{
        "paths": { "/p": { "get": {
            "parameters": [ { "name": "q", "in": "query", "type": "array",
                "items": { "type": "string" }, "collectionFormat": "tsv" } ],
            "responses": { "200": { "description": "ok" } }
        } } }
    }"##)))
    .unwrap_err();
    assert_eq!(err, "collectionFormat:tsv is no longer supported");
}

#[test]
fn param_tsv_under_warn_only_records_marker() {
    let mut options = Options::new();
    options.warn_only = true;
    convert_obj(
        &doc(json(r##"{
            "paths": { "/p": { "get": {
                "parameters": [ { "name": "q", "in": "query", "type": "array",
                    "items": { "type": "string" }, "collectionFormat": "tsv" } ],
                "responses": { "200": { "description": "ok" } }
            } } }
        }"##)),
        &mut options,
    )
    .unwrap();
    let param = at(&options.openapi, &["paths", "/p", "get", "parameters", "0"]);
    assert_eq!(at(param, &["x-collectionFormat"]).as_str(), Some("tsv"));
}

/// Build a response with one array-typed header carrying `cf`.
///
/// The header has no nested `items`, so only the array collectionFormat branch
/// runs. A header that pairs a collectionFormat with a mismatched nested items
/// format triggers a separate "Nested collectionFormats" error instead.
fn header_doc(cf: &str) -> JsonValue {
    doc(json(&r##"{
        "paths": { "/p": { "get": { "responses": { "200": {
            "description": "ok",
            "headers": { "X": { "type": "array", "collectionFormat": "FORMAT" } }
        } } } } }
    }"##.replace("FORMAT", cf)))
}

#[test]
fn header_collection_formats() {
    // multi -> explode, csv -> style simple.
    for (cf, key, value) in [
        ("multi", "explode", json(r##"true"##)),
        ("csv", "style", json(r##""simple""##)),
    ] {
        let out = convert(header_doc(cf)).unwrap();
        let header = at(&out, &["paths", "/p", "get", "responses", "200", "headers", "X"]);
        assert_eq!(*at(header, &[key]), value, "cf={cf}");
        assert!(header.get("collectionFormat").is_none());
    }
    // ssv and pipes error on headers.
    for (cf, msg) in [
        (
            "ssv",
            "collectionFormat:ssv is no longer supported for headers",
        ),
        (
            "pipes",
            "collectionFormat:pipes is no longer supported for headers",
        ),
    ] {
        assert_eq!(convert(header_doc(cf)).unwrap_err(), msg);
    }
    // tsv errors and records the marker under warn_only.
    assert_eq!(
        convert(header_doc("tsv")).unwrap_err(),
        "collectionFormat:tsv is no longer supported"
    );
    let mut options = Options::new();
    options.warn_only = true;
    convert_obj(&header_doc("tsv"), &mut options).unwrap();
    let header = at(&options.openapi, &["paths", "/p", "get", "responses", "200", "headers", "X"]);
    assert_eq!(at(header, &["x-collectionFormat"]).as_str(), Some("tsv"));
}

#[test]
fn param_style_and_explode_mapping() {
    // query/cookie csv -> form/explode false; ssv outside query errors.
    let out = convert(doc(json(r##"{
        "paths": { "/p": { "get": {
            "parameters": [ { "name": "q", "in": "query", "type": "array",
                "items": { "type": "string" }, "collectionFormat": "ssv" } ],
            "responses": { "200": { "description": "ok" } }
        } } }
    }"##)))
    .unwrap();
    let param = at(&out, &["paths", "/p", "get", "parameters", "0"]);
    assert_eq!(at(param, &["style"]).as_str(), Some("spaceDelimited"));

    let err = convert(doc(json(r##"{
        "paths": { "/p/{q}": { "get": {
            "parameters": [ { "name": "q", "in": "path", "required": true, "type": "array",
                "items": { "type": "string" }, "collectionFormat": "ssv" } ],
            "responses": { "200": { "description": "ok" } }
        } } }
    }"##)))
    .unwrap_err();
    assert_eq!(
        err,
        "collectionFormat:ssv is no longer supported except for in:query parameters"
    );
}

// --- type array and items collapse -----------------------------------

#[test]
fn type_array_with_null_under_patch() {
    let out = convert_with(
        doc(json(r##"{ "definitions": { "Foo": { "type": ["string", "null"], "maxLength": 5 } } }"##)),
        true,
    )
    .unwrap();
    assert_eq!(*at(&out, &["components", "schemas", "Foo"]), json(r##"{ "maxLength": 5, "nullable": true, "type": "string" }"##)
    );
}

#[test]
fn type_array_without_patch_errors() {
    let err = convert(doc(json(r##"{
        "definitions": { "Foo": { "type": ["string", "number"] } }
    }"##)))
    .unwrap_err();
    assert_eq!(err, "(Patchable) schema type must not be an array");
}

#[test]
fn items_array_collapses() {
    // length > 1 -> anyOf.
    let out = convert(doc(json(r##"{
        "definitions": { "Foo": { "type": "array",
            "items": [ { "type": "string" }, { "type": "number" } ] } }
    }"##)))
    .unwrap();
    assert_eq!(*at(&out, &["components", "schemas", "Foo", "items"]), json(r##"{ "anyOf": [ { "type": "string" }, { "type": "number" } ] }"##)
    );

    // empty -> {}.
    let out = convert(doc(json(r##"{
        "definitions": { "Foo": { "type": "array", "items": [] } }
    }"##)))
    .unwrap();
    assert_eq!(*at(&out, &["components", "schemas", "Foo", "items"]), json(r##"{}"##));

    // single -> the element.
    let out = convert(doc(json(r##"{
        "definitions": { "Foo": { "type": "array", "items": [ { "type": "string" } ] } }
    }"##)))
    .unwrap();
    assert_eq!(*at(&out, &["components", "schemas", "Foo", "items"]), json(r##"{ "type": "string" }"##)
    );
}

// --- server variables and null-strip ---------------------------------

#[test]
fn server_variables_collapse_doubled_braces() {
    let out = convert(doc(json(r##"{
        "host": "{{region}}.example.com",
        "basePath": "/{{ver}}"
    }"##)))
    .unwrap();
    assert_eq!(*at(&out, &["servers"]), json(r##"[{
            "url": "//{region}.example.com/{ver}",
            "variables": {
                "region": { "default": "unknown" },
                "ver": { "default": "unknown" }
            }
        }]"##)
    );
}

#[test]
fn null_strip_spares_extensions_default_and_example_paths() {
    let out = convert(doc(json(r##"{
        "x-keep": null,
        "default": null,
        "drop": null
    }"##)))
    .unwrap();
    assert!(out.get("x-keep").map(JsonValue::is_null).unwrap_or(false));
    assert!(out.get("default").map(JsonValue::is_null).unwrap_or(false));
    assert!(out.get("drop").is_none());
}

#[test]
fn null_strip_keeps_nulls_under_example_paths() {
    // A response example value of null survives because the path contains
    // "/examples", which matches the "/example" substring guard.
    let out = convert(doc(json(r##"{
        "paths": { "/p": { "get": {
            "responses": { "200": {
                "description": "ok",
                "schema": { "type": "object" },
                "examples": { "application/json": null }
            } }
        } } }
    }"##)))
    .unwrap();
    let examples = at(&out, &["paths", "/p", "get", "responses", "200", "content", "application/json", "examples", "response", "value"]);
    assert!(examples.is_null());
}

