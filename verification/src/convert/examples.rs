//! Azure `x-ms-examples`.

use vstd::prelude::*;

use crate::common::{self, sanitise_all};
use crate::convert::header;
use crate::convert::response::keys_of;
use crate::jptr;
use crate::json::{self, Json, Members, Text};
use crate::text;
use crate::value::{self, cloned, get_at, get_at_mut, JsonValue, Object};

verus! {

// --- parameters ------------------------------------------------------------

/// Whether a parameter has this name. A `$ref` is followed.
pub open spec fn param_named(param: Json, pname: Text, openapi: Json) -> bool {
    match param.text_member("$ref"@) {
        Some(r) => json::text_of(json::member_of(jptr::read(openapi, r), "name"@)) == Some(pname),
        None => param.says("name"@, pname),
    }
}

/// The value with the member `name` set under `examples`.
pub open spec fn example_set(j: Json, name: Text, v: Json) -> Json {
    let j1 = j.with_new("examples"@, Json::empty());
    j1.with("examples"@, j1.member("examples"@)->0.with(name, v))
}

/// The parameter with an example, when it matches and has no inline example.
pub open spec fn param_example_set(
    param: Json,
    pname: Text,
    example_name: Text,
    v: Json,
    openapi: Json,
) -> Json {
    if param_named(param, pname, openapi) && !param.has("example"@) {
        example_set(param, example_name, Json::single("value"@, v))
    } else {
        param
    }
}

/// The parameters with an example on each that matches.
pub open spec fn params_example_set(
    params: Json,
    pname: Text,
    example_name: Text,
    v: Json,
    openapi: Json,
) -> Json {
    match params {
        Json::Array(a) => Json::Array(
            Seq::new(
                a.len(),
                |i: int| param_example_set(a[i], pname, example_name, v, openapi),
            ),
        ),
        _ => params,
    }
}

/// The operation and the path parameters with the example values from position
/// `i` on.
pub open spec fn param_examples_from(
    op: Json,
    path_params: Json,
    example_name: Text,
    params: Members,
    i: nat,
    openapi: Json,
) -> (Json, Json)
    decreases params.len() - i,
{
    if i >= params.len() {
        (op, path_params)
    } else {
        let (pname, v) = params[i as int];
        let op1 = match op.member("parameters"@) {
            Some(Json::Array(a)) => op.with(
                "parameters"@,
                params_example_set(Json::Array(a), pname, example_name, v, openapi),
            ),
            _ => op,
        };
        let p1 = params_example_set(path_params, pname, example_name, v, openapi);
        param_examples_from(op1, p1, example_name, params, i + 1, openapi)
    }
}

/// The members of an optional object. Any other value has none.
pub open spec fn members_of(j: Option<Json>) -> Members {
    json::value_or(j, Json::Null).members()
}

/// Set the member `name` under `examples`, creating the object.
fn put_example(j: &mut JsonValue, name: &str, v: JsonValue)
    ensures
        final(j)@ == example_set(old(j)@, name@, v@),
{
    j.put_new("examples", JsonValue::empty_object());
    proof {
        header::json_new_member(old(j)@, "examples"@, Json::empty());
    }
    if let Some(examples) = j.get_mut("examples") {
        examples.put(name, v);
    }
}

/// Set `param.examples[name] = {value}` when the param matches and has no
/// inline example. Resolves a `$ref` target inside the document.
pub fn set_param_example(
    param: &mut JsonValue,
    pname: &str,
    example_name: &str,
    v: &JsonValue,
    openapi: &JsonValue,
)
    ensures
        final(param)@ == param_example_set(
            old(param)@,
            pname@,
            example_name@,
            v@,
            openapi@,
        ),
{
    let named = match param.get_str("$ref") {
        Some(r) => match jptr::get(openapi, r) {
            Some(t) => t.says("name", pname),
            None => false,
        },
        None => param.says("name", pname),
    };
    if named && !param.has("example") {
        put_example(param, example_name, JsonValue::single("value", v.clone()));
    }
}

/// Set an example on each parameter of a list that matches.
fn set_list_example(
    params: &mut JsonValue,
    pname: &str,
    example_name: &str,
    v: &JsonValue,
    openapi: &JsonValue,
)
    ensures
        final(params)@ == params_example_set(
            old(params)@,
            pname@,
            example_name@,
            v@,
            openapi@,
        ),
{
    if let Some(list) = params.as_array_mut() {
        let ghost a = value::views(list@);
        let mut i: usize = 0;
        while i < list.len()
            invariant
                i <= list@.len(),
                list@.len() == a.len(),
                forall|k: int|
                    0 <= k < i ==> (#[trigger] list@[k])@ == param_example_set(
                        a[k],
                        pname@,
                        example_name@,
                        v@,
                        openapi@,
                    ),
                forall|k: int| i <= k < a.len() ==> (#[trigger] list@[k])@ == a[k],
            decreases list@.len() - i,
        {
            set_param_example(&mut list[i], pname, example_name, v, openapi);
            i += 1;
        }
        assert(value::views(list@) =~= Seq::new(
            a.len(),
            |i: int| param_example_set(a[i], pname@, example_name@, v@, openapi@),
        ));
    }
}

/// Attach example parameter values to the matching op or path parameters.
pub fn apply_example_parameters(
    op: &mut JsonValue,
    path_params: &mut JsonValue,
    example_name: &str,
    example: &JsonValue,
    openapi: &JsonValue,
)
    ensures
        (final(op)@, final(path_params)@) == param_examples_from(
            old(op)@,
            old(path_params)@,
            example_name@,
            members_of(example@.member("parameters"@)),
            0,
            openapi@,
        ),
{
    let params = match example.get("parameters") {
        Some(v) => match v.as_object() {
            Some(m) => m,
            None => {
                return;
            },
        },
        None => {
            return;
        },
    };
    let n: usize = params.len();
    let mut i: usize = 0;
    while i < n
        invariant
            i <= n,
            n == params@.len(),
            param_examples_from(
                old(op)@,
                old(path_params)@,
                example_name@,
                params@,
                0,
                openapi@,
            ) == param_examples_from(
                op@,
                path_params@,
                example_name@,
                params@,
                i as nat,
                openapi@,
            ),
        decreases n - i,
    {
        let pname = params.key_at(i).as_str();
        let v = params.value_at(i);
        let is_list = match op.get("parameters") {
            Some(p) => p.is_array(),
            None => false,
        };
        if is_list {
            if let Some(list) = op.get_mut("parameters") {
                set_list_example(list, pname, example_name, v, openapi);
            }
        }
        set_list_example(path_params, pname, example_name, v, openapi);
        i += 1;
    }
}

// --- responses -------------------------------------------------------------

/// The operation with the header values from position `i` on as examples of the
/// headers of the response `r`.
pub open spec fn header_examples_from(op: Json, r: Text, headers: Members, i: nat) -> Json
    decreases headers.len() - i,
{
    if i >= headers.len() {
        op
    } else {
        let (h, v) = headers[i as int];
        let at = seq!["responses"@, r, "headers"@, h];
        let op1 = match json::value_at(op, at, 0) {
            Some(header) => json::with_at(op, at, 0, header.with("example"@, v)),
            None => op,
        };
        header_examples_from(op1, r, headers, i + 1)
    }
}

/// The operation with the example under each media type of the response `r` from
/// position `i` on.
pub open spec fn content_examples_from(
    op: Json,
    r: Text,
    types: Seq<Text>,
    i: nat,
    name: Text,
    v: Json,
) -> Json
    decreases types.len() - i,
{
    if i >= types.len() {
        op
    } else {
        let at = seq!["responses"@, r, "content"@, types[i as int]];
        let op1 = match json::value_at(op, at, 0) {
            Some(ct) => json::with_at(op, at, 0, example_set(ct, name, v)),
            None => op,
        };
        content_examples_from(op1, r, types, i + 1, name, v)
    }
}

/// The document with a value under `components.examples`.
pub open spec fn component_example_set(openapi: Json, key: Text, v: Json) -> Json {
    let d1 = openapi.with_new("components"@, Json::empty());
    d1.with("components"@, example_set(d1.member("components"@)->0, key, v))
}

/// The operation and the document with the body of an example response.
pub open spec fn body_example(
    op: Json,
    name: Text,
    se: Text,
    r: Text,
    resp: Json,
    openapi: Json,
) -> (Json, Json) {
    match resp.member("body"@) {
        Some(body) => {
            let types = json::keys(
                members_of(json::value_at(op, seq!["responses"@, r, "content"@], 0)),
            );
            (
                content_examples_from(
                    op,
                    r,
                    types,
                    0,
                    name,
                    Json::single("$ref"@, Json::String("#/components/examples/"@ + se)),
                ),
                component_example_set(openapi, se, Json::single("value"@, body)),
            )
        },
        None => (op, openapi),
    }
}

/// The operation and the document with the example responses from position `i`
/// on.
pub open spec fn response_examples_from(
    op: Json,
    name: Text,
    se: Text,
    responses: Members,
    i: nat,
    openapi: Json,
) -> (Json, Json)
    decreases responses.len() - i,
{
    if i >= responses.len() {
        (op, openapi)
    } else {
        let (r, resp) = responses[i as int];
        let op1 = header_examples_from(op, r, members_of(resp.member("headers"@)), 0);
        let (op2, d2) = body_example(op1, name, se, r, resp, openapi);
        response_examples_from(op2, name, se, responses, i + 1, d2)
    }
}

/// Set the header values of an example response as examples.
fn apply_header_examples(op: &mut JsonValue, r: &str, headers: Option<&JsonValue>)
    ensures
        final(op)@ == header_examples_from(old(op)@, r@, members_of(value::opt(headers)), 0),
{
    let m = match headers {
        Some(v) => match v.as_object() {
            Some(m) => m,
            None => {
                return;
            },
        },
        None => {
            return;
        },
    };
    let n: usize = m.len();
    let mut i: usize = 0;
    while i < n
        invariant
            i <= n,
            n == m@.len(),
            header_examples_from(old(op)@, r@, m@, 0) == header_examples_from(
                op@,
                r@,
                m@,
                i as nat,
            ),
        decreases n - i,
    {
        let h = m.key_at(i).as_str();
        let names: [&str; 4] = ["responses", r, "headers", h];
        assert(value::names_of(names@) =~= seq!["responses"@, r@, "headers"@, h@]);
        if let Some(header) = get_at_mut(op, &names) {
            header.put("example", m.value_at(i).clone());
        }
        i += 1;
    }
}

/// Reference an example from each media type of a response.
fn apply_content_examples(
    op: &mut JsonValue,
    r: &str,
    types: &Vec<String>,
    name: &str,
    v: &JsonValue,
)
    ensures
        final(op)@ == content_examples_from(
            old(op)@,
            r@,
            json::texts(types@),
            0,
            name@,
            v@,
        ),
{
    let ghost ts = json::texts(types@);
    let mut i: usize = 0;
    while i < types.len()
        invariant
            i <= types@.len(),
            ts == json::texts(types@),
            content_examples_from(old(op)@, r@, ts, 0, name@, v@) == content_examples_from(
                op@,
                r@,
                ts,
                i as nat,
                name@,
                v@,
            ),
        decreases types@.len() - i,
    {
        let ct = types[i].as_str();
        assert(ts[i as int] == ct@);
        let names: [&str; 4] = ["responses", r, "content", ct];
        assert(value::names_of(names@) =~= seq!["responses"@, r@, "content"@, ct@]);
        if let Some(content_type) = get_at_mut(op, &names) {
            put_example(content_type, name, v.clone());
        }
        i += 1;
    }
}

/// Insert a value under `components.examples`, creating the bucket.
pub fn set_component_example(openapi: &mut JsonValue, key: &str, v: JsonValue)
    ensures
        final(openapi)@ == component_example_set(old(openapi)@, key@, v@),
{
    openapi.put_new("components", JsonValue::empty_object());
    proof {
        header::json_new_member(old(openapi)@, "components"@, Json::empty());
    }
    if let Some(components) = openapi.get_mut("components") {
        put_example(components, key, v);
    }
}

/// Attach the body of an example response.
fn apply_body_example(
    op: &mut JsonValue,
    name: &str,
    se: &str,
    r: &str,
    resp: &JsonValue,
    openapi: &mut JsonValue,
)
    ensures
        (final(op)@, final(openapi)@) == body_example(
            old(op)@,
            name@,
            se@,
            r@,
            resp@,
            old(openapi)@,
        ),
{
    if let Some(body) = resp.get("body") {
        set_component_example(openapi, se, JsonValue::single("value", body.clone()));
        let names: [&str; 3] = ["responses", r, "content"];
        assert(value::names_of(names@) =~= seq!["responses"@, r@, "content"@]);
        let types = keys_of(get_at(op, &names));
        let pointer = text::cat("#/components/examples/", se);
        let reference = JsonValue::single("$ref", JsonValue::String(pointer));
        apply_content_examples(op, r, &types, name, &reference);
    }
}

/// Attach example response headers and bodies.
pub fn apply_example_responses(
    op: &mut JsonValue,
    example_name: &str,
    se: &str,
    example: &JsonValue,
    openapi: &mut JsonValue,
)
    ensures
        (final(op)@, final(openapi)@) == response_examples_from(
            old(op)@,
            example_name@,
            se@,
            members_of(example@.member("responses"@)),
            0,
            old(openapi)@,
        ),
{
    let responses = match example.get("responses") {
        Some(v) => match v.as_object() {
            Some(m) => m,
            None => {
                return;
            },
        },
        None => {
            return;
        },
    };
    let n: usize = responses.len();
    let mut i: usize = 0;
    while i < n
        invariant
            i <= n,
            n == responses@.len(),
            response_examples_from(
                old(op)@,
                example_name@,
                se@,
                responses@,
                0,
                old(openapi)@,
            ) == response_examples_from(
                op@,
                example_name@,
                se@,
                responses@,
                i as nat,
                openapi@,
            ),
        decreases n - i,
    {
        let r = responses.key_at(i).as_str();
        let resp = responses.value_at(i);
        // Headers: header.example = value.
        apply_header_examples(op, r, resp.get("headers"));
        // Body: into components.examples and referenced from each content type.
        apply_body_example(op, example_name, se, r, resp, openapi);
        i += 1;
    }
}

// --- examples --------------------------------------------------------------

/// The operation, the path parameters and the document with the examples from
/// position `i` on.
pub open spec fn ms_examples_from(
    op: Json,
    path_params: Json,
    examples: Members,
    i: nat,
    openapi: Json,
) -> (Json, Json, Json)
    decreases examples.len() - i,
{
    if i >= examples.len() {
        (op, path_params, openapi)
    } else {
        let (name, example) = examples[i as int];
        let (op1, p1) = param_examples_from(
            op,
            path_params,
            name,
            members_of(example.member("parameters"@)),
            0,
            openapi,
        );
        let (op2, d2) = response_examples_from(
            op1,
            name,
            common::sanitised_all(name),
            members_of(example.member("responses"@)),
            0,
            openapi,
        );
        ms_examples_from(op2, p1, examples, i + 1, d2)
    }
}

/// The path and the document with the `x-ms-examples` of the operation `method`
/// turned into examples. The path-level parameters are off the path meanwhile.
pub open spec fn ms_examples_converted(path: Json, method: Text, openapi: Json) -> (Json, Json) {
    match path.member2(method, "x-ms-examples"@) {
        Some(Json::Object(examples)) => {
            let params = json::value_or(path.member("parameters"@), Json::Null);
            let path1 = path.dropped("parameters"@);
            match path1.member(method) {
                Some(op) => {
                    let (op2, p2, d2) = ms_examples_from(op, params, examples, 0, openapi);
                    let path2 = path1.with(method, op2.without("x-ms-examples"@));
                    if p2 is Null {
                        (path2, d2)
                    } else {
                        (path2.with("parameters"@, p2), d2)
                    }
                },
                None => (path1, openapi),
            }
        },
        _ => (path, openapi),
    }
}

/// Apply every example of an operation.
fn apply_examples(
    op: &mut JsonValue,
    path_params: &mut JsonValue,
    examples: &Object,
    openapi: &mut JsonValue,
)
    ensures
        (final(op)@, final(path_params)@, final(openapi)@) == ms_examples_from(
            old(op)@,
            old(path_params)@,
            examples@,
            0,
            old(openapi)@,
        ),
{
    let n: usize = examples.len();
    let mut i: usize = 0;
    while i < n
        invariant
            i <= n,
            n == examples@.len(),
            ms_examples_from(old(op)@, old(path_params)@, examples@, 0, old(openapi)@)
                == ms_examples_from(op@, path_params@, examples@, i as nat, openapi@),
        decreases n - i,
    {
        let name = examples.key_at(i).as_str();
        let example = examples.value_at(i);
        let se = sanitise_all(name);
        apply_example_parameters(op, path_params, name, example, openapi);
        apply_example_responses(op, name, se.as_str(), example, openapi);
        i += 1;
    }
}

/// Convert Azure `x-ms-examples` into OpenAPI `examples`.
///
/// Each example maps its parameter values onto matching op or path parameters,
/// its response header values onto response headers, and its response body into
/// `components.examples` with a `$ref` from each response content type. The
/// `x-ms-examples` member is removed.
pub fn convert_ms_examples(path: &mut JsonValue, method: &str, openapi: &mut JsonValue)
    ensures
        (final(path)@, final(openapi)@) == ms_examples_converted(
            old(path)@,
            method@,
            old(openapi)@,
        ),
{
    let found = cloned(value::member_of(path.get(method), "x-ms-examples"));
    let examples = match found {
        Some(JsonValue::Object(m)) => m,
        _ => {
            return;
        },
    };
    // Detach path-level parameters so the op borrow and the path-param writes do
    // not overlap. They are reattached after the examples are applied.
    let removed: Option<JsonValue> = match path.as_object_mut() {
        Some(m) => m.remove("parameters"),
        None => None,
    };
    let mut path_params = match removed {
        Some(p) => p,
        None => JsonValue::Null,
    };
    if let Some(op) = path.get_mut(method) {
        apply_examples(op, &mut path_params, &examples, openapi);
        op.cut("x-ms-examples");
    } else {
        return;
    }
    if !path_params.is_null() {
        path.put("parameters", path_params);
    }
}

} // verus!
