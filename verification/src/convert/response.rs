//! Responses.

use vstd::prelude::*;

use crate::common::{self, decode_uri_component, sanitise};
use crate::convert::body::{self, listed_media_types, make_binary_schema};
use crate::convert::header::{self, process_header};
use crate::error::{self, warn_or_error, S2OError};
use crate::fixup::{self, fix_up_schema};
use crate::json::{self, Json, Members, Text};
use crate::options::{Options, Settings};
use crate::text;
use crate::value::{self, cloned, member_of, text_of, JsonValue};

verus! {

// --- references ------------------------------------------------------------

/// The 3.0 location of a 2.0 response reference.
pub open spec fn response_ref(r: Text) -> Text {
    "#/components/responses/"@ + common::sanitised(
        common::uri_decoded(text::replaced(r, "#/responses/"@, Seq::empty())),
    )
}

/// The response with its `$ref` in the 3.0 location, and the failure.
pub open spec fn response_ref_fixed(response: Json, r: Text, o: Settings) -> (Json, Option<Text>) {
    if text::occurs(r, "#/definitions/"@) {
        error::warned(response, "definition used as response: "@ + r, o)
    } else if text::starts(r, "#/responses/"@) {
        (response.with("$ref"@, Json::String(response_ref(r))), None)
    } else {
        (response, None)
    }
}

/// The 3.0 location of a 2.0 response reference.
fn move_response_ref(r: &str) -> (s: String)
    ensures
        s@ == response_ref(r@),
{
    let empty = "";
    proof {
        reveal_strlit("");
        assert(empty@ =~= Seq::empty());
    }
    let rest = decode_uri_component(text::replace(r, "#/responses/", empty).as_str());
    text::cat("#/components/responses/", sanitise(rest.as_str()).as_str())
}

/// Rewrite the `$ref` of a response.
fn fix_response_ref(response: &mut JsonValue, r: &str, options: &Options) -> (res: Result<
    (),
    S2OError,
>)
    ensures
        (final(response)@, error::failure(res)) == response_ref_fixed(
            old(response)@,
            r@,
            options@,
        ),
{
    if text::contains(r, "#/definitions/") {
        let message = text::cat("definition used as response: ", r);
        warn_or_error(message.as_str(), response, options)?;
    } else if text::starts_with(r, "#/responses/") {
        response.put("$ref", JsonValue::String(move_response_ref(r)));
    }
    Ok(())
}

// --- descriptions ----------------------------------------------------------

/// Whether a response lacks a description. Under patch an empty one counts as
/// missing.
pub open spec fn description_missing(response: Json, o: Settings) -> bool {
    match response.member("description"@) {
        None => true,
        Some(Json::Null) => true,
        Some(Json::String(s)) => s.len() == 0 && o.patch,
        Some(_) => false,
    }
}

/// The response with a description, the settings and the failure.
pub open spec fn description_supplied(response: Json, o: Settings) -> (
    Json,
    Settings,
    Option<Text>,
) {
    if description_missing(response, o) {
        if o.patch {
            if response is Object {
                (response.with("description"@, Json::String(""@)), o.patched(), None)
            } else {
                (response, o, None)
            }
        } else {
            (response, o, Some("(Patchable) response.description is mandatory"@))
        }
    } else {
        (response, o, None)
    }
}

/// Supply a missing description under patch.
fn supply_description(response: &mut JsonValue, options: &mut Options) -> (r: Result<(), S2OError>)
    ensures
        (final(response)@, final(options)@, error::failure(r)) == description_supplied(
            old(response)@,
            old(options)@,
        ),
{
    let missing = match response.get("description") {
        None => true,
        Some(d) => match d.as_str() {
            Some(s) => s.is_empty() && options.patch,
            None => d.is_null(),
        },
    };
    if missing {
        if options.patch {
            if response.is_object() {
                options.add_patch();
                response.put("description", JsonValue::text(""));
            }
        } else {
            return Err(S2OError::new("(Patchable) response.description is mandatory"));
        }
    }
    Ok(())
}

// --- produces --------------------------------------------------------------

/// The media types that an operation produces, the settings and the failure. A
/// string is wrapped under patch.
pub open spec fn produced(op: Option<Json>, openapi: Json, o: Settings) -> (
    Seq<Text>,
    Settings,
    Option<Text>,
) {
    match json::text_of(json::member_of(op, "produces"@)) {
        Some(s) => if o.patch {
            (seq![s], o.patched(), None)
        } else {
            (Seq::empty(), o, Some("(Patchable) operation.produces must be an array"@))
        },
        None => (body::media_types(op, openapi, "produces"@), o, None),
    }
}

/// Compute the produces list, wrapping a string `op.produces` under patch.
pub fn compute_produces(op: Option<&JsonValue>, openapi: &JsonValue, options: &mut Options) -> (r:
    Result<Vec<String>, S2OError>)
    ensures
        ({
            let (types, o1, e1) = produced(value::opt(op), openapi@, old(options)@);
            &&& final(options)@ == o1
            &&& match r {
                Ok(v) => e1 is None && json::texts(v@) == types,
                Err(e) => e1 == Some(e.message@),
            }
        }),
{
    if let Some(s) = text_of(member_of(op, "produces")) {
        if options.patch {
            options.add_patch();
            let mut list: Vec<String> = Vec::new();
            list.push(s.to_owned());
            assert(json::texts(list@) =~= seq![s@]);
            return Ok(list);
        }
        return Err(S2OError::new("(Patchable) operation.produces must be an array"));
    }
    Ok(listed_media_types(op, openapi, "produces"))
}

// --- content ---------------------------------------------------------------

/// The schema under a media type. A file schema becomes a binary string.
pub open spec fn media_schema(schema: Json) -> Json {
    if schema.says("type"@, "file"@) {
        body::binary_schema()
    } else {
        schema
    }
}

/// The examples of a media type that has one.
pub open spec fn response_example(v: Json) -> Json {
    Json::single("response"@, Json::single("value"@, v))
}

/// The response with its example for the media type `mt` taken off.
pub open spec fn example_taken(response: Json, mt: Text) -> Json {
    match response.member2("examples"@, mt) {
        Some(_) => response.with(
            "examples"@,
            response.member("examples"@)->0.dropped(mt),
        ),
        None => response,
    }
}

/// The content under the media type `mt`, with the example of the response.
pub open spec fn media_content(response: Json, schema: Json, mt: Text) -> Json {
    let ct = Json::single("schema"@, media_schema(schema));
    match response.member2("examples"@, mt) {
        Some(example) => ct.with("examples"@, response_example(example)),
        None => ct,
    }
}

/// The response with content under each media type from position `i` on.
pub open spec fn media_added(response: Json, schema: Json, types: Seq<Text>, i: nat) -> Json
    decreases types.len() - i,
{
    if i >= types.len() {
        response
    } else {
        let mt = types[i as int];
        let ct = media_content(response, schema, mt);
        let r1 = example_taken(response, mt);
        let r2 = match r1.member("content"@) {
            Some(c) => r1.with("content"@, c.with(mt, ct)),
            None => r1,
        };
        media_added(r2, schema, types, i + 1)
    }
}

/// The media types of a response: any where none is given.
pub open spec fn response_types(types: Seq<Text>) -> Seq<Text> {
    if types.len() == 0 {
        seq!["*/*"@]
    } else {
        types
    }
}

/// The response with the `$ref` of its schema in the 3.0 location.
pub open spec fn schema_ref_fixed(response: Json) -> Json {
    match json::text_of(response.member2("schema"@, "$ref"@)) {
        Some(r) => if text::starts(r, "#/responses/"@) {
            response.with(
                "schema"@,
                response.member("schema"@)->0.with("$ref"@, Json::String(response_ref(r))),
            )
        } else {
            response
        },
        None => response,
    }
}

/// The response with its schema turned into content, the settings and the
/// failure.
pub open spec fn schema_to_content(response: Json, op: Option<Json>, openapi: Json, o: Settings) -> (
    Json,
    Settings,
    Option<Text>,
) {
    match response.member("schema"@) {
        Some(schema) => {
            let (s1, o1, e1) = fixup::schema_fixed(schema, o);
            let r1 = response.with("schema"@, s1);
            match e1 {
                Some(_) => (r1, o1, e1),
                None => {
                    let r2 = schema_ref_fixed(r1);
                    let (types, o2, e2) = produced(op, openapi, o1);
                    match e2 {
                        Some(_) => (r2, o2, e2),
                        None => {
                            let s2 = json::value_or(r2.member("schema"@), Json::empty());
                            let r3 = media_added(
                                r2.with("content"@, Json::empty()),
                                s2,
                                response_types(types),
                                0,
                            );
                            (r3.without("schema"@), o2, None)
                        },
                    }
                },
            }
        },
        None => (response, o, None),
    }
}

/// Put content under each media type.
fn add_media(response: &mut JsonValue, schema: &JsonValue, types: &Vec<String>)
    ensures
        final(response)@ == media_added(old(response)@, schema@, json::texts(types@), 0),
{
    let ghost ts = json::texts(types@);
    let mut i: usize = 0;
    while i < types.len()
        invariant
            i <= types@.len(),
            ts == json::texts(types@),
            media_added(old(response)@, schema@, ts, 0) == media_added(
                response@,
                schema@,
                ts,
                i as nat,
            ),
        decreases types@.len() - i,
    {
        let mt = types[i].as_str();
        assert(ts[i as int] == mt@);
        // file type schema becomes binary string.
        let ct_schema = if schema.says("type", "file") {
            make_binary_schema()
        } else {
            schema.clone()
        };
        let mut ct = JsonValue::single("schema", ct_schema);

        // move a matching example into the content type.
        if let Some(example) = cloned(member_of(response.get("examples"), mt)) {
            let wrapped = JsonValue::single("value", example);
            ct.put("examples", JsonValue::single("response", wrapped));
            if let Some(examples) = response.get_mut("examples") {
                if let Some(map) = examples.as_object_mut() {
                    map.remove(mt);
                }
            }
        }
        if let Some(content) = response.get_mut("content") {
            content.put(mt, ct);
        }
        i += 1;
    }
}

/// Turn the schema of a response into content.
fn convert_schema(
    response: &mut JsonValue,
    op: Option<&JsonValue>,
    openapi: &JsonValue,
    options: &mut Options,
) -> (r: Result<(), S2OError>)
    ensures
        (final(response)@, final(options)@, error::failure(r)) == schema_to_content(
            old(response)@,
            value::opt(op),
            openapi@,
            old(options)@,
        ),
{
    if !response.has("schema") {
        return Ok(());
    }
    if let Some(schema) = response.get_mut("schema") {
        fix_up_schema(schema, options)?;
    }
    let moved: Option<String> = match text_of(member_of(response.get("schema"), "$ref")) {
        Some(r) => if text::starts_with(r, "#/responses/") {
            Some(move_response_ref(r))
        } else {
            None
        },
        None => None,
    };
    if let Some(r) = moved {
        if let Some(schema) = response.get_mut("schema") {
            schema.put("$ref", JsonValue::String(r));
        }
    }

    // produces wrapping.
    let mut produces = compute_produces(op, openapi, options)?;
    let ghost types = json::texts(produces@);
    if produces.len() == 0 {
        produces.push("*/*".to_owned());
        assert(json::texts(produces@) =~= seq!["*/*"@]);
    }
    assert(json::texts(produces@) == response_types(types));
    let schema = match response.get("schema") {
        Some(s) => s.clone(),
        None => JsonValue::empty_object(),
    };
    response.put("content", JsonValue::empty_object());
    add_media(response, &schema, &produces);
    response.cut("schema");
    Ok(())
}

// --- examples --------------------------------------------------------------

/// The response with the example `v` under the media type `mt`.
pub open spec fn example_added(response: Json, mt: Text, v: Json) -> Json {
    let r1 = response.with_new("content"@, Json::empty());
    let c1 = r1.member("content"@)->0.with_new(mt, Json::empty());
    r1.with(
        "content"@,
        c1.with(mt, c1.member(mt)->0.with("examples"@, response_example(v))),
    )
}

/// The response with the examples from position `i` on moved into its content.
pub open spec fn examples_from(response: Json, examples: Members, i: nat) -> Json
    decreases examples.len() - i,
{
    if i >= examples.len() {
        response
    } else {
        let (mt, v) = examples[i as int];
        examples_from(example_added(response, mt, v), examples, i + 1)
    }
}

/// The response with its remaining examples moved into its content.
pub open spec fn examples_moved(response: Json) -> Json {
    let examples = json::value_or(response.member("examples"@), Json::Null).members();
    examples_from(response, examples, 0).without("examples"@)
}

/// Put an example under a media type.
fn add_example(response: &mut JsonValue, mt: &str, v: JsonValue)
    ensures
        final(response)@ == example_added(old(response)@, mt@, v@),
{
    response.put_new("content", JsonValue::empty_object());
    proof {
        header::json_new_member(old(response)@, "content"@, Json::empty());
    }
    if let Some(content) = response.get_mut("content") {
        proof {
            header::json_new_member(content@, mt@, Json::empty());
        }
        content.put_new(mt, JsonValue::empty_object());
        if let Some(ct) = content.get_mut(mt) {
            let wrapped = JsonValue::single("value", v);
            ct.put("examples", JsonValue::single("response", wrapped));
        }
    }
}

/// Move the examples for media types not listed in produces.
fn move_examples(response: &mut JsonValue)
    ensures
        final(response)@ == examples_moved(old(response)@),
{
    if let Some(examples) = cloned(response.get("examples")) {
        if let Some(m) = examples.as_object() {
            let n: usize = m.len();
            let mut i: usize = 0;
            while i < n
                invariant
                    i <= n,
                    n == m@.len(),
                    examples_from(old(response)@, m@, 0) == examples_from(
                        response@,
                        m@,
                        i as nat,
                    ),
                decreases n - i,
            {
                add_example(response, m.key_at(i).as_str(), m.value_at(i).clone());
                i += 1;
            }
        }
    }
    response.cut("examples");
}

// --- headers ---------------------------------------------------------------

/// The response with the headers from position `i` on converted, the settings
/// and the failure.
pub open spec fn headers_from(response: Json, names: Seq<Text>, i: nat, o: Settings) -> (
    Json,
    Settings,
    Option<Text>,
)
    decreases names.len() - i,
{
    if i >= names.len() {
        (response, o, None)
    } else {
        let h = names[i as int];
        if text::lowercase(h) == "status code"@ {
            if o.patch {
                let r1 = match response.member("headers"@) {
                    Some(hs) => response.with("headers"@, hs.dropped(h)),
                    None => response,
                };
                headers_from(r1, names, i + 1, o.patched())
            } else {
                (response, o, Some("(Patchable) \"Status Code\" is not a valid header"@))
            }
        } else {
            match response.member2("headers"@, h) {
                Some(x) => {
                    let (x1, o1, e1) = header::header_fixed(x, o);
                    let r1 = response.with(
                        "headers"@,
                        response.member("headers"@)->0.with(h, x1),
                    );
                    match e1 {
                        Some(_) => (r1, o1, e1),
                        None => headers_from(r1, names, i + 1, o1),
                    }
                },
                None => headers_from(response, names, i + 1, o),
            }
        }
    }
}

/// The response with its headers converted, the settings and the failure.
pub open spec fn headers_processed(response: Json, o: Settings) -> (Json, Settings, Option<Text>) {
    let names = json::keys(json::value_or(response.member("headers"@), Json::Null).members());
    headers_from(response, names, 0, o)
}

/// The member names of an optional object. Any other value has none.
pub fn keys_of(v: Option<&JsonValue>) -> (r: Vec<String>)
    ensures
        json::texts(r@) == json::keys(json::value_or(value::opt(v), Json::Null).members()),
{
    if let Some(v) = v {
        if let Some(m) = v.as_object() {
            return m.keys();
        }
    }
    let r: Vec<String> = Vec::new();
    assert(json::texts(r@) =~= json::keys(Seq::empty()));
    r
}

/// Process the headers on a response, dropping `Status Code`.
pub fn process_response_headers(response: &mut JsonValue, options: &mut Options) -> (r: Result<
    (),
    S2OError,
>)
    ensures
        (final(response)@, final(options)@, error::failure(r)) == headers_processed(
            old(response)@,
            old(options)@,
        ),
{
    let names = keys_of(response.get("headers"));
    let ghost ns = json::texts(names@);
    let mut i: usize = 0;
    while i < names.len()
        invariant
            i <= names@.len(),
            ns == json::texts(names@),
            headers_from(old(response)@, ns, 0, old(options)@) == headers_from(
                response@,
                ns,
                i as nat,
                options@,
            ),
            headers_processed(old(response)@, old(options)@) == headers_from(
                old(response)@,
                ns,
                0,
                old(options)@,
            ),
        decreases names@.len() - i,
    {
        let h = names[i].as_str();
        assert(ns[i as int] == h@);
        if *text::to_lowercase(h).as_str() == *"status code" {
            if options.patch {
                options.add_patch();
                if let Some(headers) = response.get_mut("headers") {
                    if let Some(map) = headers.as_object_mut() {
                        map.remove(h);
                    }
                }
            } else {
                return Err(S2OError::new("(Patchable) \"Status Code\" is not a valid header"));
            }
        } else if member_of(response.get("headers"), h).is_some() {
            if let Some(headers) = response.get_mut("headers") {
                if let Some(header) = headers.get_mut(h) {
                    process_header(header, options)?;
                }
            }
        }
        i += 1;
    }
    Ok(())
}

// --- responses -------------------------------------------------------------

/// The response in 3.0 shape, the settings and the failure.
#[verifier::opaque]
pub open spec fn response_processed(response: Json, op: Option<Json>, openapi: Json, o: Settings) -> (
    Json,
    Settings,
    Option<Text>,
) {
    if response is Null {
        (response, o, None)
    } else {
        match response.text_member("$ref"@) {
            Some(r) => {
                let (r1, e1) = response_ref_fixed(response, r, o);
                (r1, o, e1)
            },
            None => {
                let (r1, o1, e1) = description_supplied(response, o);
                match e1 {
                    Some(_) => (r1, o1, e1),
                    None => {
                        let (r2, o2, e2) = schema_to_content(r1, op, openapi, o1);
                        match e2 {
                            Some(_) => (r2, o2, e2),
                            None => headers_processed(examples_moved(r2), o2),
                        }
                    },
                }
            },
        }
    }
}

/// Convert a 2.0 response into 3.0 shape.
///
/// `op` is the owning operation, read to compute the media types for the
/// `content` map via [`compute_produces`].
pub fn process_response(
    response: &mut JsonValue,
    op: Option<&JsonValue>,
    openapi: &JsonValue,
    options: &mut Options,
) -> (r: Result<(), S2OError>)
    ensures
        (final(response)@, final(options)@, error::failure(r)) == response_processed(
            old(response)@,
            value::opt(op),
            openapi@,
            old(options)@,
        ),
{
    reveal(response_processed);
    if response.is_null() {
        return Ok(());
    }
    let reference: Option<String> = match response.get_str("$ref") {
        Some(r) => Some(r.to_owned()),
        None => None,
    };
    if let Some(r) = reference {
        return fix_response_ref(response, r.as_str(), options);
    }

    // description is mandatory.
    supply_description(response, options)?;

    // schema becomes content.
    convert_schema(response, op, openapi, options)?;

    // Examples for content types not listed in produces.
    move_examples(response);

    // headers.
    process_response_headers(response, options)
}

} // verus!
