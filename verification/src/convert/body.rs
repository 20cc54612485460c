//! Request bodies: building them from parameters and attaching them to
//! operations.

use vstd::prelude::*;

use crate::common::{
    self, decode_uri_component, list_contains, sanitise_all, to_camel_case, truthy, unique_only,
    PARAMETER_TYPE_PROPERTIES,
};
use crate::error::{self, warn_or_error, S2OError};
use crate::fixup::{self, fix_up_schema};
use crate::json::{self, Json, Members, Text};
use crate::options::{Options, Settings};
use crate::text;
use crate::value::{self, into_elements, member_of, text_of, JsonValue, Object};

verus! {

// --- extensions ------------------------------------------------------------

/// Whether a member is an extension that goes along: `x-*`, but not `x-s2o*`.
pub open spec fn extension_key(key: Text) -> bool {
    text::starts(key, "x-"@) && !text::starts(key, "x-s2o"@)
}

/// `tgt` with the extensions of `src` from position `i` on.
pub open spec fn extensions_from(src: Members, i: nat, tgt: Members) -> Members
    decreases src.len() - i,
{
    if i >= src.len() {
        tgt
    } else {
        let (key, v) = src[i as int];
        let tgt1 = if extension_key(key) {
            json::insert(tgt, key, v)
        } else {
            tgt
        };
        extensions_from(src, i + 1, tgt1)
    }
}

/// `tgt` with the extensions of `src`.
pub open spec fn extensions_copied(src: Json, tgt: Json) -> Json {
    match src {
        Json::Object(m) => Json::Object(extensions_from(m, 0, tgt.members())),
        _ => tgt,
    }
}

/// Copy `x-*` extensions, excluding `x-s2o*`, from `src` to `tgt`.
pub fn copy_extensions(src: &JsonValue, tgt: &mut JsonValue)
    ensures
        final(tgt)@ == extensions_copied(src@, old(tgt)@),
{
    if let Some(m) = src.as_object() {
        tgt.make_object();
        let ghost t0 = tgt@.members();
        let n: usize = m.len();
        let mut i: usize = 0;
        while i < n
            invariant
                i <= n,
                n == m@.len(),
                tgt@ is Object,
                extensions_from(m@, 0, t0) == extensions_from(m@, i as nat, tgt@.members()),
            decreases n - i,
        {
            let key = m.key_at(i).as_str();
            if text::starts_with(key, "x-") && !text::starts_with(key, "x-s2o") {
                tgt.put(key, m.value_at(i).clone());
            }
            i += 1;
        }
    }
}

// --- operations ------------------------------------------------------------

/// The members of an operation from position `i` on, with room for a request
/// body after `parameters`.
pub open spec fn op_rebuilt_from(m: Members, i: nat, acc: Members, rbname: Text) -> Members
    decreases m.len() - i,
{
    if i >= m.len() {
        acc
    } else {
        let (key, v) = m[i as int];
        let acc1 = json::insert(acc, key, v);
        let acc2 = if key == "parameters"@ {
            let a = json::insert(acc1, "requestBody"@, Json::empty());
            if rbname.len() > 0 {
                json::insert(a, rbname, Json::String(Seq::empty()))
            } else {
                a
            }
        } else {
            acc1
        };
        op_rebuilt_from(m, i + 1, acc2, rbname)
    }
}

/// The operation with a fresh `requestBody`.
pub open spec fn op_rebuilt(op: Json, rbname: Text) -> Json {
    Json::Object(
        json::insert(
            op_rebuilt_from(op.members(), 0, Seq::empty(), rbname),
            "requestBody"@,
            Json::empty(),
        ),
    )
}

/// Rebuild an operation so a fresh `requestBody` sits after `parameters`.
pub fn attach_request_body(op: &JsonValue, options: &Options) -> (r: JsonValue)
    ensures
        r@ == op_rebuilt(op@, options@.rbname),
{
    let mut new_op = Object::new();
    if let Some(m) = op.as_object() {
        let n: usize = m.len();
        let mut i: usize = 0;
        while i < n
            invariant
                i <= n,
                n == m@.len(),
                op_rebuilt_from(m@, 0, Seq::empty(), options@.rbname) == op_rebuilt_from(
                    m@,
                    i as nat,
                    new_op@,
                    options@.rbname,
                ),
            decreases n - i,
        {
            let key = m.key_at(i).as_str();
            new_op.insert(key, m.value_at(i).clone());
            if *key == *"parameters" {
                new_op.insert("requestBody", JsonValue::empty_object());
                if !options.rbname.as_str().is_empty() {
                    let empty = JsonValue::String(String::new());
                    assert(empty@ == Json::String(Seq::empty()));
                    new_op.insert(options.rbname.as_str(), empty);
                }
            }
            i += 1;
        }
    }
    new_op.insert("requestBody", JsonValue::empty_object());
    JsonValue::Object(new_op)
}

/// The strings among the elements from position `i` on.
pub open spec fn strings_from(a: Seq<Json>, i: nat) -> Seq<Text>
    decreases a.len() - i,
{
    if i >= a.len() {
        Seq::empty()
    } else {
        match a[i as int] {
            Json::String(s) => seq![s] + strings_from(a, i + 1),
            _ => strings_from(a, i + 1),
        }
    }
}

/// The strings in a list.
pub fn strings_in(a: &Vec<JsonValue>) -> (r: Vec<String>)
    ensures
        json::texts(r@) == strings_from(value::views(a@), 0),
{
    let ghost all = value::views(a@);
    let mut r: Vec<String> = Vec::new();
    let mut i: usize = 0;
    assert(json::texts(r@) + strings_from(all, 0) =~= strings_from(all, 0));
    while i < a.len()
        invariant
            i <= a@.len(),
            all == value::views(a@),
            json::texts(r@) + strings_from(all, i as nat) == strings_from(all, 0),
        decreases a@.len() - i,
    {
        let ghost before = json::texts(r@);
        assert(all[i as int] == a@[i as int]@);
        if let Some(s) = a[i].as_str() {
            r.push(s.to_owned());
            assert(json::texts(r@) =~= before.push(s@));
            assert(before.push(s@) + strings_from(all, (i + 1) as nat) =~= before + strings_from(
                all,
                i as nat,
            ));
        }
        i += 1;
    }
    assert(json::texts(r@) + strings_from(all, i as nat) =~= json::texts(r@));
    r
}

/// The media types under `key`: those of the operation when it has an array
/// there, else those of the document, each once.
pub open spec fn media_types(op: Option<Json>, openapi: Json, key: Text) -> Seq<Text> {
    match (json::member_of(op, key), openapi.member(key)) {
        (Some(Json::Array(a)), _) => common::firsts(strings_from(a, 0)),
        (_, Some(Json::Array(a))) => common::firsts(strings_from(a, 0)),
        _ => Seq::empty(),
    }
}

/// The media types under `key`.
pub fn listed_media_types(op: Option<&JsonValue>, openapi: &JsonValue, key: &str) -> (r: Vec<
    String,
>)
    ensures
        json::texts(r@) == media_types(value::opt(op), openapi@, key@),
{
    if let Some(v) = member_of(op, key) {
        if let Some(a) = v.as_array() {
            return unique_only(strings_in(a).as_slice());
        }
    }
    if let Some(v) = openapi.get(key) {
        if let Some(a) = v.as_array() {
            return unique_only(strings_in(a).as_slice());
        }
    }
    let r: Vec<String> = Vec::new();
    assert(json::texts(r@) =~= Seq::<Text>::empty());
    r
}

/// Compute the effective consumes list for a parameter.
///
/// Prefers the operation's `consumes`, falls back to the document's, and keeps
/// only the first occurrence of each media type.
pub fn effective_consumes(op: Option<&JsonValue>, openapi: &JsonValue) -> (r: Vec<String>)
    ensures
        json::texts(r@) == media_types(value::opt(op), openapi@, "consumes"@),
{
    listed_media_types(op, openapi, "consumes")
}

// --- form data -------------------------------------------------------------

/// `tgt` with the member `key` of `src`, where it has one.
pub open spec fn member_copied(tgt: Json, src: Json, key: Text) -> Json {
    match src.member(key) {
        Some(v) => tgt.with(key, v),
        None => tgt,
    }
}

/// `tgt` with the members of `src` under the keys from position `i` on.
pub open spec fn members_copied(tgt: Json, src: Json, keys: Seq<Text>, i: nat) -> Json
    decreases keys.len() - i,
{
    if i >= keys.len() {
        tgt
    } else {
        members_copied(member_copied(tgt, src, keys[i as int]), src, keys, i + 1)
    }
}

/// The media type of a form.
pub open spec fn form_type(consumes: Seq<Text>) -> Text {
    if consumes.contains("multipart/form-data"@) {
        "multipart/form-data"@
    } else {
        "application/x-www-form-urlencoded"@
    }
}

/// The property schema of a form parameter.
pub open spec fn form_property(param: Json, original_type: Option<Text>) -> Json {
    let t1 = member_copied(Json::empty(), param, "description"@);
    let t2 = member_copied(t1, param, "example"@);
    let t3 = member_copied(t2, param, "type"@);
    let t4 = members_copied(t3, param, common::words(PARAMETER_TYPE_PROPERTIES@), 0);
    let t5 = member_copied(t4, param, "default"@);
    let t6 = member_copied(t5, param, "allOf"@);
    let t7 = if param.says("type"@, "array"@) {
        match param.member("items"@) {
            Some(items) => t6.with("items"@, items.dropped("collectionFormat"@)),
            None => t6,
        }
    } else {
        t6
    };
    let t8 = if original_type == Some("file"@) || param.says("x-s2o-originalType"@, "file"@) {
        t7.with("type"@, Json::String("string"@)).with("format"@, Json::String("binary"@))
    } else {
        t7
    };
    extensions_copied(param, t8)
}

/// Whether a form parameter is required.
pub open spec fn is_required(param: Json) -> bool {
    param.member("required"@) == Some(Json::Bool(true))
}

/// The object schema with one property, named after the form parameter.
pub open spec fn form_schema(param: Json, original_type: Option<Text>) -> Json {
    let name = match param.text_member("name"@) {
        Some(n) => n,
        None => Seq::empty(),
    };
    let s = Json::empty().with("type"@, Json::String("object"@)).with(
        "properties"@,
        Json::single(name, form_property(param, original_type)),
    );
    if is_required(param) {
        s.with("required"@, Json::Array(seq![Json::String(name)]))
    } else {
        s
    }
}

/// The component name that a schema reference gives.
pub open spec fn schema_ref_name(r: Text) -> Text {
    common::uri_decoded(text::replaced(r, "#/components/schemas/"@, Seq::empty()))
}

/// The content with one schema under a media type.
pub open spec fn content_of(ct: Text, schema: Json) -> Json {
    Json::single(ct, Json::single("schema"@, schema))
}

/// `result` with the request body of a form parameter.
pub open spec fn form_body(
    param: Json,
    consumes: Seq<Text>,
    original_type: Option<Text>,
    result: Json,
) -> Json {
    let ct = form_type(consumes);
    match param.member("schema"@) {
        Some(schema) => {
            let r1 = result.with("content"@, content_of(ct, schema));
            match schema.text_member("$ref"@) {
                Some(r) => r1.with("x-s2o-name"@, Json::String(schema_ref_name(r))),
                None => r1,
            }
        },
        None => {
            let r1 = result.with("content"@, content_of(ct, form_schema(param, original_type)));
            if is_required(param) {
                r1.with("required"@, Json::Bool(true))
            } else {
                r1
            }
        },
    }
}

/// Copy the member `key` of `src`, where it has one.
pub fn copy_member(tgt: &mut JsonValue, src: &JsonValue, key: &str)
    ensures
        final(tgt)@ == member_copied(old(tgt)@, src@, key@),
{
    if let Some(v) = src.get(key) {
        tgt.put(key, v.clone());
    }
}

/// Copy the members of `src` under the listed keys.
fn copy_members(tgt: &mut JsonValue, src: &JsonValue, keys: &[&'static str])
    ensures
        final(tgt)@ == members_copied(old(tgt)@, src@, common::words(keys@), 0),
{
    let ghost ws = common::words(keys@);
    let mut i: usize = 0;
    while i < keys.len()
        invariant
            i <= keys@.len(),
            ws == common::words(keys@),
            members_copied(old(tgt)@, src@, ws, 0) == members_copied(tgt@, src@, ws, i as nat),
        decreases keys@.len() - i,
    {
        assert(ws[i as int] == keys@[i as int]@);
        copy_member(tgt, src, keys[i]);
        i += 1;
    }
}

/// Whether an optional boolean is set.
fn is_true(v: Option<&JsonValue>) -> (b: bool)
    ensures
        b == (value::opt(v) == Some(Json::Bool(true))),
{
    match v {
        Some(v) => match v.as_bool() {
            Some(b) => b,
            None => false,
        },
        None => false,
    }
}

/// Build the property schema of a form parameter.
fn build_form_property(param: &JsonValue, original_type: Option<&str>) -> (r: JsonValue)
    ensures
        r@ == form_property(param@, value::opt_text(original_type)),
{
    let mut target = JsonValue::empty_object();
    copy_member(&mut target, param, "description");
    copy_member(&mut target, param, "example");
    copy_member(&mut target, param, "type");
    copy_members(&mut target, param, &PARAMETER_TYPE_PROPERTIES);
    copy_member(&mut target, param, "default");
    // The synthesized property schema never carries nested properties, so none
    // are copied here. allOf is carried through.
    copy_member(&mut target, param, "allOf");
    if param.says("type", "array") {
        if let Some(v) = param.get("items") {
            let mut items = v.clone();
            if let Some(m) = items.as_object_mut() {
                m.remove("collectionFormat");
            }
            target.put("items", items);
        }
    }
    let file = match original_type {
        Some(t) => *t == *"file",
        None => false,
    };
    if file || param.says("x-s2o-originalType", "file") {
        target.put("type", JsonValue::text("string"));
        target.put("format", JsonValue::text("binary"));
    }
    copy_extensions(param, &mut target);
    target
}

/// Build the object schema of a form parameter.
fn build_form_schema(param: &JsonValue, original_type: Option<&str>) -> (r: JsonValue)
    ensures
        r@ == form_schema(param@, value::opt_text(original_type)),
{
    let name: String = match param.get_str("name") {
        Some(n) => n.to_owned(),
        None => String::new(),
    };
    assert(param@.text_member("name"@) is None ==> name@ =~= Seq::empty());
    let property = build_form_property(param, original_type);
    let mut schema = JsonValue::empty_object();
    schema.put("type", JsonValue::text("object"));
    schema.put("properties", JsonValue::single(name.as_str(), property));
    if is_true(param.get("required")) {
        let mut list: Vec<JsonValue> = Vec::new();
        list.push(JsonValue::String(name));
        assert(value::views(list@) =~= seq![Json::String(name@)]);
        schema.put("required", JsonValue::array(list));
    }
    schema
}

/// The component name that a schema reference gives.
fn ref_name(r: &str) -> (s: String)
    ensures
        s@ == schema_ref_name(r@),
{
    let empty = "";
    proof {
        reveal_strlit("");
        assert(empty@ =~= Seq::empty());
    }
    decode_uri_component(text::replace(r, "#/components/schemas/", empty).as_str())
}

/// Build a request body from a `formData` parameter into `result`.
pub fn build_form_data_body(
    param: &JsonValue,
    consumes: &Vec<String>,
    original_type: Option<&str>,
    result: &mut JsonValue,
)
    ensures
        final(result)@ == form_body(
            param@,
            json::texts(consumes@),
            value::opt_text(original_type),
            old(result)@,
        ),
{
    let ct = if list_contains(consumes, "multipart/form-data") {
        "multipart/form-data"
    } else {
        "application/x-www-form-urlencoded"
    };
    if let Some(schema) = param.get("schema") {
        result.put("content", JsonValue::single(ct, JsonValue::single("schema", schema.clone())));
        if let Some(r) = schema.get_str("$ref") {
            result.put("x-s2o-name", JsonValue::String(ref_name(r)));
        }
        return;
    }

    // Synthesize an object schema with one property named after the param.
    let schema = build_form_schema(param, original_type);
    result.put("content", JsonValue::single(ct, JsonValue::single("schema", schema)));
    if is_true(param.get("required")) {
        result.put("required", JsonValue::Bool(true));
    }
}

// --- files -----------------------------------------------------------------

/// `result` with the member `required` of the parameter, where that is truthy.
pub open spec fn required_copied(param: Json, result: Json) -> Json {
    if common::is_truthy(param.member("required"@)) {
        member_copied(result, param, "required"@)
    } else {
        result
    }
}

/// The schema of a binary string.
pub open spec fn binary_schema() -> Json {
    Json::empty().with("type"@, Json::String("string"@)).with(
        "format"@,
        Json::String("binary"@),
    )
}

/// `result` with the octet-stream request body of a file parameter.
pub open spec fn file_body(param: Json, result: Json) -> Json {
    extensions_copied(
        param,
        required_copied(param, result).with(
            "content"@,
            content_of("application/octet-stream"@, binary_schema()),
        ),
    )
}

/// Copy `required`, where it is truthy.
fn copy_required(param: &JsonValue, result: &mut JsonValue)
    ensures
        final(result)@ == required_copied(param@, old(result)@),
{
    if truthy(param.get("required")) {
        copy_member(result, param, "required");
    }
}

/// The schema of a binary string.
pub fn make_binary_schema() -> (r: JsonValue)
    ensures
        r@ == binary_schema(),
{
    let mut schema = JsonValue::empty_object();
    schema.put("type", JsonValue::text("string"));
    schema.put("format", JsonValue::text("binary"));
    schema
}

/// Build an octet-stream request body from a `file` typed parameter.
pub fn build_file_body(param: &JsonValue, result: &mut JsonValue)
    ensures
        final(result)@ == file_body(param@, old(result)@),
{
    copy_required(param, result);
    let ct = JsonValue::single("schema", make_binary_schema());
    result.put("content", JsonValue::single("application/octet-stream", ct));
    copy_extensions(param, result);
}

// --- body parameters -------------------------------------------------------

/// The name derived from a body parameter and its operation.
pub open spec fn derived_name(name: Text, op: Option<Json>) -> Text {
    let op_id = match json::text_of(json::member_of(op, "operationId"@)) {
        Some(id) => common::sanitised_all(id),
        None => Seq::empty(),
    };
    op_id + common::camel_cased("_"@ + name)
}

/// The name that the schema of a body parameter gives: that of a `$ref`, or of
/// the `$ref` of the items of an array.
pub open spec fn schema_name(schema: Json) -> Option<Text> {
    match schema.text_member("$ref"@) {
        Some(r) => Some(schema_ref_name(r)),
        None => if schema.says("type"@, "array"@) {
            match json::text_of(schema.member2("items"@, "$ref"@)) {
                Some(r) => Some(schema_ref_name(r) + "Array"@),
                None => None,
            }
        } else {
            None
        },
    }
}

/// `result` with the head of the request body of a body parameter.
pub open spec fn body_head(param: Json, op: Option<Json>, result: Json) -> Json {
    let r1 = result.with("content"@, Json::empty());
    let r2 = match param.text_member("name"@) {
        Some(name) => r1.with("x-s2o-name"@, Json::String(derived_name(name, op))),
        None => r1,
    };
    let r3 = required_copied(param, member_copied(r2, param, "description"@));
    match param.member("schema"@) {
        Some(schema) => match schema_name(schema) {
            Some(name) => r3.with("x-s2o-name"@, Json::String(name)),
            None => r3,
        },
        None => r3,
    }
}

/// `result` with a repaired copy of the schema under each media type from
/// position `i` on, the settings and the failure.
pub open spec fn contents_from(
    types: Seq<Text>,
    i: nat,
    schema: Json,
    o: Settings,
    result: Json,
) -> (Json, Settings, Option<Text>)
    decreases types.len() - i,
{
    if i >= types.len() {
        (result, o, None)
    } else {
        let (s1, o1, e1) = fixup::schema_fixed(schema, o);
        match e1 {
            Some(_) => (result, o1, e1),
            None => {
                let r1 = match result.member("content"@) {
                    Some(c) => result.with(
                        "content"@,
                        c.with(types[i as int], Json::single("schema"@, s1)),
                    ),
                    None => result,
                };
                contents_from(types, i + 1, schema, o1, r1)
            },
        }
    }
}

/// The media types of a body: JSON where none is given.
pub open spec fn body_types(consumes: Seq<Text>) -> Seq<Text> {
    if consumes.len() == 0 {
        seq!["application/json"@]
    } else {
        consumes
    }
}

/// `result` with the request body of a body parameter, the settings and the
/// failure.
pub open spec fn body_built(
    param: Json,
    op: Option<Json>,
    consumes: Seq<Text>,
    o: Settings,
    result: Json,
) -> (Json, Settings, Option<Text>) {
    let (r1, o1, e1) = contents_from(
        body_types(consumes),
        0,
        json::value_or(param.member("schema"@), Json::empty()),
        o,
        body_head(param, op, result),
    );
    match e1 {
        Some(_) => (r1, o1, e1),
        None => (extensions_copied(param, r1), o1, None),
    }
}

/// Build the head of the request body of a body parameter.
fn build_body_head(param: &JsonValue, op: Option<&JsonValue>, result: &mut JsonValue)
    ensures
        final(result)@ == body_head(param@, value::opt(op), old(result)@),
{
    result.put("content", JsonValue::empty_object());
    if let Some(name) = param.get_str("name") {
        let op_id: String = match text_of(member_of(op, "operationId")) {
            Some(id) => sanitise_all(id),
            None => String::new(),
        };
        assert(json::text_of(json::member_of(value::opt(op), "operationId"@)) is None ==> op_id@
            =~= Seq::empty());
        let camel = to_camel_case(text::cat("_", name).as_str());
        let derived = text::cat(op_id.as_str(), camel.as_str());
        result.put("x-s2o-name", JsonValue::String(derived));
    }
    copy_member(result, param, "description");
    copy_required(param, result);

    // x-s2o-name override from the schema $ref or array-of-$ref.
    if let Some(schema) = param.get("schema") {
        if let Some(r) = schema.get_str("$ref") {
            result.put("x-s2o-name", JsonValue::String(ref_name(r)));
        } else if schema.says("type", "array") {
            if let Some(r) = text_of(member_of(schema.get("items"), "$ref")) {
                let name = text::cat(ref_name(r).as_str(), "Array");
                result.put("x-s2o-name", JsonValue::String(name));
            }
        }
    }
}

/// Put a repaired copy of the schema under each media type.
fn add_contents(
    types: &Vec<String>,
    schema: &JsonValue,
    options: &mut Options,
    result: &mut JsonValue,
) -> (r: Result<(), S2OError>)
    ensures
        (final(result)@, final(options)@, error::failure(r)) == contents_from(
            json::texts(types@),
            0,
            schema@,
            old(options)@,
            old(result)@,
        ),
{
    let ghost ts = json::texts(types@);
    let mut i: usize = 0;
    while i < types.len()
        invariant
            i <= types@.len(),
            ts == json::texts(types@),
            contents_from(ts, 0, schema@, old(options)@, old(result)@) == contents_from(
                ts,
                i as nat,
                schema@,
                options@,
                result@,
            ),
        decreases types@.len() - i,
    {
        let mut copy = schema.clone();
        fix_up_schema(&mut copy, options)?;
        let ct = JsonValue::single("schema", copy);
        if let Some(content) = result.get_mut("content") {
            content.put(types[i].as_str(), ct);
        }
        i += 1;
    }
    Ok(())
}

/// Build a request body from a `body` parameter into `result`.
pub fn build_body_request_body(
    param: &JsonValue,
    op: Option<&JsonValue>,
    consumes: &Vec<String>,
    options: &mut Options,
    result: &mut JsonValue,
) -> (r: Result<(), S2OError>)
    ensures
        (final(result)@, final(options)@, error::failure(r)) == body_built(
            param@,
            value::opt(op),
            json::texts(consumes@),
            old(options)@,
            old(result)@,
        ),
{
    build_body_head(param, op, result);
    let schema = match param.get("schema") {
        Some(s) => s.clone(),
        None => JsonValue::empty_object(),
    };
    if consumes.len() == 0 {
        let mut types: Vec<String> = Vec::new();
        types.push("application/json".to_owned());
        assert(json::texts(types@) =~= seq!["application/json"@]);
        add_contents(&types, &schema, options, result)?;
    } else {
        add_contents(consumes, &schema, options, result)?;
    }
    copy_extensions(param, result);
    Ok(())
}

// --- attaching -------------------------------------------------------------

/// `value.content[ct].schema`.
pub open spec fn content_schema(j: Option<Json>, ct: Text) -> Option<Json> {
    json::member_of(json::member_of(json::member_of(j, "content"@), ct), "schema"@)
}

/// `value.content[ct].schema`.
fn schema_in_content<'a>(v: Option<&'a JsonValue>, ct: &str) -> (r: Option<&'a JsonValue>)
    ensures
        value::opt(r) == content_schema(value::opt(v), ct@),
{
    member_of(member_of(member_of(v, "content"), ct), "schema")
}

/// Whether `op.requestBody.content[ct].schema.properties` exists.
pub fn has_form_properties(op: &JsonValue, ct: &str) -> (b: bool)
    ensures
        b == (json::member_of(content_schema(op@.member("requestBody"@), ct@), "properties"@)
            is Some),
{
    member_of(schema_in_content(op.get("requestBody"), ct), "properties").is_some()
}

/// Whether `result.content[ct].schema.properties` exists.
pub fn result_has_form_properties(result: &JsonValue, ct: &str) -> (b: bool)
    ensures
        b == (json::member_of(content_schema(Some(result@), ct@), "properties"@) is Some),
{
    member_of(schema_in_content(Some(result), ct), "properties").is_some()
}

/// The elements of an optional array. Any other value has none.
pub open spec fn elements_of(j: Option<Json>) -> Seq<Json> {
    json::value_or(j, Json::Null).elements()
}

/// The form schema with the properties and the required names of another.
pub open spec fn form_merged(schema: Json, other: Option<Json>) -> Json {
    let s1 = match (schema.member("properties"@), json::member_of(other, "properties"@)) {
        (Some(Json::Object(existing)), Some(Json::Object(incoming))) => schema.with(
            "properties"@,
            Json::Object(json::insert_all(existing, incoming, 0)),
        ),
        _ => schema,
    };
    let required = elements_of(s1.member("required"@)) + elements_of(
        json::member_of(other, "required"@),
    );
    if required.len() == 0 {
        s1.without("required"@)
    } else {
        s1.with("required"@, Json::Array(required))
    }
}

/// The operation with the form schema under `ct` merged with that of `result`.
pub open spec fn op_form_merged(op: Json, result: Json, ct: Text) -> Json {
    let body = op.member("requestBody"@);
    match content_schema(body, ct) {
        Some(schema) => {
            let content = json::member_of(body, "content"@);
            let media = json::member_of(content, ct);
            op.with(
                "requestBody"@,
                body->0.with(
                    "content"@,
                    content->0.with(
                        ct,
                        media->0.with(
                            "schema"@,
                            form_merged(schema, content_schema(Some(result), ct)),
                        ),
                    ),
                ),
            )
        },
        None => op,
    }
}

/// The elements of an optional array.
fn copy_elements(v: Option<&JsonValue>) -> (r: Vec<JsonValue>)
    ensures
        value::views(r@) == elements_of(value::opt(v)),
{
    match v {
        Some(v) => into_elements(v.clone()),
        None => {
            let r: Vec<JsonValue> = Vec::new();
            assert(value::views(r@) =~= Seq::<Json>::empty());
            r
        },
    }
}

/// Merge the properties and the required names of another form schema.
fn merge_form(schema: &mut JsonValue, other: Option<&JsonValue>)
    ensures
        final(schema)@ == form_merged(old(schema)@, value::opt(other)),
{
    let both = match (schema.get("properties"), member_of(other, "properties")) {
        (Some(a), Some(b)) => a.is_object() && b.is_object(),
        _ => false,
    };
    if both {
        if let Some(incoming) = member_of(other, "properties") {
            if let Some(m) = incoming.as_object() {
                if let Some(properties) = schema.get_mut("properties") {
                    if let Some(existing) = properties.as_object_mut() {
                        existing.set_all(m);
                    }
                }
            }
        }
    }
    let mut required = copy_elements(schema.get("required"));
    let mut more = copy_elements(member_of(other, "required"));
    let ghost a = value::views(required@);
    let ghost b = value::views(more@);
    required.append(&mut more);
    assert(value::views(required@) =~= a + b);
    if required.len() == 0 {
        schema.cut("required");
    } else {
        schema.put("required", JsonValue::array(required));
    }
}

/// Merge form properties and required arrays from `result` into `op`.
pub fn merge_form_properties(op: &mut JsonValue, result: &JsonValue, ct: &str)
    ensures
        final(op)@ == op_form_merged(old(op)@, result@, ct@),
{
    if schema_in_content(op.get("requestBody"), ct).is_none() {
        return;
    }
    let other = schema_in_content(Some(result), ct);
    if let Some(body) = op.get_mut("requestBody") {
        if let Some(content) = body.get_mut("content") {
            if let Some(media) = content.get_mut(ct) {
                if let Some(schema) = media.get_mut("schema") {
                    merge_form(schema, other);
                }
            }
        }
    }
}

/// The request body with the members of `result` and a name.
pub open spec fn body_assigned(op: Json, result: Json) -> Json {
    let body = json::value_or(op.member("requestBody"@), Json::empty());
    let b1 = match result {
        Json::Object(m) => if m.len() > 0 {
            Json::Object(json::insert_all(body.members(), m, 0))
        } else {
            body
        },
        _ => body,
    };
    if b1.has("x-s2o-name"@) {
        b1
    } else {
        match json::text_of(b1.member2("schema"@, "$ref"@)) {
            Some(r) => b1.with(
                "x-s2o-name"@,
                Json::String(text::joined(text::pieces(schema_ref_name(r), '/'), Seq::empty())),
            ),
            None => match op.text_member("operationId"@) {
                Some(id) => b1.with("x-s2o-name"@, Json::String(common::sanitised_all(id))),
                None => b1,
            },
        }
    }
}

/// The operation with the request body `result`, and the failure.
pub open spec fn result_attached(
    op: Json,
    result: Json,
    singular: bool,
    index: Text,
    o: Settings,
) -> (Json, Option<Text>) {
    if op.has("requestBody"@) && singular {
        let op1 = op.with(
            "requestBody"@,
            op.member("requestBody"@)->0.with("x-s2o-overloaded"@, Json::Bool(true)),
        );
        let op_id = match op1.text_member("operationId"@) {
            Some(id) => id,
            None => index,
        };
        error::warned(op1, "Operation "@ + op_id + " has multiple requestBodies"@, o)
    } else {
        let op1 = if op.has("requestBody"@) {
            op
        } else {
            op_rebuilt(op, o.rbname)
        };
        let multipart = "multipart/form-data"@;
        let urlencoded = "application/x-www-form-urlencoded"@;
        let body = op1.member("requestBody"@);
        let r = Some(result);
        if json::member_of(content_schema(body, multipart), "properties"@) is Some
            && json::member_of(content_schema(r, multipart), "properties"@) is Some {
            (op_form_merged(op1, result, multipart), None)
        } else if json::member_of(content_schema(body, urlencoded), "properties"@) is Some
            && json::member_of(content_schema(r, urlencoded), "properties"@) is Some {
            (op_form_merged(op1, result, urlencoded), None)
        } else {
            (op1.with("requestBody"@, body_assigned(op1, result)), None)
        }
    }
}

/// Assign the members of `result` to the request body and derive its name.
fn assign_body(op: &JsonValue, result: &JsonValue) -> (r: JsonValue)
    ensures
        r@ == body_assigned(op@, result@),
{
    let mut merged = match op.get("requestBody") {
        Some(b) => b.clone(),
        None => JsonValue::empty_object(),
    };
    if let Some(m) = result.as_object() {
        if m.len() > 0 {
            merged.make_object();
            if let Some(map) = merged.as_object_mut() {
                map.set_all(m);
            }
        }
    }
    // Derive x-s2o-name when missing.
    if !merged.has("x-s2o-name") {
        let from_ref: Option<String> = match text_of(member_of(merged.get("schema"), "$ref")) {
            Some(r) => {
                let empty = "";
                proof {
                    reveal_strlit("");
                    assert(empty@ =~= Seq::empty());
                }
                Some(text::join(&text::split(ref_name(r).as_str(), '/'), empty))
            },
            None => None,
        };
        if let Some(name) = from_ref {
            merged.put("x-s2o-name", JsonValue::String(name));
        } else if let Some(id) = op.get_str("operationId") {
            merged.put("x-s2o-name", JsonValue::String(sanitise_all(id)));
        }
    }
    merged
}

/// Attach a built request body `result` to `op`, merging form bodies.
pub fn attach_result_to_op(
    op: &mut JsonValue,
    result: JsonValue,
    singular_request_body: bool,
    index: &str,
    options: &Options,
) -> (r: Result<(), S2OError>)
    ensures
        (final(op)@, error::failure(r)) == result_attached(
            old(op)@,
            result@,
            singular_request_body,
            index@,
            options@,
        ),
{
    if op.has("requestBody") && singular_request_body {
        if let Some(body) = op.get_mut("requestBody") {
            body.put("x-s2o-overloaded", JsonValue::Bool(true));
        }
        let op_id: String = match op.get_str("operationId") {
            Some(id) => id.to_owned(),
            None => index.to_owned(),
        };
        let message = text::cat3("Operation ", op_id.as_str(), " has multiple requestBodies");
        return warn_or_error(message.as_str(), op, options);
    }
    if !op.has("requestBody") {
        let rebuilt = attach_request_body(op, options);
        *op = rebuilt;
    }
    let multipart = "multipart/form-data";
    let urlencoded = "application/x-www-form-urlencoded";
    if has_form_properties(op, multipart) && result_has_form_properties(&result, multipart) {
        merge_form_properties(op, &result, multipart);
    } else if has_form_properties(op, urlencoded) && result_has_form_properties(
        &result,
        urlencoded,
    ) {
        merge_form_properties(op, &result, urlencoded);
    } else {
        let merged = assign_body(op, &result);
        op.put("requestBody", merged);
    }
    Ok(())
}

} // verus!
