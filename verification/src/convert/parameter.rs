//! Parameters.

use vstd::prelude::*;

use crate::common::{
    self, decode_uri_component, sanitise, truthy, PARAMETER_TYPE_PROPERTIES,
};
use crate::convert::body::{
    self, attach_result_to_op, build_body_request_body, build_file_body, build_form_data_body,
    effective_consumes,
};
use crate::convert::header;
use crate::error::{self, warn_or_error, S2OError};
use crate::fixup::{self, fix_up_schema};
use crate::jptr;
use crate::json::{self, Json, Text};
use crate::laws;
use crate::options::{self, Options, Settings};
use crate::recurse::{self, recurse, RecurseState, Visitor};
use crate::text;
use crate::value::{self, cloned, member_of, text_of, JsonValue};

verus! {

// --- references ------------------------------------------------------------

/// A pointer path with its first segment decoded and sanitised.
pub open spec fn ref_path_sanitised(rest: Text) -> Text {
    let parts = text::pieces(rest, '/');
    text::joined(parts.update(0, common::sanitised(common::uri_decoded(parts[0]))), "/"@)
}

/// Decode the first pointer segment before it becomes a component key.
pub fn sanitise_ref_path(rest: &str) -> (r: String)
    ensures
        r@ == ref_path_sanitised(rest@),
{
    let mut parts = text::split(rest, '/');
    let ghost ps = json::texts(parts@);
    proof {
        text::pieces_nonempty(rest@, '/', 0, 0);
    }
    let first = sanitise(decode_uri_component(parts[0].as_str()).as_str());
    parts.set(0, first);
    assert(json::texts(parts@) =~= ps.update(0, first@));
    text::join(&parts, "/")
}

/// The parameter with its `$ref` in the 3.0 location, and the failure.
pub open spec fn param_ref_fixed(param: Json, o: Settings) -> (Json, Option<Text>) {
    match param.text_member("$ref"@) {
        Some(r) => {
            let pat = "#/parameters/"@;
            let j1 = match text::find_spec(r, pat) {
                Some(i) => param.with(
                    "$ref"@,
                    Json::String(
                        r.take(i) + "#/components/parameters/"@ + ref_path_sanitised(
                            r.skip(i + pat.len()),
                        ),
                    ),
                ),
                None => param,
            };
            if text::occurs(r, "#/definitions/"@) {
                error::warned(j1, "Definition used as parameter"@, o)
            } else {
                (j1, None)
            }
        },
        None => (param, None),
    }
}

/// Rewrite a parameter `$ref` from 2.0 to 3.0 locations.
pub fn fix_param_ref(param: &mut JsonValue, options: &Options) -> (r: Result<(), S2OError>)
    ensures
        (final(param)@, error::failure(r)) == param_ref_fixed(old(param)@, options@),
{
    let ref_str: String = match param.get_str("$ref") {
        Some(r) => r.to_owned(),
        None => {
            return Ok(());
        },
    };
    let r = ref_str.as_str();
    if let Some(i) = text::find(r, "#/parameters/") {
        let total: usize = r.unicode_len();
        let n: usize = "#/parameters/".unicode_len();
        assert(i + n <= total);
        let rest = text::skip(r, i + n);
        let moved = text::cat3(
            text::take(r, i).as_str(),
            "#/components/parameters/",
            sanitise_ref_path(rest.as_str()).as_str(),
        );
        param.put("$ref", JsonValue::String(moved));
    }
    if text::contains(r, "#/definitions/") {
        warn_or_error("Definition used as parameter", param, options)?;
    }
    Ok(())
}

// --- collection formats ----------------------------------------------------

/// The `collectionFormat` that applies: `csv` for an array without one.
pub open spec fn collection_format(param: Json) -> Option<Text> {
    match param.text_member("collectionFormat"@) {
        Some(cf) => Some(cf),
        None => if param.says("type"@, "array"@) {
            Some("csv"@)
        } else {
            None
        },
    }
}

/// The parameter with the style for the format `cf` in the location `at`, and
/// the failure.
pub open spec fn format_styled(param: Json, cf: Text, at: Option<Text>, o: Settings) -> (
    Json,
    Option<Text>,
) {
    let in_query = at == Some("query"@);
    if cf == "csv"@ && (in_query || at == Some("cookie"@)) {
        (
            param.with("style"@, Json::String("form"@)).with("explode"@, Json::Bool(false)),
            None,
        )
    } else if cf == "csv"@ && (at == Some("path"@) || at == Some("header"@)) {
        (param.with("style"@, Json::String("simple"@)), None)
    } else if cf == "ssv"@ {
        if in_query {
            (param.with("style"@, Json::String("spaceDelimited"@)), None)
        } else {
            error::warned(
                param,
                "collectionFormat:ssv is no longer supported except for in:query parameters"@,
                o,
            )
        }
    } else if cf == "pipes"@ {
        if in_query {
            (param.with("style"@, Json::String("pipeDelimited"@)), None)
        } else {
            error::warned(
                param,
                "collectionFormat:pipes is no longer supported except for in:query parameters"@,
                o,
            )
        }
    } else if cf == "multi"@ {
        (param.with("explode"@, Json::Bool(true)), None)
    } else if cf == "tsv"@ {
        let (j1, e) = error::warned(param, "collectionFormat:tsv is no longer supported"@, o);
        match e {
            None => (j1.with("x-collectionFormat"@, Json::String("tsv"@)), None),
            Some(_) => (j1, e),
        }
    } else {
        (param, None)
    }
}

/// The parameter with its `collectionFormat` mapped to `style` and `explode`,
/// the settings and the failure.
pub open spec fn collection_format_converted(param: Json, o: Settings) -> (
    Json,
    Settings,
    Option<Text>,
) {
    match collection_format(param) {
        None => (param, o, None),
        Some(cf) => if !param.says("type"@, "array"@) && !o.patch {
            (
                param,
                o,
                Some("(Patchable) collectionFormat is only applicable to param.type array"@),
            )
        } else {
            let (j1, o1) = if param.says("type"@, "array"@) {
                (param, o)
            } else {
                (param.without("collectionFormat"@), o.patched())
            };
            let (j2, e2) = format_styled(j1, cf, param.text_member("in"@), o1);
            match e2 {
                Some(_) => (j2, o1, e2),
                None => (j2.without("collectionFormat"@), o1, None),
            }
        },
    }
}

/// Whether an optional string is `s`.
fn is_text(a: &Option<String>, s: &str) -> (b: bool)
    ensures
        b == (options::opt_string(*a) == Some(s@)),
{
    match a {
        Some(t) => *t.as_str() == *s,
        None => false,
    }
}

/// The text of an optional string.
pub fn owned(s: Option<&str>) -> (r: Option<String>)
    ensures
        options::opt_string(r) == value::opt_text(s),
{
    match s {
        Some(s) => Some(s.to_owned()),
        None => None,
    }
}

/// Set the style for a format.
fn style_format(param: &mut JsonValue, cf: &str, at: &Option<String>, options: &Options) -> (r:
    Result<(), S2OError>)
    ensures
        (final(param)@, error::failure(r)) == format_styled(
            old(param)@,
            cf@,
            options::opt_string(*at),
            options@,
        ),
{
    let in_query = is_text(at, "query");
    if *cf == *"csv" && (in_query || is_text(at, "cookie")) {
        param.put("style", JsonValue::text("form"));
        param.put("explode", JsonValue::Bool(false));
    } else if *cf == *"csv" && (is_text(at, "path") || is_text(at, "header")) {
        param.put("style", JsonValue::text("simple"));
    } else if *cf == *"ssv" {
        if in_query {
            param.put("style", JsonValue::text("spaceDelimited"));
        } else {
            warn_or_error(
                "collectionFormat:ssv is no longer supported except for in:query parameters",
                param,
                options,
            )?;
        }
    } else if *cf == *"pipes" {
        if in_query {
            param.put("style", JsonValue::text("pipeDelimited"));
        } else {
            warn_or_error(
                "collectionFormat:pipes is no longer supported except for in:query parameters",
                param,
                options,
            )?;
        }
    } else if *cf == *"multi" {
        param.put("explode", JsonValue::Bool(true));
    } else if *cf == *"tsv" {
        warn_or_error("collectionFormat:tsv is no longer supported", param, options)?;
        param.put("x-collectionFormat", JsonValue::text("tsv"));
    }
    Ok(())
}

/// Map `collectionFormat` to `style`/`explode`.
pub fn convert_collection_format(param: &mut JsonValue, options: &mut Options) -> (r: Result<
    (),
    S2OError,
>)
    ensures
        (final(param)@, final(options)@, error::failure(r)) == collection_format_converted(
            old(param)@,
            old(options)@,
        ),
{
    let is_array = param.says("type", "array");
    let at = owned(param.get_str("in"));
    let cf: String = match param.get_str("collectionFormat") {
        Some(cf) => cf.to_owned(),
        None => if is_array {
            "csv".to_owned()
        } else {
            return Ok(());
        },
    };
    if !is_array {
        if options.patch {
            options.add_patch();
            param.cut("collectionFormat");
        } else {
            return Err(
                S2OError::new(
                    "(Patchable) collectionFormat is only applicable to param.type array",
                ),
            );
        }
    }
    style_format(param, cf.as_str(), &at, options)?;
    param.cut("collectionFormat");
    Ok(())
}

/// The removal of nested `collectionFormat`s.
pub struct FormatStripper {
    old_cf: Option<String>,
    conflict: bool,
}

impl Visitor for FormatStripper {
    type State = (Option<Text>, bool);

    closed spec fn state(&self) -> (Option<Text>, bool) {
        (options::opt_string(self.old_cf), self.conflict)
    }

    open spec fn visited(s: (Option<Text>, bool), container: Json, key: Text, path: Text) -> (
        (Option<Text>, bool),
        Json,
    ) {
        if key == "collectionFormat"@ {
            let conflict = match (container.text_member(key), s.0) {
                (Some(v), Some(old)) => v != old,
                _ => false,
            };
            ((s.0, s.1 || conflict), container.dropped(key))
        } else {
            (s, container)
        }
    }

    proof fn visit_is_bounded(s: (Option<Text>, bool), container: Json, key: Text, path: Text) {
        if let Json::Object(m) = container {
            laws::remove_keeps_height(m, key);
        }
    }

    fn visit(&mut self, container: &mut JsonValue, key: &str, state: &RecurseState) {
        if *key == *"collectionFormat" {
            if let Some(v) = container.get_str(key) {
                if let Some(old) = &self.old_cf {
                    if !(*v == *old.as_str()) {
                        self.conflict = true;
                    }
                }
            }
            if let Some(map) = container.as_object_mut() {
                map.remove(key);
            }
        }
    }
}

/// The node without nested `collectionFormat`s, the target of a warning about a
/// conflict, and the failure.
pub open spec fn nested_format_stripped(
    node: Json,
    old_cf: Option<Text>,
    warn_target: Json,
    o: Settings,
) -> (Json, Json, Option<Text>) {
    let ((_, conflict), node1) = recurse::recursed::<FormatStripper>((old_cf, false), node, "#"@);
    if conflict {
        let (t1, e) = error::warned(
            warn_target,
            "Nested collectionFormats are not supported"@,
            o,
        );
        (node1, t1, e)
    } else {
        (node1, warn_target, None)
    }
}

/// Recursively delete nested `collectionFormat`, warning on a conflict.
pub fn strip_nested_collection_format(
    node: &mut JsonValue,
    old_cf: Option<&str>,
    warn_target: &mut JsonValue,
    options: &Options,
) -> (r: Result<(), S2OError>)
    ensures
        (final(node)@, final(warn_target)@, error::failure(r)) == nested_format_stripped(
            old(node)@,
            value::opt_text(old_cf),
            old(warn_target)@,
            options@,
        ),
{
    let mut stripper = FormatStripper { old_cf: owned(old_cf), conflict: false };
    recurse(node, "#", &mut stripper);
    if stripper.conflict {
        warn_or_error("Nested collectionFormats are not supported", warn_target, options)?;
    }
    Ok(())
}

// --- schemas ---------------------------------------------------------------

/// The container with the member `key` set on its `schema`, when it has one.
pub open spec fn on_schema(j: Json, key: Text, v: Json) -> Json {
    match j.member("schema"@) {
        Some(s) => j.with("schema"@, s.with(key, v)),
        None => j,
    }
}

/// The parameter with the listed properties from position `i` on moved onto its
/// schema.
pub open spec fn props_onto_schema(j: Json, props: Seq<Text>, i: nat) -> Json
    decreases props.len() - i,
{
    if i >= props.len() {
        j
    } else {
        let prop = props[i as int];
        let j1 = match j.member(prop) {
            Some(v) => on_schema(j, prop, v),
            None => j,
        };
        props_onto_schema(j1.without(prop), props, i + 1)
    }
}

/// The parameter with its `items` moved onto its schema, and the failure.
pub open spec fn items_onto_schema(j: Json, o: Settings) -> (Json, Option<Text>) {
    match j.member("items"@) {
        Some(items) => {
            let (items1, j1, e) = nested_format_stripped(
                items,
                j.text_member("collectionFormat"@),
                j.without("items"@),
                o,
            );
            match e {
                Some(_) => (j1, e),
                None => (on_schema(j1, "items"@, items1), None),
            }
        },
        None => (j, None),
    }
}

/// Whether the type of a parameter goes onto a schema.
pub open spec fn type_applies(param: Json) -> bool {
    &&& param.text_member("type"@) is Some
    &&& !param.says("type"@, "body"@)
    &&& !param.says("in"@, "formData"@)
}

/// The parameter with its type and items on a schema, the settings and the
/// failure.
pub open spec fn type_converted(param: Json, o: Settings) -> (Json, Settings, Option<Text>) {
    if !type_applies(param) {
        (param, o, None)
    } else if param.has("items"@) && param.has("schema"@) {
        let (j1, e) = error::warned(param, "parameter has array,items and schema"@, o);
        (j1, o, e)
    } else {
        let o1 = if param.has("schema"@) {
            o.patched()
        } else {
            o
        };
        let j1 = if param.member("schema"@) matches Some(Json::Object(_)) {
            param
        } else {
            param.with("schema"@, Json::empty())
        };
        let j2 = on_schema(j1, "type"@, Json::String(param.text_member("type"@)->0));
        let (j3, e3) = items_onto_schema(j2, o1);
        match e3 {
            Some(_) => (j3, o1, e3),
            None => (
                props_onto_schema(j3, common::words(PARAMETER_TYPE_PROPERTIES@), 0),
                o1,
                None,
            ),
        }
    }
}

/// Set the member `key` on `container.schema`, when there is one.
fn put_if_schema(container: &mut JsonValue, key: &str, v: JsonValue)
    ensures
        final(container)@ == on_schema(old(container)@, key@, v@),
{
    if let Some(schema) = container.get_mut("schema") {
        schema.put(key, v);
    }
}

/// Move the listed properties onto the schema.
fn move_props(param: &mut JsonValue, props: &[&'static str])
    ensures
        final(param)@ == props_onto_schema(old(param)@, common::words(props@), 0),
{
    let ghost ws = common::words(props@);
    let mut i: usize = 0;
    while i < props.len()
        invariant
            i <= props@.len(),
            ws == common::words(props@),
            props_onto_schema(old(param)@, ws, 0) == props_onto_schema(param@, ws, i as nat),
        decreases props@.len() - i,
    {
        let prop = props[i];
        assert(ws[i as int] == prop@);
        if let Some(v) = cloned(param.get(prop)) {
            put_if_schema(param, prop, v);
        }
        param.cut(prop);
        i += 1;
    }
}

/// Move the `items` of a parameter onto its schema.
fn move_items(param: &mut JsonValue, options: &Options) -> (r: Result<(), S2OError>)
    ensures
        (final(param)@, error::failure(r)) == items_onto_schema(old(param)@, options@),
{
    let old_cf = owned(param.get_str("collectionFormat"));
    if let Some(mut items) = cloned(param.get("items")) {
        param.cut("items");
        let cf: Option<&str> = match &old_cf {
            Some(s) => Some(s.as_str()),
            None => None,
        };
        strip_nested_collection_format(&mut items, cf, param, options)?;
        put_if_schema(param, "items", items);
    }
    Ok(())
}

/// Move a non-body, non-formData parameter's `type` and items onto a schema.
pub fn convert_type_to_schema(param: &mut JsonValue, options: &mut Options) -> (r: Result<
    (),
    S2OError,
>)
    ensures
        (final(param)@, final(options)@, error::failure(r)) == type_converted(
            old(param)@,
            old(options)@,
        ),
{
    let ty: String = match param.get_str("type") {
        Some(t) => t.to_owned(),
        None => {
            return Ok(());
        },
    };
    if *ty.as_str() == *"body" || param.says("in", "formData") {
        return Ok(());
    }
    if param.has("items") && param.has("schema") {
        return warn_or_error("parameter has array,items and schema", param, options);
    }
    if param.has("schema") {
        options.add_patch();
    }
    let is_object = match param.get("schema") {
        Some(s) => s.is_object(),
        None => false,
    };
    if !is_object {
        param.put("schema", JsonValue::empty_object());
    }
    put_if_schema(param, "type", JsonValue::String(ty));
    move_items(param, options)?;
    move_props(param, &PARAMETER_TYPE_PROPERTIES);
    Ok(())
}

// --- real parameters -------------------------------------------------------

/// The parameter with its `x-deprecated` and `x-example` promoted.
pub open spec fn param_extensions_promoted(param: Json) -> Json {
    let j1 = match param.member("x-deprecated"@) {
        Some(Json::Bool(b)) => param.with("deprecated"@, Json::Bool(b)).without(
            "x-deprecated"@,
        ),
        _ => param,
    };
    match j1.member("x-example"@) {
        Some(ex) => j1.with("example"@, ex).without("x-example"@),
        None => j1,
    }
}

/// The parameter with a type, the settings and the failure. Only a body
/// parameter needs none.
pub open spec fn type_supplied(param: Json, o: Settings) -> (Json, Settings, Option<Text>) {
    if !param.says("in"@, "body"@) && !param.has("type"@) {
        if o.patch {
            (param.with("type"@, Json::String("string"@)), o.patched(), None)
        } else {
            (
                param,
                o,
                Some("(Patchable) parameter.type is mandatory for non-body parameters"@),
            )
        }
    } else {
        (param, o, None)
    }
}

/// The parameter with the `$ref` under `key` replaced by its target, where there
/// is one.
pub open spec fn member_resolved(param: Json, key: Text, openapi: Json) -> Json {
    match json::text_of(param.member2(key, "$ref"@)) {
        Some(r) => match jptr::read(openapi, r) {
            Some(v) => param.with(key, v),
            None => param,
        },
        None => param,
    }
}

/// The parameter without a `null` description.
pub open spec fn null_description_dropped(param: Json) -> Json {
    if param.member("description"@) == Some(Json::Null) {
        param.without("description"@)
    } else {
        param
    }
}

/// The parameter with its schema repaired, the settings and the failure.
pub open spec fn param_schema_fixed(param: Json, o: Settings) -> (Json, Settings, Option<Text>) {
    match param.member("schema"@) {
        Some(s) => {
            let (s1, o1, e1) = fixup::schema_fixed(s, o);
            (param.with("schema"@, s1), o1, e1)
        },
        None => (param, o, None),
    }
}

/// The parameter with `x-ms-skip-url-encoding` turned into `allowReserved`.
pub open spec fn reserved_allowed(param: Json) -> Json {
    if common::is_truthy(param.member("x-ms-skip-url-encoding"@)) && param.says(
        "in"@,
        "query"@,
    ) {
        param.with("allowReserved"@, Json::Bool(true)).without("x-ms-skip-url-encoding"@)
    } else {
        param
    }
}

/// The parameter, its original type, the settings and the failure after the
/// collection format, the type and the schema have been converted.
pub open spec fn schema_converted(param: Json, o: Settings) -> (Json, Settings, Option<Text>) {
    let (j1, o1, e1) = collection_format_converted(param, o);
    match e1 {
        Some(_) => (j1, o1, e1),
        None => {
            let (j2, o2, e2) = type_converted(j1, o1);
            match e2 {
                Some(_) => (j2, o2, e2),
                None => {
                    let (j3, o3, e3) = param_schema_fixed(j2, o2);
                    match e3 {
                        Some(_) => (j3, o3, e3),
                        None => (reserved_allowed(j3), o3, None),
                    }
                },
            }
        },
    }
}

/// The parameter, its original type, the settings and the failure after the
/// real-parameter transforms.
pub open spec fn real_processed(
    param: Json,
    original: Option<Text>,
    openapi: Json,
    o: Settings,
) -> (Json, Option<Text>, Settings, Option<Text>) {
    let (j1, o1, e1) = type_supplied(param_extensions_promoted(param), o);
    match e1 {
        Some(_) => (j1, original, o1, e1),
        None => {
            let j2 = member_resolved(j1, "type"@, openapi);
            let file = j2.says("type"@, "file"@);
            let j3 = if file {
                j2.with("x-s2o-originalType"@, Json::String("file"@))
            } else {
                j2
            };
            let original1 = if file {
                Some("file"@)
            } else {
                original
            };
            let j4 = null_description_dropped(member_resolved(j3, "description"@, openapi));
            let (j5, o5, e5) = schema_converted(j4, o1);
            (j5, original1, o5, e5)
        },
    }
}

/// Replace the `$ref` under `key` by its target.
fn resolve_member(param: &mut JsonValue, key: &str, openapi: &JsonValue)
    ensures
        final(param)@ == member_resolved(old(param)@, key@, openapi@),
{
    let resolved: Option<JsonValue> = match text_of(member_of(param.get(key), "$ref")) {
        Some(r) => cloned(jptr::get(openapi, r)),
        None => None,
    };
    if let Some(v) = resolved {
        param.put(key, v);
    }
}

/// Promote `x-deprecated` and `x-example`.
fn promote_param_extensions(param: &mut JsonValue)
    ensures
        final(param)@ == param_extensions_promoted(old(param)@),
{
    let deprecated: Option<bool> = match param.get("x-deprecated") {
        Some(v) => v.as_bool(),
        None => None,
    };
    if let Some(b) = deprecated {
        param.put("deprecated", JsonValue::Bool(b));
        param.cut("x-deprecated");
    }
    if let Some(ex) = cloned(param.get("x-example")) {
        param.put("example", ex);
        param.cut("x-example");
    }
}

/// Convert the collection format, the type and the schema of a parameter.
fn convert_param_schema(param: &mut JsonValue, options: &mut Options) -> (r: Result<(), S2OError>)
    ensures
        (final(param)@, final(options)@, error::failure(r)) == schema_converted(
            old(param)@,
            old(options)@,
        ),
{
    convert_collection_format(param, options)?;
    convert_type_to_schema(param, options)?;
    if let Some(schema) = param.get_mut("schema") {
        fix_up_schema(schema, options)?;
    }
    if truthy(param.get("x-ms-skip-url-encoding")) && param.says("in", "query") {
        param.put("allowReserved", JsonValue::Bool(true));
        param.cut("x-ms-skip-url-encoding");
    }
    Ok(())
}

/// Apply the real-parameter transforms: deprecation, example, type to schema,
/// collection format to style and explode.
pub fn process_real_parameter(
    param: &mut JsonValue,
    original_type: &mut Option<String>,
    openapi: &JsonValue,
    options: &mut Options,
) -> (r: Result<(), S2OError>)
    ensures
        (
            final(param)@,
            options::opt_string(*final(original_type)),
            final(options)@,
            error::failure(r),
        ) == real_processed(
            old(param)@,
            options::opt_string(*old(original_type)),
            openapi@,
            old(options)@,
        ),
{
    promote_param_extensions(param);
    if !param.says("in", "body") && !param.has("type") {
        if options.patch {
            options.add_patch();
            param.put("type", JsonValue::text("string"));
        } else {
            return Err(
                S2OError::new("(Patchable) parameter.type is mandatory for non-body parameters"),
            );
        }
    }

    // type as a $ref object.
    resolve_member(param, "type", openapi);
    if param.says("type", "file") {
        param.put("x-s2o-originalType", JsonValue::text("file"));
        *original_type = Some("file".to_owned());
    }
    resolve_member(param, "description", openapi);
    let null_description = match param.get("description") {
        Some(d) => d.is_null(),
        None => false,
    };
    if null_description {
        param.cut("description");
    }
    convert_param_schema(param, options)
}

// --- parameters ------------------------------------------------------------

/// The operation with its `consumes` an array, the media types, the settings and
/// the failure.
pub open spec fn consumes_wrapped(
    op: Option<Json>,
    openapi: Json,
    consumes: Seq<Text>,
    o: Settings,
) -> (Option<Json>, Seq<Text>, Settings, Option<Text>) {
    match json::text_of(json::member_of(op, "consumes"@)) {
        Some(s) => if o.patch {
            let op1 = op->0.with("consumes"@, Json::Array(seq![Json::String(s)]));
            (
                Some(op1),
                body::media_types(Some(op1), openapi, "consumes"@),
                o.patched(),
                None,
            )
        } else {
            (op, consumes, o, Some("(Patchable) operation.consumes must be an array"@))
        },
        None => (op, consumes, o, None),
    }
}

/// Whether the component parameter that `r` names is gone.
pub open spec fn component_gone(openapi: Json, r: Text) -> bool {
    let key = common::uri_decoded(text::replaced(r, "#/components/parameters/"@, Seq::empty()));
    match json::member_of(openapi.member2("components"@, "parameters"@), key) {
        None => true,
        Some(t) => common::is_truthy(t.member("x-s2o-delete"@)),
    }
}

/// The parameter with its `$ref` followed, when it is internal, and the failure.
pub open spec fn internal_ref_followed(param: Json, openapi: Json, o: Settings) -> (
    Json,
    Option<Text>,
) {
    if param.text_member("$ref"@) is None {
        (param, None)
    } else {
        let (j1, e1) = param_ref_fixed(param, o);
        match (e1, j1.text_member("$ref"@)) {
            (None, Some(r)) => if component_gone(openapi, r) && text::starts(r, "#/"@) {
                match jptr::read(openapi, r) {
                    None => error::warned(
                        j1.with("x-s2o-delete"@, Json::Bool(true)),
                        "Could not resolve reference "@ + r,
                        o,
                    ),
                    Some(v) => (v, None),
                }
            } else {
                (j1, None)
            },
            _ => (j1, e1),
        }
    }
}

/// Whether a parameter is a real one.
pub open spec fn is_real(param: Json) -> bool {
    param.has("name"@) || param.has("in"@)
}

/// The request body that a form or file parameter makes.
pub open spec fn form_or_file_body(
    param: Json,
    consumes: Seq<Text>,
    original: Option<Text>,
) -> Json {
    if param.says("in"@, "formData"@) {
        body::form_body(param, consumes, original, Json::empty())
    } else if param.says("type"@, "file"@) {
        body::file_body(param, Json::empty())
    } else {
        Json::empty()
    }
}

/// The operation with the name of its body parameter under `rbname`.
pub open spec fn body_name_kept(op: Option<Json>, param: Json, o: Settings) -> Option<Json> {
    match (op, param.text_member("name"@)) {
        (Some(p), Some(name)) => if o.rbname.len() > 0 {
            Some(p.with(o.rbname, Json::String(name)))
        } else {
            op
        },
        _ => op,
    }
}

/// The operation, the request body that the parameter makes, the settings and
/// the failure.
pub open spec fn param_body(
    param: Json,
    op: Option<Json>,
    consumes: Seq<Text>,
    original: Option<Text>,
    o: Settings,
) -> (Option<Json>, Json, Settings, Option<Text>) {
    let r1 = form_or_file_body(param, consumes, original);
    if param.says("in"@, "body"@) {
        let (r2, o2, e2) = body::body_built(param, op, consumes, o, r1);
        match e2 {
            Some(_) => (op, r2, o2, e2),
            None => (body_name_kept(op, param, o2), r2, o2, None),
        }
    } else {
        (op, r1, o, None)
    }
}

/// The parameter and the operation with the request body attached, and the
/// failure.
pub open spec fn param_body_attached(
    param: Json,
    op: Option<Json>,
    result: Json,
    index: Text,
    o: Settings,
) -> (Json, Option<Json>, Option<Text>) {
    if result.members().len() > 0 {
        let j1 = param.with("x-s2o-delete"@, Json::Bool(true));
        match op {
            Some(p) => {
                let (p1, e) = body::result_attached(
                    p,
                    result,
                    !param.says("in"@, "formData"@),
                    index,
                    o,
                );
                (j1, Some(p1), e)
            },
            None => (j1, op, None),
        }
    } else {
        (param, op, None)
    }
}

/// The value without the members under the keys from position `i` on.
pub open spec fn members_dropped(j: Json, keys: Seq<Text>, i: nat) -> Json
    decreases keys.len() - i,
{
    if i >= keys.len() {
        j
    } else {
        members_dropped(j.without(keys[i as int]), keys, i + 1)
    }
}

/// The parameter that stayed in place, tidied, the settings and the failure.
pub open spec fn param_tidied(param: Json, index: Text, o: Settings) -> (
    Json,
    Settings,
    Option<Text>,
) {
    if common::is_truthy(param.member("x-s2o-delete"@)) {
        (param, o, None)
    } else {
        let j1 = members_dropped(
            param.without("type"@),
            common::words(PARAMETER_TYPE_PROPERTIES@),
            0,
        );
        if j1.says("in"@, "path"@) && j1.member("required"@) != Some(Json::Bool(true)) {
            if o.patch {
                (j1.with("required"@, Json::Bool(true)), o.patched(), None)
            } else {
                let name = match j1.text_member("name"@) {
                    Some(n) => n,
                    None => ""@,
                };
                (
                    j1,
                    o,
                    Some(
                        "(Patchable) path parameters must be required:true ["@ + name + " in "@
                            + index + "]"@,
                    ),
                )
            }
        } else {
            (j1, o, None)
        }
    }
}

/// The parameter, the operation, the settings and the failure after the request
/// body of a converted parameter has been made.
pub open spec fn param_finished(
    param: Json,
    op: Option<Json>,
    index: Text,
    consumes: Seq<Text>,
    original: Option<Text>,
    o: Settings,
) -> (Json, Option<Json>, Settings, Option<Text>) {
    let (op1, r1, o1, e1) = param_body(param, op, consumes, original, o);
    match e1 {
        Some(_) => (param, op1, o1, e1),
        None => {
            let (j2, op2, e2) = param_body_attached(param, op1, r1, index, o1);
            match e2 {
                Some(_) => (j2, op2, o1, e2),
                None => {
                    let (j3, o3, e3) = param_tidied(j2, index, o1);
                    (j3, op2, o3, e3)
                },
            }
        },
    }
}

/// The parameter, the operation, the settings and the failure after the
/// conversion of one parameter.
#[verifier::opaque]
pub open spec fn param_processed(
    param: Json,
    op: Option<Json>,
    index: Text,
    openapi: Json,
    consumes: Seq<Text>,
    o: Settings,
) -> (Json, Option<Json>, Settings, Option<Text>) {
    let (op1, consumes1, o1, e1) = consumes_wrapped(op, openapi, consumes, o);
    match e1 {
        Some(_) => (param, op1, o1, e1),
        None => {
            let (j2, e2) = internal_ref_followed(param, openapi, o1);
            match e2 {
                Some(_) => (j2, op1, o1, e2),
                None => if is_real(j2) {
                    let (j3, original, o3, e3) = real_processed(j2, None, openapi, o1);
                    match e3 {
                        Some(_) => (j3, op1, o3, e3),
                        None => param_finished(j3, op1, index, consumes1, original, o3),
                    }
                } else {
                    param_finished(j2, op1, index, consumes1, None, o1)
                },
            }
        },
    }
}

/// A parameter of an operation leaves an operation.
pub proof fn param_keeps_op(
    param: Json,
    op: Json,
    index: Text,
    openapi: Json,
    consumes: Seq<Text>,
    o: Settings,
)
    ensures
        param_processed(param, Some(op), index, openapi, consumes, o).1 is Some,
{
    reveal(param_processed);
}

/// Wrap a string `consumes` of an operation under patch.
fn wrap_consumes(
    op: &mut Option<JsonValue>,
    openapi: &JsonValue,
    consumes: &Vec<String>,
    options: &mut Options,
) -> (r: Result<Vec<String>, S2OError>)
    ensures
        ({
            let (op1, consumes1, o1, e1) = consumes_wrapped(
                opt_json(*old(op)),
                openapi@,
                json::texts(consumes@),
                old(options)@,
            );
            &&& opt_json(*final(op)) == op1
            &&& final(options)@ == o1
            &&& match r {
                Ok(c) => e1 is None && json::texts(c@) == consumes1,
                Err(e) => e1 == Some(e.message@),
            }
        }),
{
    let string: Option<String> = match &*op {
        Some(o) => owned(o.get_str("consumes")),
        None => None,
    };
    if let Some(s) = string {
        if options.patch {
            options.add_patch();
            if let Some(o) = op {
                let mut list: Vec<JsonValue> = Vec::new();
                list.push(JsonValue::String(s));
                assert(value::views(list@) =~= seq![Json::String(s@)]);
                o.put("consumes", JsonValue::array(list));
                return Ok(effective_consumes(Some(&*o), openapi));
            }
        } else {
            return Err(S2OError::new("(Patchable) operation.consumes must be an array"));
        }
    }
    Ok(clone_texts(consumes))
}

/// The document of an optional value.
pub open spec fn opt_json(v: Option<JsonValue>) -> Option<Json> {
    match v {
        Some(v) => Some(v@),
        None => None,
    }
}

/// A copy of a list of strings.
pub fn clone_texts(a: &Vec<String>) -> (r: Vec<String>)
    ensures
        json::texts(r@) == json::texts(a@),
{
    let mut r: Vec<String> = Vec::new();
    let mut i: usize = 0;
    while i < a.len()
        invariant
            i <= a@.len(),
            r@.len() == i,
            forall|j: int| 0 <= j < i ==> (#[trigger] r@[j])@ == a@[j]@,
        decreases a@.len() - i,
    {
        r.push(a[i].clone());
        i += 1;
    }
    assert(json::texts(r@) =~= json::texts(a@));
    r
}

/// Whether the component parameter that `r` names is gone.
fn is_component_gone(openapi: &JsonValue, r: &str) -> (b: bool)
    ensures
        b == component_gone(openapi@, r@),
{
    let empty = "";
    proof {
        reveal_strlit("");
        assert(empty@ =~= Seq::empty());
    }
    let key = decode_uri_component(text::replace(r, "#/components/parameters/", empty).as_str());
    match member_of(member_of(openapi.get("components"), "parameters"), key.as_str()) {
        None => true,
        Some(t) => truthy(t.get("x-s2o-delete")),
    }
}

/// Follow an internal parameter `$ref`.
fn follow_internal_ref(param: &mut JsonValue, openapi: &JsonValue, options: &Options) -> (r: Result<
    (),
    S2OError,
>)
    ensures
        (final(param)@, error::failure(r)) == internal_ref_followed(
            old(param)@,
            openapi@,
            options@,
        ),
{
    if param.get_str("$ref").is_none() {
        return Ok(());
    }
    fix_param_ref(param, options)?;
    let ref_str: String = match param.get_str("$ref") {
        Some(r) => r.to_owned(),
        None => {
            return Ok(());
        },
    };
    let r = ref_str.as_str();
    if is_component_gone(openapi, r) && text::starts_with(r, "#/") {
        match jptr::get(openapi, r) {
            None => {
                param.put("x-s2o-delete", JsonValue::Bool(true));
                let message = text::cat("Could not resolve reference ", r);
                warn_or_error(message.as_str(), param, options)?;
            },
            Some(v) => {
                *param = v.clone();
            },
        }
    }
    Ok(())
}

/// Drop the listed members.
fn drop_members(j: &mut JsonValue, keys: &[&'static str])
    ensures
        final(j)@ == members_dropped(old(j)@, common::words(keys@), 0),
{
    let ghost ws = common::words(keys@);
    let mut i: usize = 0;
    while i < keys.len()
        invariant
            i <= keys@.len(),
            ws == common::words(keys@),
            members_dropped(old(j)@, ws, 0) == members_dropped(j@, ws, i as nat),
        decreases keys@.len() - i,
    {
        assert(ws[i as int] == keys@[i as int]@);
        j.cut(keys[i]);
        i += 1;
    }
}

/// Tidy a parameter that stayed in place.
fn tidy_parameter(param: &mut JsonValue, index: &str, options: &mut Options) -> (r: Result<
    (),
    S2OError,
>)
    ensures
        (final(param)@, final(options)@, error::failure(r)) == param_tidied(
            old(param)@,
            index@,
            old(options)@,
        ),
{
    if truthy(param.get("x-s2o-delete")) {
        return Ok(());
    }
    param.cut("type");
    drop_members(param, &PARAMETER_TYPE_PROPERTIES);
    let required = match param.get("required") {
        Some(v) => match v.as_bool() {
            Some(b) => b,
            None => false,
        },
        None => false,
    };
    if param.says("in", "path") && !required {
        if options.patch {
            options.add_patch();
            param.put("required", JsonValue::Bool(true));
        } else {
            let name: &str = match param.get_str("name") {
                Some(n) => n,
                None => "",
            };
            let head = text::cat3(
                "(Patchable) path parameters must be required:true [",
                name,
                " in ",
            );
            let message = text::cat3(head.as_str(), index, "]");
            return Err(S2OError::new(message.as_str()));
        }
    }
    Ok(())
}

/// Make the request body of a converted parameter.
fn make_param_body(
    param: &JsonValue,
    op: &mut Option<JsonValue>,
    consumes: &Vec<String>,
    original_type: &Option<String>,
    options: &mut Options,
) -> (r: Result<JsonValue, S2OError>)
    ensures
        ({
            let (op1, r1, o1, e1) = param_body(
                param@,
                opt_json(*old(op)),
                json::texts(consumes@),
                options::opt_string(*original_type),
                old(options)@,
            );
            &&& opt_json(*final(op)) == op1
            &&& final(options)@ == o1
            &&& match r {
                Ok(v) => e1 is None && v@ == r1,
                Err(e) => e1 == Some(e.message@),
            }
        }),
{
    let mut result = JsonValue::empty_object();
    let original: Option<&str> = match original_type {
        Some(t) => Some(t.as_str()),
        None => None,
    };
    if param.says("in", "formData") {
        build_form_data_body(param, consumes, original, &mut result);
    } else if param.says("type", "file") {
        build_file_body(param, &mut result);
    }
    if param.says("in", "body") {
        let shown: Option<&JsonValue> = match &*op {
            Some(o) => Some(o),
            None => None,
        };
        build_body_request_body(param, shown, consumes, options, &mut result)?;
        if let Some(o) = op {
            if !options.rbname.as_str().is_empty() {
                if let Some(name) = param.get_str("name") {
                    o.put(options.rbname.as_str(), JsonValue::text(name));
                }
            }
        }
    }
    Ok(result)
}

/// Convert one parameter, possibly producing a request body on `op`.
///
/// `consumes` is the precomputed media-type list. `openapi` is read only, used
/// to resolve internal parameter `$ref`s. Returns nothing; mutations land on
/// `param` and `op`.
pub fn process_parameter(
    param: &mut JsonValue,
    op: &mut Option<JsonValue>,
    index: &str,
    openapi: &JsonValue,
    consumes: &Vec<String>,
    options: &mut Options,
) -> (r: Result<(), S2OError>)
    ensures
        (final(param)@, opt_json(*final(op)), final(options)@, error::failure(r))
            == param_processed(
            old(param)@,
            opt_json(*old(op)),
            index@,
            openapi@,
            json::texts(consumes@),
            old(options)@,
        ),
{
    reveal(param_processed);
    // operation.consumes must be an array.
    let consumes = wrap_consumes(op, openapi, consumes, options)?;

    // Internal parameter $ref.
    follow_internal_ref(param, openapi, options)?;

    let mut original_type: Option<String> = None;
    if param.has("name") || param.has("in") {
        process_real_parameter(param, &mut original_type, openapi, options)?;
    }

    let result = make_param_body(param, op, &consumes, &original_type, options)?;
    let filled = match result.as_object() {
        Some(m) => !m.is_empty(),
        None => false,
    };
    if filled {
        let singular = !param.says("in", "formData");
        param.put("x-s2o-delete", JsonValue::Bool(true));
        if let Some(o) = op {
            attach_result_to_op(o, result, singular, index, options)?;
        }
    }

    // Tidy a parameter that stayed in place.
    tidy_parameter(param, index, options)
}

} // verus!
