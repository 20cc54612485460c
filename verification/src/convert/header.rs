//! Response headers.

use vstd::prelude::*;

use crate::common::{self, ARRAY_PROPERTIES, PARAMETER_TYPE_PROPERTIES};
use crate::error::{self, warn_or_error, S2OError};
use crate::json::{self, Json, Text};
use crate::options::{Options, Settings};
use crate::text;
use crate::value::{self, JsonValue};

verus! {

/// The container with the member `key` set on its `schema`.
pub open spec fn schema_with(j: Json, key: Text, v: Json) -> Json {
    let j1 = j.with_new("schema"@, Json::empty());
    j1.with("schema"@, j1.member("schema"@)->0.with(key, v))
}

/// Set the member `key` on `container.schema`, creating the schema.
pub fn put_on_schema(container: &mut JsonValue, key: &str, v: JsonValue)
    ensures
        final(container)@ == schema_with(old(container)@, key@, v@),
{
    container.put_new("schema", JsonValue::empty_object());
    proof {
        json_new_member(old(container)@, "schema"@, Json::empty());
    }
    if let Some(schema) = container.get_mut("schema") {
        schema.put(key, v);
    }
}

/// A member that was set unless it existed exists.
pub proof fn json_new_member(j: Json, key: Text, v: Json)
    ensures
        j.with_new(key, v).has(key),
{
    if !json::has_key(j.members(), key) {
        crate::laws::lookup_after_insert(j.members(), key, v);
    }
}

/// The container with the listed properties from position `i` on moved onto its
/// `schema`.
pub open spec fn props_moved(j: Json, props: Seq<Text>, i: nat) -> Json
    decreases props.len() - i,
{
    if i >= props.len() {
        j
    } else {
        let prop = props[i as int];
        let j1 = match j.member(prop) {
            Some(v) => schema_with(j, prop, v).without(prop),
            None => j,
        };
        props_moved(j1, props, i + 1)
    }
}

/// Move each listed property from `container` onto `container.schema`.
pub fn move_props_to_schema(container: &mut JsonValue, props: &[&'static str])
    ensures
        final(container)@ == props_moved(old(container)@, common::words(props@), 0),
{
    let ghost ws = common::words(props@);
    let mut i: usize = 0;
    while i < props.len()
        invariant
            i <= props@.len(),
            ws == common::words(props@),
            props_moved(old(container)@, ws, 0) == props_moved(container@, ws, i as nat),
        decreases props@.len() - i,
    {
        let prop = props[i];
        assert(ws[i as int] == prop@);
        let value: Option<JsonValue> = match container.get(prop) {
            Some(v) => Some(v.clone()),
            None => None,
        };
        if let Some(v) = value {
            put_on_schema(container, prop, v);
            container.cut(prop);
        }
        i += 1;
    }
}

/// The header after a nested `collectionFormat` went, and the failure.
pub open spec fn items_format_dropped(j: Json, o: Settings) -> (Json, Option<Text>) {
    match j.member("items"@) {
        Some(items) => if items.text_member("type"@) != Some("array"@) {
            let (j1, e) = if items.text_member("collectionFormat"@) != j.text_member(
                "collectionFormat"@,
            ) {
                error::warned(j, "Nested collectionFormats are not supported"@, o)
            } else {
                (j, None)
            };
            match (e, j1.member("items"@)) {
                (None, Some(items1)) => (
                    j1.with("items"@, items1.without("collectionFormat"@)),
                    None,
                ),
                _ => (j1, e),
            }
        } else {
            (j, None)
        },
        None => (j, None),
    }
}

/// The array header with its `collectionFormat` turned into a style, and the
/// failure.
pub open spec fn header_styled(j: Json, o: Settings) -> (Json, Option<Text>) {
    let cf = j.text_member("collectionFormat"@);
    let (j1, e) = if cf == Some("ssv"@) {
        error::warned(j, "collectionFormat:ssv is no longer supported for headers"@, o)
    } else if cf == Some("pipes"@) {
        error::warned(j, "collectionFormat:pipes is no longer supported for headers"@, o)
    } else if cf == Some("multi"@) {
        (j.with("explode"@, Json::Bool(true)), None)
    } else if cf == Some("tsv"@) {
        let (j2, e2) = error::warned(j, "collectionFormat:tsv is no longer supported"@, o);
        match e2 {
            None => (j2.with("x-collectionFormat"@, Json::String("tsv"@)), None),
            Some(_) => (j2, e2),
        }
    } else {
        (j.with("style"@, Json::String("simple"@)), None)
    };
    match e {
        None => (j1.without("collectionFormat"@), None),
        Some(_) => (j1, e),
    }
}

/// The header after its `collectionFormat` went, the settings and the failure.
pub open spec fn header_format_fixed(j: Json, array: bool, o: Settings) -> (
    Json,
    Settings,
    Option<Text>,
) {
    if array {
        let (j1, e) = header_styled(j, o);
        (j1, o, e)
    } else if j.has("collectionFormat"@) {
        if o.patch {
            (j.without("collectionFormat"@), o.patched(), None)
        } else {
            (
                j,
                o,
                Some("(Patchable) collectionFormat is only applicable to header.type array"@),
            )
        }
    } else {
        (j, o, None)
    }
}

/// The header whose type and other schema properties went onto its `schema`.
pub open spec fn header_props_moved(j: Json) -> Json {
    props_moved(
        props_moved(j.without("type"@), common::words(PARAMETER_TYPE_PROPERTIES@), 0),
        common::words(ARRAY_PROPERTIES@),
        0,
    )
}

/// The response header in 3.0 shape, the settings and the failure.
pub open spec fn header_fixed(header: Json, o: Settings) -> (Json, Settings, Option<Text>) {
    if header.has("$ref"@) {
        match header.text_member("$ref"@) {
            Some(s) => (
                header.with(
                    "$ref"@,
                    Json::String(
                        text::replaced(s, "#/responses/"@, "#/components/responses/"@),
                    ),
                ),
                o,
                None,
            ),
            None => (header, o, None),
        }
    } else {
        let header_type = header.text_member("type"@);
        let j1 = match header_type {
            Some(t) => schema_with(header, "type"@, Json::String(t)),
            None => header,
        };
        let (j2, e2) = items_format_dropped(j1, o);
        match e2 {
            Some(_) => (j2, o, e2),
            None => {
                let (j3, o3, e3) = header_format_fixed(
                    j2,
                    header_type == Some("array"@),
                    o,
                );
                match e3 {
                    Some(_) => (j3, o3, e3),
                    None => (header_props_moved(j3), o3, None),
                }
            },
        }
    }
}

/// Whether two optional strings are equal.
pub fn same_text(a: Option<&str>, b: Option<&str>) -> (r: bool)
    ensures
        r == (value::opt_text(a) == value::opt_text(b)),
{
    match (a, b) {
        (Some(x), Some(y)) => *x == *y,
        (None, None) => true,
        _ => false,
    }
}

/// Drop a nested `collectionFormat`, warning when it differs.
fn drop_items_format(header: &mut JsonValue, options: &Options) -> (r: Result<(), S2OError>)
    ensures
        (final(header)@, error::failure(r)) == items_format_dropped(old(header)@, options@),
{
    let (applies, differs) = match header.get("items") {
        Some(items) => (
            !items.says("type", "array"),
            !same_text(items.get_str("collectionFormat"), header.get_str("collectionFormat")),
        ),
        None => (false, false),
    };
    if applies {
        if differs {
            warn_or_error("Nested collectionFormats are not supported", header, options)?;
        }
        if let Some(items) = header.get_mut("items") {
            items.cut("collectionFormat");
        }
    }
    Ok(())
}

/// Turn the `collectionFormat` of an array header into a style.
fn style_header(header: &mut JsonValue, options: &Options) -> (r: Result<(), S2OError>)
    ensures
        (final(header)@, error::failure(r)) == header_styled(old(header)@, options@),
{
    if header.says("collectionFormat", "ssv") {
        warn_or_error(
            "collectionFormat:ssv is no longer supported for headers",
            header,
            options,
        )?;
    } else if header.says("collectionFormat", "pipes") {
        warn_or_error(
            "collectionFormat:pipes is no longer supported for headers",
            header,
            options,
        )?;
    } else if header.says("collectionFormat", "multi") {
        header.put("explode", JsonValue::Bool(true));
    } else if header.says("collectionFormat", "tsv") {
        warn_or_error("collectionFormat:tsv is no longer supported", header, options)?;
        header.put("x-collectionFormat", JsonValue::text("tsv"));
    } else {
        header.put("style", JsonValue::text("simple"));
    }
    header.cut("collectionFormat");
    Ok(())
}

/// Convert a 2.0 response header to 3.0 shape.
pub fn process_header(header: &mut JsonValue, options: &mut Options) -> (r: Result<(), S2OError>)
    ensures
        (final(header)@, final(options)@, error::failure(r)) == header_fixed(
            old(header)@,
            old(options)@,
        ),
{
    if header.has("$ref") {
        let moved: Option<String> = match header.get_str("$ref") {
            Some(s) => Some(text::replace(s, "#/responses/", "#/components/responses/")),
            None => None,
        };
        if let Some(s) = moved {
            header.put("$ref", JsonValue::String(s));
        }
        return Ok(());
    }
    let header_type: Option<String> = match header.get_str("type") {
        Some(t) => Some(t.to_owned()),
        None => None,
    };
    let mut array = false;
    if let Some(t) = &header_type {
        array = *t.as_str() == *"array";
        put_on_schema(header, "type", JsonValue::text(t.as_str()));
    }
    drop_items_format(header, options)?;
    if array {
        style_header(header, options)?;
    } else if header.has("collectionFormat") {
        if options.patch {
            options.add_patch();
            header.cut("collectionFormat");
        } else {
            return Err(
                S2OError::new(
                    "(Patchable) collectionFormat is only applicable to header.type array",
                ),
            );
        }
    }
    header.cut("type");
    move_props_to_schema(header, &PARAMETER_TYPE_PROPERTIES);
    move_props_to_schema(header, &ARRAY_PROPERTIES);
    Ok(())
}

} // verus!
