//! JSON Schema repair passes.
//!
//! [`fix_up_schema`] walks a schema and applies two passes to every subschema:
//! extension promotion ([`fix_up_sub_schema_extensions`]) then keyword repair
//! ([`fix_up_sub_schema`]). The repairs turn Swagger 2.0 schema quirks into
//! valid OpenAPI 3.0 schema constructs.

use vstd::prelude::*;

use crate::common;
use crate::error::{self, warn_or_error, S2OError};
use crate::json::{self, Json, Members, Text};
use crate::laws;
use crate::options::{Options, Settings};
use crate::schema_walker::{self, walk_schema, SchemaVisitor};
use crate::text;
use crate::value::{self, clone_values, into_elements, JsonValue, Object};

verus! {

// --- extension promotion ---------------------------------------------------

/// Rename the member `from` to `to`.
pub open spec fn renamed(m: Members, from: Text, to: Text) -> Members {
    match json::lookup(m, from) {
        Some(v) => json::insert(json::remove(m, from), to, v),
        None => m,
    }
}

/// Merge an `x-required` array into `required`.
pub open spec fn required_merged(m: Members) -> Members {
    match json::lookup(m, "x-required"@) {
        Some(Json::Array(extra)) => {
            let required = match json::lookup(m, "required"@) {
                Some(v) => v.elements(),
                None => Seq::empty(),
            };
            json::remove(
                json::insert(
                    json::remove(m, "required"@),
                    "required"@,
                    Json::Array(required + extra),
                ),
                "x-required"@,
            )
        },
        _ => m,
    }
}

/// Promote a boolean `x-nullable`.
pub open spec fn nullable_promoted(m: Members) -> Members {
    match json::lookup(m, "x-nullable"@) {
        Some(Json::Bool(b)) => json::remove(
            json::insert(m, "nullable"@, Json::Bool(b)),
            "x-nullable"@,
        ),
        _ => m,
    }
}

/// The mapping target in the schemas bucket.
pub open spec fn target_moved(v: Json) -> Json {
    match v {
        Json::String(s) => match text::stripped(s, "#/definitions/"@) {
            Some(rest) => Json::String("#/components/schemas/"@ + rest),
            None => v,
        },
        _ => v,
    }
}

/// The mapping with every target from position `i` on in the schemas bucket.
pub open spec fn mapping_moved(m: Members, i: nat) -> Members
    decreases m.len() - i,
{
    if i >= m.len() {
        m
    } else {
        let (key, v) = m[i as int];
        mapping_moved(m.update(i as int, (key, target_moved(v))), i + 1)
    }
}

/// The discriminator with its mapping targets in the schemas bucket.
pub open spec fn discriminator_moved(d: Members) -> Members {
    match json::lookup(d, "mapping"@) {
        Some(Json::Object(mapping)) => json::insert(
            d,
            "mapping"@,
            Json::Object(mapping_moved(mapping, 0)),
        ),
        _ => d,
    }
}

/// Promote an `x-discriminator` object that has a string `propertyName`.
pub open spec fn discriminator_promoted(m: Members) -> Members {
    match json::lookup(m, "x-discriminator"@) {
        Some(Json::Object(d)) => if json::text_of(json::lookup(d, "propertyName"@)) is Some {
            json::insert(
                json::remove(m, "x-discriminator"@),
                "discriminator"@,
                Json::Object(discriminator_moved(d)),
            )
        } else {
            m
        },
        _ => m,
    }
}

/// The schema with its `x-` extensions promoted.
pub open spec fn extensions_promoted(schema: Json) -> Json {
    match schema {
        Json::Object(m) => {
            let m1 = required_merged(m);
            let m2 = renamed(m1, "x-anyOf"@, "anyOf"@);
            let m3 = renamed(m2, "x-oneOf"@, "oneOf"@);
            let m4 = renamed(m3, "x-not"@, "not"@);
            let m5 = nullable_promoted(m4);
            Json::Object(discriminator_promoted(m5))
        },
        _ => schema,
    }
}

/// Rename `from` to `to`, dropping `from`.
fn rename(map: &mut Object, from: &str, to: &str)
    ensures
        final(map)@ == renamed(old(map)@, from@, to@),
{
    if let Some(v) = map.remove(from) {
        map.insert(to, v);
    } else {
        assert(!json::has_key(old(map)@, from@));
    }
}

/// Rewrite the targets of a discriminator mapping.
fn move_mapping(mapping: &mut Object)
    ensures
        final(mapping)@ == mapping_moved(old(mapping)@, 0),
{
    let n: usize = mapping.len();
    let mut i: usize = 0;
    while i < n
        invariant
            i <= n,
            n == mapping@.len(),
            mapping_moved(old(mapping)@, 0) == mapping_moved(mapping@, i as nat),
        decreases n - i,
    {
        let value = mapping.value_at_mut(i);
        let moved: Option<String> = match value.as_str() {
            Some(s) => text::strip_prefix(s, "#/definitions/"),
            None => None,
        };
        if let Some(rest) = moved {
            *value = JsonValue::String(text::cat("#/components/schemas/", rest.as_str()));
        }
        i += 1;
    }
}

/// Promote `x-` schema extensions to their standard keywords.
pub fn fix_up_sub_schema_extensions(schema: &mut JsonValue, _parent: Option<&mut JsonValue>)
    ensures
        final(schema)@ == extensions_promoted(old(schema)@),
        match _parent {
            Some(p) => final(p)@ == p@,
            None => true,
        },
{
    let map = match schema.as_object_mut() {
        Some(m) => m,
        None => {
            return;
        },
    };

    // x-required (array) merges into required.
    let extra: Option<Vec<JsonValue>> = match map.get("x-required") {
        Some(v) => match v.as_array() {
            Some(a) => Some(clone_values(a)),
            None => None,
        },
        None => None,
    };
    if let Some(mut extra) = extra {
        let mut required: Vec<JsonValue> = match map.remove("required") {
            Some(v) => into_elements(v),
            None => Vec::new(),
        };
        let ghost req = value::views(required@);
        let ghost ext = value::views(extra@);
        required.append(&mut extra);
        assert(value::views(required@) =~= req + ext);
        map.insert("required", JsonValue::array(required));
        map.remove("x-required");
    }
    rename(map, "x-anyOf", "anyOf");
    rename(map, "x-oneOf", "oneOf");
    rename(map, "x-not", "not");

    let nullable: Option<bool> = match map.get("x-nullable") {
        Some(v) => v.as_bool(),
        None => None,
    };
    if let Some(b) = nullable {
        map.insert("nullable", JsonValue::Bool(b));
        map.remove("x-nullable");
    }

    // x-discriminator object with a string propertyName becomes discriminator,
    // rewriting any mapping targets from definitions to schemas.
    let promote = match map.get("x-discriminator") {
        Some(d) => d.get_str("propertyName").is_some(),
        None => false,
    };
    if promote {
        if let Some(mut disc) = map.remove("x-discriminator") {
            if let Some(d) = disc.as_object_mut() {
                move_discriminator(d);
            }
            map.insert("discriminator", disc);
        }
    }
}

/// Rewrite the mapping of a discriminator.
fn move_discriminator(d: &mut Object)
    ensures
        final(d)@ == discriminator_moved(old(d)@),
{
    let has_mapping = match d.get("mapping") {
        Some(v) => v.is_object(),
        None => false,
    };
    if has_mapping {
        if let Some(v) = d.get_mut("mapping") {
            if let Some(mapping) = v.as_object_mut() {
                move_mapping(mapping);
            }
        }
    }
}

// --- keyword repair --------------------------------------------------------

/// A string discriminator becomes an object.
pub open spec fn discriminator_wrapped(j: Json) -> Json {
    match j.text_member("discriminator"@) {
        Some(name) => j.with(
            "discriminator"@,
            Json::single("propertyName"@, Json::String(name)),
        ),
        None => j,
    }
}

/// What an `items` array collapses to: a single schema or an `anyOf`.
pub open spec fn items_collapsed(a: Seq<Json>) -> Json {
    if a.len() == 0 {
        Json::empty()
    } else if a.len() == 1 {
        a[0]
    } else {
        Json::single("anyOf"@, Json::Array(a))
    }
}

/// An `items` array collapses.
pub open spec fn items_fixed(j: Json) -> Json {
    match j.member("items"@) {
        Some(Json::Array(a)) => j.with("items"@, items_collapsed(a)),
        _ => j,
    }
}

/// The schema and the `oneOf` branches after the types from position `i` on. A
/// `null` type makes the schema nullable, any other type is a branch.
pub open spec fn types_split(types: Seq<Json>, i: nat, j: Json, branches: Seq<Json>) -> (
    Json,
    Seq<Json>,
)
    decreases types.len() - i,
{
    if i >= types.len() {
        (j, branches)
    } else if types[i as int].text() == Some("null"@) {
        types_split(types, i + 1, j.with("nullable"@, Json::Bool(true)), branches)
    } else {
        types_split(types, i + 1, j, branches.push(Json::single("type"@, types[i as int])))
    }
}

/// The schema with its `oneOf` branches, and the failure. A single branch
/// collapses to its type.
pub open spec fn branches_attached(j: Json, branches: Seq<Json>, o: Settings) -> (
    Json,
    Option<Text>,
) {
    if branches.len() == 0 {
        (j.without("oneOf"@), None)
    } else if branches.len() < 2 {
        let j1 = match branches[0].member("type"@) {
            Some(ty) => j.with("type"@, ty),
            None => j,
        };
        if branches[0].members().len() > 1 {
            let (j2, e) = error::warned(j1, "Lost properties from oneOf"@, o);
            match e {
                Some(_) => (j2, e),
                None => (j2.without("oneOf"@), None),
            }
        } else {
            (j1.without("oneOf"@), None)
        }
    } else {
        (j.with("oneOf"@, Json::Array(branches)), None)
    }
}

/// A `type` array of one element collapses.
pub open spec fn type_collapsed(j: Json) -> Json {
    match j.member("type"@) {
        Some(Json::Array(t)) => if t.len() == 1 {
            j.with("type"@, t[0])
        } else {
            j
        },
        _ => j,
    }
}

/// The schema with its `type` array split over `oneOf`, and the failure.
pub open spec fn type_array_fixed(j: Json, o: Settings) -> (Json, Option<Text>) {
    match j.member("type"@) {
        Some(Json::Array(types)) => if types.len() == 0 {
            (j.without("type"@), None)
        } else {
            let old_branches = json::value_or(
                j.member("oneOf"@),
                Json::Null,
            ).elements();
            let (j1, branches) = types_split(types, 0, j, old_branches);
            let (j2, e) = branches_attached(j1.without("type"@), branches, o);
            match e {
                Some(_) => (j2, e),
                None => (type_collapsed(j2), None),
            }
        },
        _ => (j, None),
    }
}

/// The type `null` becomes `nullable`.
pub open spec fn null_type_fixed(j: Json) -> Json {
    if j.says("type"@, "null"@) {
        j.without("type"@).with("nullable"@, Json::Bool(true))
    } else {
        j
    }
}

/// An array without `items` gets an empty items schema.
pub open spec fn items_supplied(j: Json) -> Json {
    if j.says("type"@, "array"@) && !j.has("items"@) {
        j.with("items"@, Json::empty())
    } else {
        j
    }
}

/// The file type maps to a binary string.
pub open spec fn file_type_fixed(j: Json) -> Json {
    if j.says("type"@, "file"@) {
        j.with("type"@, Json::String("string"@)).with("format"@, Json::String("binary"@))
    } else {
        j
    }
}

/// The parent with `name` on its `required` list.
pub open spec fn name_required(parent: Option<Json>, name: Text) -> Option<Json> {
    match parent {
        Some(Json::Object(m)) => {
            let m1 = json::insert_new(m, "required"@, Json::Array(Seq::empty()));
            match json::lookup(m1, "required"@) {
                Some(Json::Array(a)) => Some(
                    Json::Object(
                        json::insert(m1, "required"@, Json::Array(a.push(Json::String(name)))),
                    ),
                ),
                _ => Some(Json::Object(m1)),
            }
        },
        _ => parent,
    }
}

/// A boolean `required` goes. When it was set, the schema's name goes onto the
/// parent's list.
pub open spec fn required_moved(j: Json, parent: Option<Json>) -> (Json, Option<Json>) {
    match j.member("required"@) {
        Some(Json::Bool(required)) => {
            let p = match j.text_member("name"@) {
                Some(name) => if required {
                    name_required(parent, name)
                } else {
                    parent
                },
                None => parent,
            };
            (j.without("required"@), p)
        },
        _ => (j, parent),
    }
}

/// An empty xml namespace string is dropped.
pub open spec fn namespace_dropped(j: Json) -> Json {
    let empty = match json::text_of(j.member2("xml"@, "namespace"@)) {
        Some(s) => s.len() == 0,
        None => false,
    };
    if empty {
        j.with("xml"@, json::value_or(j.member("xml"@), Json::Null).dropped("namespace"@))
    } else {
        j
    }
}

/// `allowEmptyValue` goes, as a patch.
pub open spec fn empty_value_dropped(j: Json, o: Settings) -> (Json, Settings) {
    if j.has("allowEmptyValue"@) {
        (j.without("allowEmptyValue"@), o.patched())
    } else {
        (j, o)
    }
}

/// The schema, the parent and the settings after the repairs that follow the
/// `type` array.
pub open spec fn rest_repaired(j: Json, parent: Option<Json>, o: Settings) -> (
    Json,
    Option<Json>,
    Settings,
) {
    let j1 = file_type_fixed(items_supplied(null_type_fixed(j)));
    let (j2, p2) = required_moved(j1, parent);
    let (j3, o3) = empty_value_dropped(namespace_dropped(j2), o);
    (j3, p2, o3)
}

/// The schema, the parent, the settings and the failure after the keyword
/// repair.
pub open spec fn keywords_repaired(j: Json, parent: Option<Json>, o: Settings) -> (
    Json,
    Option<Json>,
    Settings,
    Option<Text>,
) {
    let o1 = if common::is_truthy(j.member("nullable"@)) {
        o.patched()
    } else {
        o
    };
    let j1 = items_fixed(discriminator_wrapped(j));
    if j1.member("type"@) matches Some(Json::Array(_)) {
        if o.patch {
            let o2 = o1.patched();
            let (j2, e) = type_array_fixed(j1, o2);
            match e {
                Some(_) => (j2, parent, o2, e),
                None => {
                    let (j3, p3, o3) = rest_repaired(j2, parent, o2);
                    (j3, p3, o3, None)
                },
            }
        } else {
            (j1, parent, o1, Some("(Patchable) schema type must not be an array"@))
        }
    } else {
        let (j3, p3, o3) = rest_repaired(j1, parent, o1);
        (j3, p3, o3, None)
    }
}

/// A string discriminator becomes an object.
fn wrap_discriminator(schema: &mut JsonValue)
    ensures
        final(schema)@ == discriminator_wrapped(old(schema)@),
{
    let wrapped: Option<JsonValue> = match schema.get_str("discriminator") {
        Some(name) => Some(JsonValue::single("propertyName", JsonValue::text(name))),
        None => None,
    };
    if let Some(d) = wrapped {
        schema.put("discriminator", d);
    }
}

/// An `items` array collapses to a single schema or an `anyOf`.
fn fix_items(schema: &mut JsonValue)
    ensures
        final(schema)@ == items_fixed(old(schema)@),
{
    let replacement: Option<JsonValue> = match schema.get("items") {
        Some(v) => match v.as_array() {
            Some(a) => Some(
                if a.len() == 0 {
                    JsonValue::empty_object()
                } else if a.len() == 1 {
                    a[0].clone()
                } else {
                    JsonValue::single("anyOf", JsonValue::array(clone_values(a)))
                },
            ),
            None => None,
        },
        None => None,
    };
    if let Some(r) = replacement {
        schema.put("items", r);
    }
}

/// Convert a `type` array into a `oneOf`.
fn fix_type_array(schema: &mut JsonValue, options: &mut Options) -> (r: Result<(), S2OError>)
    ensures
        final(options)@ == old(options)@.patched(),
        (final(schema)@, error::failure(r)) == type_array_fixed(
            old(schema)@,
            old(options)@.patched(),
        ),
{
    options.add_patch();
    let types: Vec<JsonValue> = match schema.get("type") {
        Some(v) => match v.as_array() {
            Some(t) => clone_values(t),
            None => {
                return Ok(());
            },
        },
        None => {
            return Ok(());
        },
    };
    if types.len() == 0 {
        schema.cut("type");
        return Ok(());
    }
    let mut one_of: Vec<JsonValue> = match schema.get("oneOf") {
        Some(v) => into_elements(v.clone()),
        None => {
            let none: Vec<JsonValue> = Vec::new();
            assert(value::views(none@) =~= Seq::<Json>::empty());
            none
        },
    };
    let ghost ts = value::views(types@);
    let ghost j0 = schema@;
    let ghost b0 = value::views(one_of@);
    let mut i: usize = 0;
    while i < types.len()
        invariant
            i <= types@.len(),
            ts == value::views(types@),
            types_split(ts, 0, j0, b0) == types_split(
                ts,
                i as nat,
                schema@,
                value::views(one_of@),
            ),
        decreases types@.len() - i,
    {
        let is_null = match types[i].as_str() {
            Some(s) => *s == *"null",
            None => false,
        };
        if is_null {
            schema.put("nullable", JsonValue::Bool(true));
        } else {
            // Array properties such as items and minItems stay on the parent
            // schema. They are not copied onto each split oneOf branch.
            let ghost b1 = value::views(one_of@);
            let branch = JsonValue::single("type", types[i].clone());
            one_of.push(branch);
            assert(value::views(one_of@) =~= b1.push(Json::single("type"@, ts[i as int])));
        }
        i += 1;
    }
    schema.cut("type");
    attach_branches(schema, one_of, options)?;

    // A single-element type array collapses.
    let only: Option<JsonValue> = match schema.get("type") {
        Some(v) => match v.as_array() {
            Some(t) => if t.len() == 1 {
                Some(t[0].clone())
            } else {
                None
            },
            None => None,
        },
        None => None,
    };
    if let Some(ty) = only {
        schema.put("type", ty);
    }
    Ok(())
}

/// Attach the `oneOf` branches of a split `type`.
fn attach_branches(schema: &mut JsonValue, one_of: Vec<JsonValue>, options: &Options) -> (r: Result<
    (),
    S2OError,
>)
    ensures
        (final(schema)@, error::failure(r)) == branches_attached(
            old(schema)@,
            value::views(one_of@),
            options@,
        ),
{
    if one_of.len() == 0 {
        schema.cut("oneOf");
    } else if one_of.len() < 2 {
        let first = &one_of[0];
        if let Some(ty) = first.get("type") {
            schema.put("type", ty.clone());
        }
        let lossy = match first.as_object() {
            Some(m) => m.len() > 1,
            None => false,
        };
        if lossy {
            warn_or_error("Lost properties from oneOf", schema, options)?;
        }
        schema.cut("oneOf");
    } else {
        schema.put("oneOf", JsonValue::array(one_of));
    }
    Ok(())
}

/// Put `name` on the `required` list of a parent.
fn require_name(pmap: &mut Object, name: &str)
    ensures
        Some(Json::Object(final(pmap)@)) == name_required(Some(Json::Object(old(pmap)@)), name@),
{
    if !pmap.contains_key("required") {
        pmap.insert("required", JsonValue::empty_array());
    }
    let is_list = match pmap.get("required") {
        Some(v) => v.is_array(),
        None => false,
    };
    if is_list {
        if let Some(v) = pmap.get_mut("required") {
            if let Some(list) = v.as_array_mut() {
                let ghost a = value::views(list@);
                list.push(JsonValue::text(name));
                assert(value::views(list@) =~= a.push(Json::String(name@)));
            }
        }
    }
}

/// A boolean `required` moves the schema name onto the parent's required list.
fn move_required(schema: &mut JsonValue, parent: Option<&mut JsonValue>)
    ensures
        match parent {
            Some(p) => (final(schema)@, Some(final(p)@)) == required_moved(old(schema)@, Some(p@)),
            None => (final(schema)@, None::<Json>) == required_moved(old(schema)@, None),
        },
{
    let required: Option<bool> = match schema.get("required") {
        Some(v) => v.as_bool(),
        None => None,
    };
    if let Some(required) = required {
        if required {
            if let Some(name) = schema.get_str("name") {
                if let Some(p) = parent {
                    if let Some(pmap) = p.as_object_mut() {
                        require_name(pmap, name);
                    }
                }
            }
        }
        schema.cut("required");
    }
}

/// Repair JSON Schema keywords that differ between Swagger 2.0 and OpenAPI 3.0.
pub fn fix_up_sub_schema(
    schema: &mut JsonValue,
    parent: Option<&mut JsonValue>,
    options: &mut Options,
) -> (r: Result<(), S2OError>)
    ensures
        match parent {
            Some(p) => (final(schema)@, Some(final(p)@), final(options)@, error::failure(r))
                == keywords_repaired(old(schema)@, Some(p@), old(options)@),
            None => (final(schema)@, None::<Json>, final(options)@, error::failure(r))
                == keywords_repaired(old(schema)@, None, old(options)@),
        },
{
    if common::truthy(schema.get("nullable")) {
        options.add_patch();
    }
    wrap_discriminator(schema);
    fix_items(schema);

    // type as an array is only handled under patch.
    let type_array = match schema.get("type") {
        Some(v) => v.is_array(),
        None => false,
    };
    if type_array {
        if options.patch {
            fix_type_array(schema, options)?;
        } else {
            return Err(S2OError::new("(Patchable) schema type must not be an array"));
        }
    }

    // type "null" becomes nullable.
    if schema.says("type", "null") {
        schema.cut("type");
        schema.put("nullable", JsonValue::Bool(true));
    }

    // array without items gets an empty items schema.
    if schema.says("type", "array") && !schema.has("items") {
        schema.put("items", JsonValue::empty_object());
    }

    // file type maps to a binary string.
    if schema.says("type", "file") {
        schema.put("type", JsonValue::text("string"));
        schema.put("format", JsonValue::text("binary"));
    }

    move_required(schema, parent);

    // empty xml namespace string is dropped.
    let empty_namespace = match schema.get("xml") {
        Some(x) => match x.get_str("namespace") {
            Some(s) => s.is_empty(),
            None => false,
        },
        None => false,
    };
    if empty_namespace {
        if let Some(x) = schema.get_mut("xml") {
            if let Some(xml) = x.as_object_mut() {
                xml.remove("namespace");
            }
        }
    }

    // allowEmptyValue is not valid on a schema.
    if schema.has("allowEmptyValue") {
        options.add_patch();
        schema.cut("allowEmptyValue");
    }
    Ok(())
}

// --- the walk --------------------------------------------------------------

/// The schema repair at each subschema. After the first failure it does nothing.
pub struct Fixer {
    options: Options,
    error: Option<S2OError>,
}

/// The message of an optional error.
pub open spec fn error_text(e: Option<S2OError>) -> Option<Text> {
    match e {
        Some(e) => Some(e.message@),
        None => None,
    }
}

/// The settings and the failure, the schema and the parent after the repair of
/// one subschema.
pub open spec fn sub_schema_fixed(s: (Settings, Option<Text>), j: Json, parent: Option<Json>) -> (
    (Settings, Option<Text>),
    Json,
    Option<Json>,
) {
    match s.1 {
        Some(_) => (s, j, parent),
        None => {
            let (j1, p1, o1, e1) = keywords_repaired(extensions_promoted(j), parent, s.0);
            ((o1, e1), j1, p1)
        },
    }
}

impl SchemaVisitor for Fixer {
    type State = (Settings, Option<Text>);

    closed spec fn state(&self) -> (Settings, Option<Text>) {
        (self.options@, error_text(self.error))
    }

    open spec fn visited(s: (Settings, Option<Text>), schema: Json, parent: Option<Json>) -> (
        (Settings, Option<Text>),
        Json,
        Option<Json>,
    ) {
        sub_schema_fixed(s, schema, parent)
    }

    proof fn visit_is_bounded(s: (Settings, Option<Text>), schema: Json, parent: Option<Json>) {
        repair_is_bounded(s, schema, parent);
    }

    fn visit(&mut self, schema: &mut JsonValue, parent: Option<&mut JsonValue>) {
        if self.error.is_some() {
            return;
        }
        fix_up_sub_schema_extensions(schema, None);
        match fix_up_sub_schema(schema, parent, &mut self.options) {
            Ok(()) => {},
            Err(e) => {
                self.error = Some(e);
            },
        }
    }
}

/// The schema, the settings and the failure after the repair of a schema and
/// every subschema.
pub open spec fn schema_fixed(j: Json, o: Settings) -> (Json, Settings, Option<Text>) {
    let ((o1, e1), j1) = schema_walker::schema_walked::<Fixer>((o, None), j);
    (j1, o1, e1)
}

/// Repair `schema` and every subschema in place.
pub fn fix_up_schema(schema: &mut JsonValue, options: &mut Options) -> (r: Result<(), S2OError>)
    ensures
        (final(schema)@, final(options)@, error::failure(r)) == schema_fixed(
            old(schema)@,
            old(options)@,
        ),
{
    let mut fixer = Fixer { options: Options::default(), error: None };
    std::mem::swap(&mut fixer.options, options);
    walk_schema(schema, &mut fixer);
    std::mem::swap(&mut fixer.options, options);
    match fixer.error {
        Some(e) => Err(e),
        None => Ok(()),
    }
}

// --- a repair leaves only lower subschemas ---------------------------------

/// Whether a member of this name may become a subschema.
spec fn ranked(key: Text) -> bool {
    schema_walker::single_key(key) || schema_walker::plural_key(key) || key == "type"@ || key
        == "x-anyOf"@ || key == "x-oneOf"@ || key == "x-not"@
}

/// Whether the value of a member that may become a subschema ranks below `n`.
spec fn low(key: Text, v: Json, n: nat) -> bool {
    ranked(key) ==> schema_walker::member_rank(key, v, schema_walker::rank(v)) < n
}

/// Whether every member that may become a subschema ranks below `n`.
spec fn all_low(m: Members, n: nat) -> bool {
    forall|i: int| 0 <= i < m.len() ==> low((#[trigger] m[i]).0, m[i].1, n)
}

/// Whether every subschema ranks below `n`.
spec fn all_fit(m: Members, n: nat) -> bool {
    forall|i: int| 0 <= i < m.len() ==> schema_walker::fits((#[trigger] m[i]).0, m[i].1, n)
}

proof fn low_insert(m: Members, key: Text, v: Json, n: nat)
    requires
        all_low(m, n),
        low(key, v, n),
    ensures
        all_low(json::insert(m, key, v), n),
{
    laws::index_found(m, key, 0);
    let m2 = json::insert(m, key, v);
    assert forall|i: int| 0 <= i < m2.len() implies low((#[trigger] m2[i]).0, m2[i].1, n) by {
        if i < m.len() {
            assert(low(m[i].0, m[i].1, n));
        }
    }
}

proof fn low_remove(m: Members, key: Text, n: nat)
    requires
        all_low(m, n),
    ensures
        all_low(json::remove(m, key), n),
{
    laws::index_found(m, key, 0);
    let m2 = json::remove(m, key);
    assert forall|i: int| 0 <= i < m2.len() implies low((#[trigger] m2[i]).0, m2[i].1, n) by {
        if json::has_key(m, key) {
            assert(low(m[i].0, m[i].1, n));
            assert(low(m[m.len() - 1].0, m[m.len() - 1].1, n));
        }
    }
}

proof fn low_lookup(m: Members, key: Text, n: nat)
    requires
        all_low(m, n),
        json::has_key(m, key),
    ensures
        low(key, json::lookup(m, key)->0, n),
{
    laws::index_found(m, key, 0);
    let k = json::index_of(m, key);
    assert(low(m[k].0, m[k].1, n));
}

proof fn fit_insert(m: Members, key: Text, v: Json, n: nat)
    requires
        all_fit(m, n),
        schema_walker::fits(key, v, n),
    ensures
        all_fit(json::insert(m, key, v), n),
{
    laws::index_found(m, key, 0);
    let m2 = json::insert(m, key, v);
    assert forall|i: int| 0 <= i < m2.len() implies schema_walker::fits(
        (#[trigger] m2[i]).0,
        m2[i].1,
        n,
    ) by {
        if i < m.len() {
            assert(schema_walker::fits(m[i].0, m[i].1, n));
        }
    }
}

proof fn fit_remove(m: Members, key: Text, n: nat)
    requires
        all_fit(m, n),
    ensures
        all_fit(json::remove(m, key), n),
{
    laws::index_found(m, key, 0);
    let m2 = json::remove(m, key);
    assert forall|i: int| 0 <= i < m2.len() implies schema_walker::fits(
        (#[trigger] m2[i]).0,
        m2[i].1,
        n,
    ) by {
        if json::has_key(m, key) {
            assert(schema_walker::fits(m[i].0, m[i].1, n));
            assert(schema_walker::fits(m[m.len() - 1].0, m[m.len() - 1].1, n));
        }
    }
}

proof fn low_fits(m: Members, n: nat)
    requires
        all_low(m, n),
    ensures
        all_fit(m, n),
{
    assert forall|i: int| 0 <= i < m.len() implies schema_walker::fits(
        (#[trigger] m[i]).0,
        m[i].1,
        n,
    ) by {
        assert(low(m[i].0, m[i].1, n));
    }
}

/// The names that the repairs set and drop, next to those of subschemas.
proof fn names_differ()
    ensures
        !ranked("required"@),
        !ranked("x-required"@),
        !ranked("nullable"@),
        !ranked("x-nullable"@),
        !ranked("discriminator"@),
        !ranked("x-discriminator"@),
        !ranked("format"@),
        !ranked("xml"@),
        !ranked("allowEmptyValue"@),
        !schema_walker::single_key("type"@),
        !schema_walker::plural_key("type"@),
        "x-anyOf"@ != "items"@,
        "x-oneOf"@ != "items"@,
        "x-not"@ != "items"@,
        "anyOf"@ != "items"@,
        "oneOf"@ != "items"@,
        "not"@ != "items"@,
        "type"@ != "items"@,
        !schema_walker::single_key("oneOf"@),
        !schema_walker::plural_key("items"@),
{
    reveal_strlit("items");
    reveal_strlit("additionalItems");
    reveal_strlit("additionalProperties");
    reveal_strlit("properties");
    reveal_strlit("patternProperties");
    reveal_strlit("allOf");
    reveal_strlit("anyOf");
    reveal_strlit("oneOf");
    reveal_strlit("not");
    reveal_strlit("type");
    reveal_strlit("x-anyOf");
    reveal_strlit("x-oneOf");
    reveal_strlit("x-not");
    reveal_strlit("required");
    reveal_strlit("x-required");
    reveal_strlit("nullable");
    reveal_strlit("x-nullable");
    reveal_strlit("discriminator");
    reveal_strlit("x-discriminator");
    reveal_strlit("format");
    reveal_strlit("xml");
    reveal_strlit("allowEmptyValue");
    assert("items"@.len() == 5 && "not"@.len() == 3 && "properties"@.len() == 10);
    assert("allOf"@.len() == 5 && "anyOf"@.len() == 5 && "oneOf"@.len() == 5);
    assert("additionalItems"@.len() == 15 && "additionalProperties"@.len() == 20);
    assert("patternProperties"@.len() == 17 && "type"@.len() == 4);
    assert("x-anyOf"@.len() == 7 && "x-oneOf"@.len() == 7 && "x-not"@.len() == 5);
    assert("items"@[0] == 'i' && "allOf"@[1] == 'l' && "anyOf"@[1] == 'n' && "oneOf"@[0] == 'o');
    assert("required"@.len() == 8 && "nullable"@.len() == 8 && "discriminator"@.len() == 13);
    assert("x-required"@.len() == 10 && "x-required"@[0] == 'x' && "properties"@[0] == 'p');
    assert("x-nullable"@.len() == 10 && "x-nullable"@[0] == 'x');
    assert("x-discriminator"@.len() == 15 && "x-discriminator"@[0] == 'x');
    assert("additionalItems"@[0] == 'a' && "additionalItems"@[1] == 'd');
    assert("format"@.len() == 6 && "xml"@.len() == 3 && "xml"@[0] == 'x' && "not"@[0] == 'n');
    assert("allowEmptyValue"@.len() == 15 && "allowEmptyValue"@[1] == 'l');
    assert("x-not"@[0] == 'x');
}

/// The promotion of extensions leaves every member low.
proof fn promotion_is_low(m: Members, n: nat)
    requires
        all_low(m, n),
    ensures
        extensions_promoted(Json::Object(m)) is Object,
        all_low(extensions_promoted(Json::Object(m)).members(), n),
{
    names_differ();
    let m1 = required_merged(m);
    assert(all_low(m1, n)) by {
        if let Some(Json::Array(extra)) = json::lookup(m, "x-required"@) {
            let required = match json::lookup(m, "required"@) {
                Some(v) => v.elements(),
                None => Seq::empty(),
            };
            let a = json::remove(m, "required"@);
            let b = json::insert(a, "required"@, Json::Array(required + extra));
            low_remove(m, "required"@, n);
            low_insert(a, "required"@, Json::Array(required + extra), n);
            low_remove(b, "x-required"@, n);
        }
    }
    let m2 = renamed(m1, "x-anyOf"@, "anyOf"@);
    rename_is_low(m1, "x-anyOf"@, "anyOf"@, n);
    let m3 = renamed(m2, "x-oneOf"@, "oneOf"@);
    rename_is_low(m2, "x-oneOf"@, "oneOf"@, n);
    let m4 = renamed(m3, "x-not"@, "not"@);
    rename_is_low(m3, "x-not"@, "not"@, n);
    let m5 = nullable_promoted(m4);
    assert(all_low(m5, n)) by {
        if let Some(Json::Bool(b)) = json::lookup(m4, "x-nullable"@) {
            low_insert(m4, "nullable"@, Json::Bool(b), n);
            low_remove(json::insert(m4, "nullable"@, Json::Bool(b)), "x-nullable"@, n);
        }
    }
    if let Some(Json::Object(d)) = json::lookup(m5, "x-discriminator"@) {
        low_remove(m5, "x-discriminator"@, n);
        low_insert(
            json::remove(m5, "x-discriminator"@),
            "discriminator"@,
            Json::Object(discriminator_moved(d)),
            n,
        );
    }
}

proof fn rename_is_low(m: Members, from: Text, to: Text, n: nat)
    requires
        all_low(m, n),
        ranked(from),
        from != "items"@,
        to != "items"@,
    ensures
        all_low(renamed(m, from, to), n),
{
    if json::has_key(m, from) {
        low_lookup(m, from, n);
        low_remove(m, from, n);
        low_insert(json::remove(m, from), to, json::lookup(m, from)->0, n);
    }
}

/// What an `items` array collapses to ranks at most one above the array.
proof fn collapse_is_low(a: Seq<Json>, n: nat)
    requires
        schema_walker::rank(Json::Array(a)) + 1 < n,
    ensures
        low("items"@, items_collapsed(a), n),
{
    names_differ();
    let r = schema_walker::rank(Json::Array(a));
    if a.len() == 1 {
        schema_walker::elements_rank_bound(a, 0, schema_walker::elements_rank(a, 0));
        assert(schema_walker::rank(a[0]) < r);
    } else if a.len() > 1 {
        let m = seq![("anyOf"@, Json::Array(a))];
        schema_walker::members_rank_bound(m, 0, r);
    }
}

/// The repairs before the `type` array leave every member low.
proof fn items_are_low(m: Members, n: nat)
    requires
        all_low(m, n),
    ensures
        items_fixed(discriminator_wrapped(Json::Object(m))) is Object,
        all_low(items_fixed(discriminator_wrapped(Json::Object(m))).members(), n),
{
    names_differ();
    let j = Json::Object(m);
    let j1 = discriminator_wrapped(j);
    if let Some(name) = j.text_member("discriminator"@) {
        low_insert(m, "discriminator"@, Json::single("propertyName"@, Json::String(name)), n);
    }
    let m1 = j1.members();
    if let Some(Json::Array(a)) = j1.member("items"@) {
        low_lookup(m1, "items"@, n);
        collapse_is_low(a, n);
        low_insert(m1, "items"@, items_collapsed(a), n);
    }
}

/// Splitting the types leaves every member low and every branch below `n`.
proof fn split_is_low(types: Seq<Json>, i: nat, m: Members, branches: Seq<Json>, n: nat)
    requires
        all_low(m, n),
        schema_walker::rank(Json::Array(types)) < n,
        forall|k: int| 0 <= k < branches.len() ==> schema_walker::rank(#[trigger] branches[k]) < n,
    ensures
        types_split(types, i, Json::Object(m), branches).0 is Object,
        all_low(types_split(types, i, Json::Object(m), branches).0.members(), n),
        forall|k: int|
            0 <= k < types_split(types, i, Json::Object(m), branches).1.len()
                ==> schema_walker::rank(
                #[trigger] types_split(types, i, Json::Object(m), branches).1[k],
            ) < n,
    decreases types.len() - i,
{
    names_differ();
    if i < types.len() {
        let ty = types[i as int];
        if ty.text() == Some("null"@) {
            low_insert(m, "nullable"@, Json::Bool(true), n);
            split_is_low(
                types,
                i + 1,
                json::insert(m, "nullable"@, Json::Bool(true)),
                branches,
                n,
            );
        } else {
            let branch = Json::single("type"@, ty);
            schema_walker::elements_rank_bound(types, 0, schema_walker::elements_rank(types, 0));
            assert(schema_walker::rank(ty) < schema_walker::rank(Json::Array(types)));
            schema_walker::members_rank_bound(
                seq![("type"@, ty)],
                0,
                schema_walker::rank(ty),
            );
            assert(schema_walker::rank(branch) < n);
            split_is_low(types, i + 1, m, branches.push(branch), n);
        }
    }
}

/// The repair of a `type` array leaves every subschema fitting.
proof fn type_array_fits(m: Members, o: Settings, n: nat)
    requires
        all_low(m, n),
        n >= 2,
    ensures
        type_array_fixed(Json::Object(m), o).0 is Object,
        all_fit(type_array_fixed(Json::Object(m), o).0.members(), n),
{
    names_differ();
    low_fits(m, n);
    let j = Json::Object(m);
    if let Some(Json::Array(types)) = j.member("type"@) {
        fit_remove(m, "type"@, n);
        if types.len() > 0 {
            let old_branches = json::value_or(j.member("oneOf"@), Json::Null).elements();
            low_lookup(m, "type"@, n);
            if let Some(Json::Array(a)) = j.member("oneOf"@) {
                low_lookup(m, "oneOf"@, n);
                schema_walker::elements_rank_bound(a, 0, schema_walker::elements_rank(a, 0));
            }
            split_is_low(types, 0, m, old_branches, n);
            let (j1, branches) = types_split(types, 0, j, old_branches);
            let m1 = j1.members();
            low_fits(m1, n);
            fit_remove(m1, "type"@, n);
            branches_fit(json::remove(m1, "type"@), branches, o, n);
            let (j2, e) = branches_attached(j1.without("type"@), branches, o);
            if let Some(Json::Array(t)) = j2.member("type"@) {
                if t.len() == 1 {
                    fit_insert(j2.members(), "type"@, t[0], n);
                }
            }
        }
    }
}

/// Attaching the branches leaves every subschema fitting.
proof fn branches_fit(m: Members, branches: Seq<Json>, o: Settings, n: nat)
    requires
        all_fit(m, n),
        n >= 2,
        forall|k: int| 0 <= k < branches.len() ==> schema_walker::rank(#[trigger] branches[k]) < n,
    ensures
        branches_attached(Json::Object(m), branches, o).0 is Object,
        all_fit(branches_attached(Json::Object(m), branches, o).0.members(), n),
{
    names_differ();
    let j = Json::Object(m);
    fit_remove(m, "oneOf"@, n);
    if branches.len() == 1 {
        let m1 = match branches[0].member("type"@) {
            Some(ty) => json::insert(m, "type"@, ty),
            None => m,
        };
        if let Some(ty) = branches[0].member("type"@) {
            fit_insert(m, "type"@, ty, n);
        }
        fit_remove(m1, "oneOf"@, n);
        let w = Json::String("Lost properties from oneOf"@);
        fit_insert(m1, o.warning_key(), w, n);
        fit_remove(json::insert(m1, o.warning_key(), w), "oneOf"@, n);
    } else if branches.len() > 1 {
        schema_walker::elements_rank_bound(branches, 0, (n - 1) as nat);
        fit_insert(m, "oneOf"@, Json::Array(branches), n);
    }
}

/// The repairs after the `type` array leave every subschema fitting.
proof fn rest_fits(m: Members, parent: Option<Json>, o: Settings, n: nat)
    requires
        all_fit(m, n),
        n >= 2,
    ensures
        rest_repaired(Json::Object(m), parent, o).0 is Object,
        all_fit(rest_repaired(Json::Object(m), parent, o).0.members(), n),
        schema_walker::same_subschemas(parent, rest_repaired(Json::Object(m), parent, o).1),
{
    names_differ();
    let j = Json::Object(m);
    let j1 = null_type_fixed(j);
    fit_remove(m, "type"@, n);
    fit_insert(json::remove(m, "type"@), "nullable"@, Json::Bool(true), n);
    let j2 = items_supplied(j1);
    fit_insert(j1.members(), "items"@, Json::empty(), n);
    let j3 = file_type_fixed(j2);
    let s = Json::String("string"@);
    fit_insert(j2.members(), "type"@, s, n);
    fit_insert(json::insert(j2.members(), "type"@, s), "format"@, Json::String("binary"@), n);
    let (j4, p4) = required_moved(j3, parent);
    fit_remove(j3.members(), "required"@, n);
    if let Some(name) = j3.text_member("name"@) {
        parent_keeps_subschemas(parent, name);
    }
    let j5 = namespace_dropped(j4);
    let x = json::value_or(j4.member("xml"@), Json::Null).dropped("namespace"@);
    fit_insert(j4.members(), "xml"@, x, n);
    fit_remove(j5.members(), "allowEmptyValue"@, n);
}

/// A name on the `required` list leaves the subschemas of the parent alone.
proof fn parent_keeps_subschemas(parent: Option<Json>, name: Text)
    ensures
        schema_walker::same_subschemas(parent, name_required(parent, name)),
{
    names_differ();
    if let Some(Json::Object(m)) = parent {
        let e = Json::Array(Seq::empty());
        let m1 = json::insert_new(m, "required"@, e);
        let m2 = name_required(parent, name)->0.members();
        assert forall|key: Text|
            schema_walker::single_key(key) || schema_walker::plural_key(
                key,
            ) implies #[trigger] Json::Object(m).member(key) == Json::Object(m2).member(key) by {
            assert(key != "required"@);
            laws::lookup_insert_other(m, "required"@, e, key);
            if let Some(Json::Array(a)) = json::lookup(m1, "required"@) {
                laws::lookup_insert_other(
                    m1,
                    "required"@,
                    Json::Array(a.push(Json::String(name))),
                    key,
                );
            }
        }
    }
}

/// The repair of a subschema leaves only lower subschemas.
proof fn repair_is_bounded(s: (Settings, Option<Text>), schema: Json, parent: Option<Json>)
    ensures
        schema_walker::ranks_below(
            sub_schema_fixed(s, schema, parent).1,
            schema_walker::rank(schema),
        ),
        schema_walker::same_subschemas(parent, sub_schema_fixed(s, schema, parent).2),
{
    let n = schema_walker::rank(schema);
    match schema {
        Json::Object(m) => {
            schema_walker::members_rank_bound(m, 0, schema_walker::members_rank(m, 0));
            assert forall|i: int| 0 <= i < m.len() implies low(
                (#[trigger] m[i]).0,
                m[i].1,
                n,
            ) by {}
            low_fits(m, n);
            if m.len() > 0 && s.1 is None {
                assert(schema_walker::rank(m[0].1) >= 1);
                assert(n >= 2);
                promotion_is_low(m, n);
                let j1 = extensions_promoted(schema);
                items_are_low(j1.members(), n);
                let j2 = items_fixed(discriminator_wrapped(j1));
                let o1 = if common::is_truthy(j1.member("nullable"@)) {
                    s.0.patched()
                } else {
                    s.0
                };
                low_fits(j2.members(), n);
                type_array_fits(j2.members(), o1.patched(), n);
                let j3 = type_array_fixed(j2, o1.patched()).0;
                rest_fits(j3.members(), parent, o1.patched(), n);
                rest_fits(j2.members(), parent, o1, n);
            }
        },
        _ => {},
    }
}

} // verus!
