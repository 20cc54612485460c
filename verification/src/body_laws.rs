//! Laws of request bodies.

use vstd::prelude::*;

use crate::common::{self, PARAMETER_TYPE_PROPERTIES};
use crate::convert::body;
use crate::convert::operation;
use crate::convert::parameter;
use crate::fixup;
use crate::json::{self, Json, Members, Text};
use crate::laws;
use crate::options::Settings;
use crate::parameter_laws::{self, held_from, is_format_word, is_type_keyword, is_typed};
use crate::reference_laws::is_repaired_schema;
use crate::response_laws::{self, holds_text, lists_type, named_from};
use crate::text;
use crate::tolerance_laws;

verus! {

/// The words that these laws speak of differ.
proof fn body_words()
    ensures
        "in"@.len() == 2,
        "enum"@.len() == 4 && "enum"@[0] == 'e',
        "type"@.len() == 4 && "type"@[0] == 't',
        "name"@.len() == 4 && "name"@[0] == 'n',
        "$ref"@.len() == 4 && "$ref"@[0] == '$',
        "body"@.len() == 4 && "body"@[0] == 'b',
        "file"@.len() == 4 && "file"@[0] == 'f',
        "items"@.len() == 5 && "items"@[3] == 'm',
        "style"@.len() == 5 && "style"@[3] == 'l',
        "array"@.len() == 5 && "array"@[3] == 'a',
        "allOf"@.len() == 5 && "allOf"@[3] == 'O',
        "query"@.len() == 5 && "query"@[3] == 'r',
        "format"@.len() == 6 && "format"@[1] == 'o',
        "schema"@.len() == 6 && "schema"@[1] == 'c',
        "string"@.len() == 6 && "string"@[1] == 't',
        "binary"@.len() == 6 && "binary"@[1] == 'i',
        "object"@.len() == 6 && "object"@[1] == 'b',
        "minimum"@.len() == 7 && "minimum"@[0] == 'm' && "minimum"@[2] == 'n',
        "maximum"@.len() == 7 && "maximum"@[0] == 'm' && "maximum"@[2] == 'x',
        "pattern"@.len() == 7 && "pattern"@[0] == 'p' && "pattern"@[2] == 't',
        "default"@.len() == 7 && "default"@[0] == 'd' && "default"@[2] == 'f',
        "explode"@.len() == 7 && "explode"@[0] == 'e' && "explode"@[2] == 'p',
        "example"@.len() == 7 && "example"@[0] == 'e' && "example"@[2] == 'a',
        "content"@.len() == 7 && "content"@[0] == 'c' && "content"@[2] == 'n',
        "minItems"@.len() == 8 && "minItems"@[0] == 'm' && "minItems"@[1] == 'i',
        "maxItems"@.len() == 8 && "maxItems"@[0] == 'm' && "maxItems"@[1] == 'a',
        "required"@.len() == 8 && "required"@[0] == 'r' && "required"@[1] == 'e',
        "formData"@.len() == 8 && "formData"@[0] == 'f' && "formData"@[1] == 'o',
        "consumes"@.len() == 8 && "consumes"@[0] == 'c' && "consumes"@[1] == 'o',
        "minLength"@.len() == 9 && "minLength"@[1] == 'i',
        "maxLength"@.len() == 9 && "maxLength"@[1] == 'a',
        "x-example"@.len() == 9 && "x-example"@[1] == '-',
        "multipleOf"@.len() == 10 && "multipleOf"@[1] == 'u',
        "deprecated"@.len() == 10 && "deprecated"@[1] == 'e',
        "x-s2o-name"@.len() == 10 && "x-s2o-name"@[1] == '-',
        "properties"@.len() == 10 && "properties"@[1] == 'r',
        "parameters"@.len() == 10 && "parameters"@[1] == 'a',
        "uniqueItems"@.len() == 11 && "uniqueItems"@[0] == 'u',
        "description"@.len() == 11 && "description"@[0] == 'd',
        "requestBody"@.len() == 11 && "requestBody"@[0] == 'r',
        "x-deprecated"@.len() == 12 && "x-deprecated"@[2] == 'd',
        "x-s2o-delete"@.len() == 12 && "x-s2o-delete"@[2] == 's',
        "minProperties"@.len() == 13 && "minProperties"@[1] == 'i',
        "maxProperties"@.len() == 13 && "maxProperties"@[1] == 'a',
        "exclusiveMinimum"@.len() == 16 && "exclusiveMinimum"@[10] == 'i',
        "exclusiveMaximum"@.len() == 16 && "exclusiveMaximum"@[10] == 'a',
        "collectionFormat"@.len() == 16 && "collectionFormat"@[10] == 'F',
        "application/json"@.len() == 16 && "application/json"@[10] == 'n',
        "x-collectionFormat"@.len() == 18 && "x-collectionFormat"@[2] == 'c',
        "x-s2o-originalType"@.len() == 18 && "x-s2o-originalType"@[2] == 's',
        "multipart/form-data"@.len() == 19,
        "additionalProperties"@.len() == 20,
        "x-ms-skip-url-encoding"@.len() == 22,
        "application/octet-stream"@.len() == 24,
        "application/x-www-form-urlencoded"@.len() == 33,
{
    reveal_strlit("in");
    reveal_strlit("enum");
    reveal_strlit("type");
    reveal_strlit("name");
    reveal_strlit("$ref");
    reveal_strlit("body");
    reveal_strlit("file");
    reveal_strlit("items");
    reveal_strlit("style");
    reveal_strlit("array");
    reveal_strlit("allOf");
    reveal_strlit("query");
    reveal_strlit("format");
    reveal_strlit("schema");
    reveal_strlit("string");
    reveal_strlit("binary");
    reveal_strlit("object");
    reveal_strlit("minimum");
    reveal_strlit("maximum");
    reveal_strlit("pattern");
    reveal_strlit("default");
    reveal_strlit("explode");
    reveal_strlit("example");
    reveal_strlit("content");
    reveal_strlit("minItems");
    reveal_strlit("maxItems");
    reveal_strlit("required");
    reveal_strlit("formData");
    reveal_strlit("consumes");
    reveal_strlit("minLength");
    reveal_strlit("maxLength");
    reveal_strlit("x-example");
    reveal_strlit("multipleOf");
    reveal_strlit("deprecated");
    reveal_strlit("x-s2o-name");
    reveal_strlit("properties");
    reveal_strlit("parameters");
    reveal_strlit("uniqueItems");
    reveal_strlit("description");
    reveal_strlit("requestBody");
    reveal_strlit("x-deprecated");
    reveal_strlit("x-s2o-delete");
    reveal_strlit("minProperties");
    reveal_strlit("maxProperties");
    reveal_strlit("exclusiveMinimum");
    reveal_strlit("exclusiveMaximum");
    reveal_strlit("collectionFormat");
    reveal_strlit("application/json");
    reveal_strlit("x-collectionFormat");
    reveal_strlit("x-s2o-originalType");
    reveal_strlit("multipart/form-data");
    reveal_strlit("additionalProperties");
    reveal_strlit("x-ms-skip-url-encoding");
    reveal_strlit("application/octet-stream");
    reveal_strlit("application/x-www-form-urlencoded");
}

// --- copies ----------------------------------------------------------------

proof fn members_are_copied(tgt: Json, src: Json, keys: Seq<Text>, i: nat)
    ensures
        forall|key: Text| #[trigger]
            body::members_copied(tgt, src, keys, i).member(key) == (if held_from(keys, i, key)
                && src.has(key) {
                src.member(key)
            } else {
                tgt.member(key)
            }),
        json::distinct(tgt.members()) ==> json::distinct(
            body::members_copied(tgt, src, keys, i).members(),
        ),
        tgt is Object ==> body::members_copied(tgt, src, keys, i) is Object,
    decreases keys.len() - i,
{
    broadcast use laws::group_members;

    if i < keys.len() {
        let t1 = body::member_copied(tgt, src, keys[i as int]);
        members_are_copied(t1, src, keys, i + 1);
        assert forall|key: Text| #[trigger]
            body::members_copied(tgt, src, keys, i).member(key) == (if held_from(keys, i, key)
                && src.has(key) {
                src.member(key)
            } else {
                tgt.member(key)
            }) by {
            if held_from(keys, i, key) && key != keys[i as int] {
                let q = choose|q: int| i <= q < keys.len() && #[trigger] keys[q] == key;
                assert(i + 1 <= q);
            }
            assert(held_from(keys, i, keys[i as int]));
            assert(body::members_copied(t1, src, keys, i + 1).member(key) == (if held_from(
                keys,
                i + 1,
                key,
            ) && src.has(key) {
                src.member(key)
            } else {
                t1.member(key)
            }));
        }
    }
}

/// Whether a member is an extension of its user: `x-`, but not `x-s2o`.
pub open spec fn is_extension(key: Text) -> bool {
    text::starts(key, "x-"@) && !text::starts(key, "x-s2o"@)
}

proof fn extensions_are_copied_from(src: Members, i: nat, tgt: Members)
    requires
        json::distinct(src),
    ensures
        forall|key: Text| #[trigger]
            json::lookup(body::extensions_from(src, i, tgt), key) == (if is_extension(key)
                && named_from(src, i, key) {
                json::lookup(src, key)
            } else {
                json::lookup(tgt, key)
            }),
        json::distinct(tgt) ==> json::distinct(body::extensions_from(src, i, tgt)),
    decreases src.len() - i,
{
    if i < src.len() {
        let (k, v) = src[i as int];
        let t1 = if body::extension_key(k) {
            json::insert(tgt, k, v)
        } else {
            tgt
        };
        if json::distinct(tgt) {
            laws::insert_keeps_distinct(tgt, k, v);
        }
        extensions_are_copied_from(src, i + 1, t1);
        assert forall|key: Text| #[trigger]
            json::lookup(body::extensions_from(src, i, tgt), key) == (if is_extension(key)
                && named_from(src, i, key) {
                json::lookup(src, key)
            } else {
                json::lookup(tgt, key)
            }) by {
            response_laws::named_is_looked_up(src, i as int);
            laws::lookup_after_insert(tgt, k, v);
            if key != k {
                laws::lookup_insert_other(tgt, k, v, key);
            }
            assert(named_from(src, i, k));
            if named_from(src, i, key) && key != k {
                let q = choose|q: int| i <= q < src.len() && #[trigger] src[q].0 == key;
                assert(i + 1 <= q);
            }
            if named_from(src, i + 1, key) {
                let q = choose|q: int| i + 1 <= q < src.len() && #[trigger] src[q].0 == key;
                assert(src[q].0 == key);
            }
            assert(json::lookup(body::extensions_from(src, i + 1, t1), key) == (if is_extension(
                key,
            ) && named_from(src, i + 1, key) {
                json::lookup(src, key)
            } else {
                json::lookup(t1, key)
            }));
        }
    }
}

/// The extensions of an object go along, each with its value, and nothing else does.
pub proof fn extensions_go_along(src: Json, tgt: Json)
    requires
        src is Object,
        json::distinct(src.members()),
    ensures
        forall|key: Text| #[trigger]
            body::extensions_copied(src, tgt).member(key) == (if is_extension(key) && src.has(key) {
                src.member(key)
            } else {
                tgt.member(key)
            }),
        json::distinct(tgt.members()) ==> json::distinct(
            body::extensions_copied(src, tgt).members(),
        ),
{
    let m = src.members();
    extensions_are_copied_from(m, 0, tgt.members());
    assert forall|key: Text| #[trigger]
        body::extensions_copied(src, tgt).member(key) == (if is_extension(key) && src.has(key) {
            src.member(key)
        } else {
            tgt.member(key)
        }) by {
        response_laws::looked_up_is_named(m, key);
    }
}

// --- form fields -----------------------------------------------------------

/// Whether a parameter is a form field that is written out in place.
pub open spec fn is_form_field(param: Json) -> bool {
    &&& json::distinct(param.members())
    &&& param.text_member("$ref"@) is None
    &&& param.says("in"@, "formData"@)
    &&& param.text_member("name"@) is Some
    &&& param.text_member("type"@) is Some
    &&& !param.has("schema"@)
    &&& !param.has("x-s2o-originalType"@)
    &&& param.member("description"@) matches Some(v) ==> v is String
}

/// The members of a form field that its conversion changes.
pub open spec fn is_field_word(key: Text) -> bool {
    ||| is_format_word(key)
    ||| key == "x-deprecated"@ || key == "deprecated"@
    ||| key == "x-example"@ || key == "example"@
    ||| key == "x-s2o-originalType"@
}

/// The members that tell what a form field is.
pub open spec fn is_telling_word(key: Text) -> bool {
    ||| is_field_word(key)
    ||| is_type_keyword(key)
    ||| key == "in"@ || key == "name"@ || key == "type"@ || key == "schema"@ || key == "items"@
    ||| key == "description"@ || key == "required"@ || key == "allOf"@ || key == "x-s2o-delete"@
    ||| key == "x-ms-skip-url-encoding"@
}

proof fn field_is_real(param: Json, openapi: Json, o: Settings)
    requires
        is_form_field(param),
        !is_telling_word(o.warning_key()),
        parameter::real_processed(param, None, openapi, o).3 is None,
    ensures
        ({
            let (r, original, o1, e) = parameter::real_processed(param, None, openapi, o);
            &&& json::distinct(r.members())
            &&& (original == Some("file"@)) == param.says("type"@, "file"@)
            &&& original is Some ==> original == Some("file"@)
            &&& r.says("x-s2o-originalType"@, "file"@) == param.says("type"@, "file"@)
            &&& r.member("example"@) == (if param.has("x-example"@) {
                param.member("x-example"@)
            } else {
                param.member("example"@)
            })
            &&& forall|key: Text|
                !is_field_word(key) && key != o.warning_key() ==> #[trigger] r.member(key)
                    == param.member(key)
            &&& o1 == o || o1 == o.patched()
        }),
{
    broadcast use laws::group_members;

    body_words();
    parameter_laws::extensions_are_promoted(param);
    let j1 = parameter::param_extensions_promoted(param);
    assert(j1.member("type"@) == param.member("type"@));
    assert(j1.member("in"@) == param.member("in"@));
    assert(j1.member("description"@) == param.member("description"@));
    assert(j1.member("schema"@) is None);
    assert(parameter::type_supplied(j1, o) == (j1, o, None::<Text>));
    assert(parameter::member_resolved(j1, "type"@, openapi) == j1);
    let j3 = if j1.says("type"@, "file"@) {
        j1.with("x-s2o-originalType"@, Json::String("file"@))
    } else {
        j1
    };
    assert(j3.member("description"@) == param.member("description"@));
    assert(parameter::null_description_dropped(
        parameter::member_resolved(j3, "description"@, openapi),
    ) == j3);
    let (j4, o4, e4) = parameter::collection_format_converted(j3, o);
    assert(e4 is None);
    parameter_laws::format_failures(j3, o);
    if parameter_laws::format_of(j3) is Some {
        parameter_laws::formats_become_styles(j3, o);
    }
    assert(j4.member("in"@) == param.member("in"@));
    assert(j4.member("schema"@) is None);
    assert(parameter::type_converted(j4, o4) == (j4, o4, None::<Text>));
    assert(parameter::schema_converted(j3, o) == (j4, o4, None::<Text>));
    assert forall|key: Text| !is_field_word(key) && key != o.warning_key() implies #[trigger]
        j4.member(key) == param.member(key) by {
        assert(j3.member(key) == j1.member(key));
        assert(j1.member(key) == param.member(key));
    }
    assert(j4.member("example"@) == j3.member("example"@));
    assert(j4.member("x-s2o-originalType"@) == j3.member("x-s2o-originalType"@));
}

/// Whether a schema is the property that a form field becomes: its type and its type
/// keywords, a file a binary string, its description, its example, and its items where
/// it is an array.
pub open spec fn is_property_of(p: Json, param: Json) -> bool {
    let file = param.says("type"@, "file"@);
    &&& p.member("type"@) == (if file {
        Some(Json::String("string"@))
    } else {
        param.member("type"@)
    })
    &&& p.member("format"@) == (if file {
        Some(Json::String("binary"@))
    } else {
        param.member("format"@)
    })
    &&& forall|key: Text| is_type_keyword(key) && key != "format"@ ==> #[trigger] p.member(key)
        == param.member(key)
    &&& p.member("description"@) == param.member("description"@)
    &&& p.member("allOf"@) == param.member("allOf"@)
    &&& p.member("example"@) == (if param.has("x-example"@) {
        param.member("x-example"@)
    } else {
        param.member("example"@)
    })
    &&& p.member("items"@) == (match param.member("items"@) {
        Some(items) => if param.says("type"@, "array"@) {
            Some(items.dropped("collectionFormat"@))
        } else {
            None
        },
        None => None,
    })
    &&& !p.has("name"@) && !p.has("in"@) && !p.has("required"@) && !p.has("collectionFormat"@)
}

proof fn no_extensions()
    ensures
        !is_extension("type"@) && !is_extension("description"@) && !is_extension("allOf"@)
            && !is_extension("example"@) && !is_extension("items"@) && !is_extension("name"@)
            && !is_extension("in"@) && !is_extension("required"@) && !is_extension(
            "collectionFormat"@,
        ),
        forall|key: Text| is_type_keyword(key) ==> !#[trigger] is_extension(key),
{
    body_words();
    reveal_strlit("x-");
    reveal_strlit("type");
    reveal_strlit("description");
    reveal_strlit("allOf");
    reveal_strlit("example");
    reveal_strlit("items");
    reveal_strlit("name");
    reveal_strlit("in");
    reveal_strlit("required");
    reveal_strlit("collectionFormat");
    reveal_strlit("format");
    reveal_strlit("minimum");
    reveal_strlit("maximum");
    reveal_strlit("exclusiveMinimum");
    reveal_strlit("exclusiveMaximum");
    reveal_strlit("minLength");
    reveal_strlit("maxLength");
    reveal_strlit("multipleOf");
    reveal_strlit("minItems");
    reveal_strlit("maxItems");
    reveal_strlit("uniqueItems");
    reveal_strlit("minProperties");
    reveal_strlit("maxProperties");
    reveal_strlit("additionalProperties");
    reveal_strlit("pattern");
    reveal_strlit("enum");
    reveal_strlit("default");
    not_x("type"@);
    not_x("description"@);
    not_x("allOf"@);
    not_x("example"@);
    not_x("items"@);
    not_x("name"@);
    not_x("in"@);
    not_x("required"@);
    not_x("collectionFormat"@);
    not_x("format"@);
    not_x("minimum"@);
    not_x("maximum"@);
    not_x("exclusiveMinimum"@);
    not_x("exclusiveMaximum"@);
    not_x("minLength"@);
    not_x("maxLength"@);
    not_x("multipleOf"@);
    not_x("minItems"@);
    not_x("maxItems"@);
    not_x("uniqueItems"@);
    not_x("minProperties"@);
    not_x("maxProperties"@);
    not_x("additionalProperties"@);
    not_x("pattern"@);
    not_x("enum"@);
    not_x("default"@);
}

proof fn not_x(key: Text)
    requires
        key.len() > 0 ==> key[0] != 'x',
    ensures
        !is_extension(key),
{
    reveal_strlit("x-");
    if text::starts(key, "x-"@) {
        assert(key.subrange(0, 2)[0] == 'x');
    }
}

proof fn field_becomes_property(r: Json, param: Json, original: Option<Text>)
    requires
        r is Object,
        json::distinct(r.members()),
        is_form_field(param),
        (original == Some("file"@)) == param.says("type"@, "file"@),
        r.says("x-s2o-originalType"@, "file"@) == param.says("type"@, "file"@),
        r.member("example"@) == (if param.has("x-example"@) {
            param.member("x-example"@)
        } else {
            param.member("example"@)
        }),
        r.member("type"@) == param.member("type"@),
        r.member("items"@) == param.member("items"@),
        r.member("description"@) == param.member("description"@),
        r.member("allOf"@) == param.member("allOf"@),
        forall|key: Text| is_type_keyword(key) ==> #[trigger] r.member(key) == param.member(key),
    ensures
        is_property_of(body::form_property(r, original), param),
{
    broadcast use laws::group_members;

    body_words();
    no_extensions();
    let t1 = body::member_copied(Json::empty(), r, "description"@);
    let t2 = body::member_copied(t1, r, "example"@);
    let t3 = body::member_copied(t2, r, "type"@);
    let ws = common::words(PARAMETER_TYPE_PROPERTIES@);
    members_are_copied(t3, r, ws, 0);
    let t4 = body::members_copied(t3, r, ws, 0);
    let t5 = body::member_copied(t4, r, "default"@);
    let t6 = body::member_copied(t5, r, "allOf"@);
    let t7 = if r.says("type"@, "array"@) {
        match r.member("items"@) {
            Some(items) => t6.with("items"@, items.dropped("collectionFormat"@)),
            None => t6,
        }
    } else {
        t6
    };
    let t8 = if param.says("type"@, "file"@) {
        t7.with("type"@, Json::String("string"@)).with("format"@, Json::String("binary"@))
    } else {
        t7
    };
    let p = body::form_property(r, original);
    assert(p == body::extensions_copied(r, t8));
    extensions_go_along(r, t8);
    assert forall|key: Text| #[trigger] t4.member(key) == (if is_type_keyword(key) && r.has(key) {
        r.member(key)
    } else {
        t3.member(key)
    }) by {
        parameter_laws::type_keywords_are_listed(key);
    }
    assert forall|key: Text| is_type_keyword(key) && key != "format"@ implies #[trigger] p.member(
        key,
    ) == param.member(key) by {
        assert(!is_extension(key));
        assert(t4.member(key) == r.member(key));
        assert(t8.member(key) == r.member(key));
    }
    assert(t4.member("format"@) == r.member("format"@));
}

// --- forms -----------------------------------------------------------------

/// The media type of a form: multipart where that is listed.
pub open spec fn form_media(consumes: Seq<Text>) -> Text {
    if consumes.contains("multipart/form-data"@) {
        "multipart/form-data"@
    } else {
        "application/x-www-form-urlencoded"@
    }
}

/// The schema of the form that an operation takes.
pub open spec fn form_of(op: Json, ct: Text) -> Option<Json> {
    json::member_of(
        json::member_of(json::member_of(op.member("requestBody"@), "content"@), ct),
        "schema"@,
    )
}

/// Whether a value is the schema of a form.
pub open spec fn is_form(f: Option<Json>) -> bool {
    f matches Some(s) && s is Object && json::distinct(s.members()) && (s.member("properties"@)
        matches Some(Json::Object(_))) && (s.member("required"@) matches Some(v) ==> v is Array)
}

/// The property of a form for the field of a name.
pub open spec fn property_of(f: Option<Json>, name: Text) -> Option<Json> {
    json::member_of(json::member_of(f, "properties"@), name)
}

/// Whether a form requires the field of a name.
pub open spec fn requires_field(f: Option<Json>, name: Text) -> bool {
    json::member_of(f, "required"@) matches Some(v) && holds_text(v, name)
}

/// Whether a form field is required.
pub open spec fn is_required_field(param: Json) -> bool {
    param.member("required"@) == Some(Json::Bool(true))
}

proof fn holds_appended(a: Seq<Json>, b: Seq<Json>, t: Text)
    ensures
        holds_text(Json::Array(a + b), t) == (holds_text(Json::Array(a), t) || holds_text(
            Json::Array(b),
            t,
        )),
{
    if holds_text(Json::Array(a), t) {
        let k = choose|k: int| 0 <= k < a.len() && #[trigger] a[k] == Json::String(t);
        assert((a + b)[k] == Json::String(t));
    }
    if holds_text(Json::Array(b), t) {
        let k = choose|k: int| 0 <= k < b.len() && #[trigger] b[k] == Json::String(t);
        assert((a + b)[a.len() + k] == Json::String(t));
    }
    if holds_text(Json::Array(a + b), t) {
        let k = choose|k: int|
            0 <= k < (a + b).len() && #[trigger] (a + b)[k] == Json::String(t);
        if k < a.len() {
            assert(a[k] == Json::String(t));
        } else {
            assert(b[k - a.len()] == Json::String(t));
        }
    }
}

/// A merged form has the properties of both, and requires what either requires.
pub proof fn forms_are_merged(schema: Json, other: Json, name: Text, p: Json)
    requires
        is_form(Some(schema)),
        is_form(Some(other)),
        other.member("properties"@) == Some(Json::single(name, p)),
    ensures
        ({
            let f = body::form_merged(schema, Some(other));
            &&& is_form(Some(f))
            &&& forall|n: Text| #[trigger]
                property_of(Some(f), n) == (if n == name {
                    Some(p)
                } else {
                    property_of(Some(schema), n)
                })
            &&& forall|n: Text| #[trigger]
                requires_field(Some(f), n) == (requires_field(Some(schema), n) || requires_field(
                    Some(other),
                    n,
                ))
            &&& forall|key: Text| key != "properties"@ && key != "required"@ ==> #[trigger]
                f.member(key) == schema.member(key)
        }),
{
    broadcast use laws::group_members;

    body_words();
    let existing = schema.member("properties"@)->0.members();
    let incoming = other.member("properties"@)->0.members();
    assert(incoming == seq![(name, p)]);
    reveal_with_fuel(json::insert_all, 2);
    assert(json::insert_all(existing, incoming, 0) == json::insert(existing, name, p));
    let s1 = schema.with("properties"@, Json::Object(json::insert(existing, name, p)));
    let f = body::form_merged(schema, Some(other));
    let a = body::elements_of(schema.member("required"@));
    let b = body::elements_of(other.member("required"@));
    assert(s1.member("required"@) == schema.member("required"@));
    assert forall|n: Text| #[trigger] property_of(Some(f), n) == (if n == name {
        Some(p)
    } else {
        property_of(Some(schema), n)
    }) by {
        laws::lookup_after_insert(existing, name, p);
        if n != name {
            laws::lookup_insert_other(existing, name, p, n);
        }
        assert(f.member("properties"@) == s1.member("properties"@));
    }
    assert forall|n: Text| #[trigger] requires_field(Some(f), n) == (requires_field(
        Some(schema),
        n,
    ) || requires_field(Some(other), n)) by {
        holds_appended(a, b, n);
        assert(requires_field(Some(schema), n) == holds_text(Json::Array(a), n));
        assert(requires_field(Some(other), n) == holds_text(Json::Array(b), n));
    }
}

// --- operations ------------------------------------------------------------

proof fn rebuilt_from(m: Members, i: nat, acc: Members, rbname: Text)
    requires
        json::distinct(m),
    ensures
        ({
            let x = body::op_rebuilt_from(m, i, acc, rbname);
            &&& json::distinct(acc) ==> json::distinct(x)
            &&& forall|key: Text|
                key != "requestBody"@ && key != rbname ==> #[trigger] json::lookup(x, key) == (
                if named_from(m, i, key) {
                    json::lookup(m, key)
                } else {
                    json::lookup(acc, key)
                })
        }),
    decreases m.len() - i,
{
    if i < m.len() {
        let (k, v) = m[i as int];
        let a1 = json::insert(acc, k, v);
        let a = json::insert(a1, "requestBody"@, Json::empty());
        let a2 = if k == "parameters"@ {
            if rbname.len() > 0 {
                json::insert(a, rbname, Json::String(Seq::empty()))
            } else {
                a
            }
        } else {
            a1
        };
        rebuilt_from(m, i + 1, a2, rbname);
        if json::distinct(acc) {
            laws::insert_keeps_distinct(acc, k, v);
            laws::insert_keeps_distinct(a1, "requestBody"@, Json::empty());
            laws::insert_keeps_distinct(a, rbname, Json::String(Seq::empty()));
        }
        let x = body::op_rebuilt_from(m, i, acc, rbname);
        assert(x == body::op_rebuilt_from(m, i + 1, a2, rbname));
        assert forall|key: Text| key != "requestBody"@ && key != rbname implies #[trigger]
            json::lookup(x, key) == (if named_from(m, i, key) {
                json::lookup(m, key)
            } else {
                json::lookup(acc, key)
            }) by {
            laws::lookup_insert_other(a1, "requestBody"@, Json::empty(), key);
            laws::lookup_insert_other(a, rbname, Json::String(Seq::empty()), key);
            laws::lookup_after_insert(acc, k, v);
            if key != k {
                laws::lookup_insert_other(acc, k, v, key);
            }
            response_laws::named_is_looked_up(m, i as int);
            assert(named_from(m, i, k));
            if named_from(m, i, key) && key != k {
                let q = choose|q: int| i <= q < m.len() && #[trigger] m[q].0 == key;
                assert(i + 1 <= q);
            }
            if named_from(m, i + 1, key) {
                let q = choose|q: int| i + 1 <= q < m.len() && #[trigger] m[q].0 == key;
                assert(m[q].0 == key);
            }
        }
    }
}

/// An operation with room for a request body has an empty one, and keeps its other
/// members.
pub proof fn rebuilt_operation(op: Json, rbname: Text)
    requires
        json::distinct(op.members()),
    ensures
        ({
            let x = body::op_rebuilt(op, rbname);
            &&& json::distinct(x.members())
            &&& x.member("requestBody"@) == Some(Json::empty())
            &&& forall|key: Text|
                key != "requestBody"@ && key != rbname ==> #[trigger] x.member(key) == op.member(
                    key,
                )
        }),
{
    broadcast use laws::group_members;

    let m = op.members();
    rebuilt_from(m, 0, Seq::empty(), rbname);
    let y = Json::Object(body::op_rebuilt_from(m, 0, Seq::empty(), rbname));
    let x = body::op_rebuilt(op, rbname);
    assert(x == y.with("requestBody"@, Json::empty()));
    assert forall|key: Text| key != "requestBody"@ && key != rbname implies #[trigger] x.member(key)
        == op.member(key) by {
        response_laws::looked_up_is_named(m, key);
        assert(y.member(key) == json::lookup(y.members(), key));
    }
}

/// What an object holds after all members of another have been set.
pub proof fn all_are_inserted(m: Members, extra: Members, i: nat)
    requires
        json::distinct(extra),
    ensures
        json::distinct(m) ==> json::distinct(json::insert_all(m, extra, i as int)),
        forall|key: Text| #[trigger]
            json::lookup(json::insert_all(m, extra, i as int), key) == (if named_from(
                extra,
                i,
                key,
            ) {
                json::lookup(extra, key)
            } else {
                json::lookup(m, key)
            }),
    decreases extra.len() - i,
{
    if i < extra.len() {
        let (k, v) = extra[i as int];
        let m1 = json::insert(m, k, v);
        if json::distinct(m) {
            laws::insert_keeps_distinct(m, k, v);
        }
        all_are_inserted(m1, extra, i + 1);
        assert forall|key: Text| #[trigger]
            json::lookup(json::insert_all(m, extra, i as int), key) == (if named_from(
                extra,
                i,
                key,
            ) {
                json::lookup(extra, key)
            } else {
                json::lookup(m, key)
            }) by {
            laws::lookup_after_insert(m, k, v);
            if key != k {
                laws::lookup_insert_other(m, k, v, key);
            }
            response_laws::named_is_looked_up(extra, i as int);
            assert(named_from(extra, i, k));
            if named_from(extra, i, key) && key != k {
                let q = choose|q: int| i <= q < extra.len() && #[trigger] extra[q].0 == key;
                assert(i + 1 <= q);
            }
            if named_from(extra, i + 1, key) {
                let q = choose|q: int| i + 1 <= q < extra.len() && #[trigger] extra[q].0 == key;
                assert(extra[q].0 == key);
            }
        }
    }
}

// --- request bodies of form fields -----------------------------------------

/// The members of a request body that a single form field makes.
proof fn single_form(r: Json, consumes: Seq<Text>, original: Option<Text>)
    requires
        !r.has("schema"@),
        r.text_member("name"@) is Some,
    ensures
        ({
            let x = body::form_body(r, consumes, original, Json::empty());
            let ct = form_media(consumes);
            let name = r.text_member("name"@)->0;
            let f = body::content_schema(Some(x), ct);
            &&& json::distinct(x.members()) && x.members().len() > 0
            &&& x.member("content"@) == Some(Json::single(ct, Json::single("schema"@, f->0)))
            &&& !x.has("x-s2o-name"@)
            &&& is_form(f)
            &&& f->0.member("type"@) == Some(Json::String("object"@))
            &&& f->0.member("properties"@) == Some(
                Json::single(name, body::form_property(r, original)),
            )
            &&& forall|n: Text| #[trigger]
                requires_field(f, n) == (n == name && is_required_field(r))
            &&& x.member("required"@) == (if is_required_field(r) {
                Some(Json::Bool(true))
            } else {
                None
            })
        }),
{
    broadcast use laws::group_members;

    body_words();
    let x = body::form_body(r, consumes, original, Json::empty());
    let name = r.text_member("name"@)->0;
    let f = body::form_schema(r, original);
    let ct = form_media(consumes);
    assert(x.member("content"@) == Some(Json::single(ct, Json::single("schema"@, f))));
    assert(json::distinct(Json::empty().members()));
    assert(json::distinct(f.members()));
    let one = seq![Json::String(name)];
    assert(one[0] == Json::String(name));
    assert forall|n: Text| #[trigger] requires_field(Some(f), n) == (n == name
        && is_required_field(r)) by {
        if is_required_field(r) {
            assert(f.member("required"@) == Some(Json::Array(one)));
            if n == name {
                assert(holds_text(Json::Array(one), n));
            }
        } else {
            assert(f.member("required"@) is None);
        }
    }
}

/// What stays of an operation when a request body is attached.
pub open spec fn op_stays(op: Json, x: Json, o: Settings) -> bool {
    &&& x is Object && json::distinct(x.members())
    &&& forall|key: Text|
        key != "requestBody"@ && key != o.rbname ==> #[trigger] x.member(key) == op.member(key)
    &&& op.has("requestBody"@) ==> forall|key: Text| key != "requestBody"@ ==> #[trigger]
        x.member(key) == op.member(key)
}

proof fn first_body_is_attached(
    op: Json,
    result: Json,
    singular: bool,
    index: Text,
    o: Settings,
    ct: Text,
)
    requires
        json::distinct(op.members()),
        !op.has("requestBody"@),
        json::distinct(result.members()),
        result.members().len() > 0,
        result.member("content"@) is Some,
        result is Object,
    ensures
        ({
            let (x, e) = body::result_attached(op, result, singular, index, o);
            &&& e is None
            &&& op_stays(op, x, o)
            &&& form_of(x, ct) == body::content_schema(Some(result), ct)
            &&& x.has("requestBody"@)
            &&& x.member2("requestBody"@, "content"@) == result.member("content"@)
            &&& forall|key: Text|
                result.has(key) || key != "x-s2o-name"@ ==> #[trigger] x.member2(
                    "requestBody"@,
                    key,
                ) == result.member(key)
        }),
{
    broadcast use laws::group_members;

    body_words();
    rebuilt_operation(op, o.rbname);
    let op1 = body::op_rebuilt(op, o.rbname);
    let m = result.members();
    all_are_inserted(Seq::empty(), m, 0);
    assert(op1.member("requestBody"@) == Some(Json::empty()));
    assert(json::member_of(op1.member("requestBody"@), "content"@) is None);
    let b1 = Json::Object(json::insert_all(Seq::empty(), m, 0));
    let b = body::body_assigned(op1, result);
    let x = op1.with("requestBody"@, b);
    assert(body::result_attached(op, result, singular, index, o) == (x, None::<Text>));
    assert forall|key: Text| result.has(key) || key != "x-s2o-name"@ implies #[trigger] x.member2(
        "requestBody"@,
        key,
    ) == result.member(key) by {
        response_laws::looked_up_is_named(m, key);
        assert(b1.member(key) == result.member(key));
        assert(key == "x-s2o-name"@ ==> b == b1);
    }
}

proof fn next_form_is_merged(op: Json, result: Json, index: Text, o: Settings, ct: Text)
    requires
        op is Object,
        json::distinct(op.members()),
        is_form(form_of(op, ct)),
        ct == "multipart/form-data"@ || ct == "application/x-www-form-urlencoded"@,
        result.member("content"@) == Some(
            Json::single(
                ct,
                Json::single("schema"@, body::content_schema(Some(result), ct)->0),
            ),
        ),
        is_form(body::content_schema(Some(result), ct)),
    ensures
        ({
            let (x, e) = body::result_attached(op, result, false, index, o);
            &&& e is None
            &&& op_stays(op, x, o)
            &&& form_of(x, ct) == Some(
                body::form_merged(form_of(op, ct)->0, body::content_schema(Some(result), ct)),
            )
        }),
{
    broadcast use laws::group_members;

    body_words();
    assert(op.has("requestBody"@));
    assert(ct == "application/x-www-form-urlencoded"@ ==> body::content_schema(
        Some(result),
        "multipart/form-data"@,
    ) is None);
    let x = body::op_form_merged(op, result, ct);
    assert(body::result_attached(op, result, false, index, o) == (x, None::<Text>));
}

/// The conversion of a form field attaches the form that it makes to its operation.
#[verifier::rlimit(40)]
proof fn field_is_attached(
    param: Json,
    op: Json,
    index: Text,
    openapi: Json,
    consumes: Seq<Text>,
    o: Settings,
)
    requires
        is_form_field(param),
        json::text_of(op.member("consumes"@)) is None,
        !is_telling_word(o.warning_key()),
        parameter::param_processed(param, Some(op), index, openapi, consumes, o).3 is None,
    ensures
        ({
            let (j, original, o1, e1) = parameter::real_processed(param, None, openapi, o);
            let result = body::form_body(j, consumes, original, Json::empty());
            let (r, x, o2, e2) = parameter::param_processed(
                param,
                Some(op),
                index,
                openapi,
                consumes,
                o,
            );
            &&& e1 is None
            &&& x == Some(body::result_attached(op, result, false, index, o1).0)
            &&& r.member("x-s2o-delete"@) == Some(Json::Bool(true))
        }),
{
    broadcast use laws::group_members;

    reveal(parameter::param_processed);
    body_words();
    let (j, original, o1, e1) = parameter::real_processed(param, None, openapi, o);
    assert(parameter::internal_ref_followed(param, openapi, o) == (param, None::<Text>));
    assert(parameter::is_real(param));
    assert(e1 is None);
    field_is_real(param, openapi, o);
    assert(j.member("in"@) == param.member("in"@));
    assert(j.member("schema"@) is None);
    assert(j.member("name"@) == param.member("name"@));
    single_form(j, consumes, original);
    let result = body::form_body(j, consumes, original, Json::empty());
    field_is_finished(j, op, index, consumes, original, o1, result);
}

proof fn field_is_finished(
    j: Json,
    op: Json,
    index: Text,
    consumes: Seq<Text>,
    original: Option<Text>,
    o: Settings,
    result: Json,
)
    requires
        j.says("in"@, "formData"@),
        result == body::form_body(j, consumes, original, Json::empty()),
        result.members().len() > 0,
    ensures
        ({
            let (x, e) = body::result_attached(op, result, false, index, o);
            let marked = j.with("x-s2o-delete"@, Json::Bool(true));
            parameter::param_finished(j, Some(op), index, consumes, original, o) == (
                marked,
                Some(x),
                o,
                e,
            )
        }),
{
    broadcast use laws::group_members;

    body_words();
    assert(parameter::param_body(j, Some(op), consumes, original, o) == (
        Some(op),
        result,
        o,
        None::<Text>,
    ));
}

/// A form field becomes a property of the form that its operation takes, under its
/// name and with its type. The form requires it exactly when the field says so, and
/// keeps what it has and requires already. An operation without a request body gets
/// one, with the form as its only content: multipart where that is listed, and URL
/// encoded otherwise. The field itself is marked to go, and the rest of the operation
/// stays.
pub proof fn form_field_joins_form(
    param: Json,
    op: Json,
    index: Text,
    openapi: Json,
    consumes: Seq<Text>,
    o: Settings,
)
    requires
        is_form_field(param),
        op is Object,
        json::distinct(op.members()),
        json::text_of(op.member("consumes"@)) is None,
        !op.has("requestBody"@) || is_form(form_of(op, form_media(consumes))),
        !is_telling_word(o.warning_key()),
        parameter::param_processed(param, Some(op), index, openapi, consumes, o).3 is None,
    ensures
        ({
            let (r, x, o1, e) = parameter::param_processed(
                param,
                Some(op),
                index,
                openapi,
                consumes,
                o,
            );
            let ct = form_media(consumes);
            let name = param.text_member("name"@)->0;
            let before = form_of(op, ct);
            let after = form_of(x->0, ct);
            &&& x is Some && op_stays(op, x->0, o)
            &&& is_form(after)
            &&& property_of(after, name) matches Some(p) && is_property_of(p, param)
            &&& forall|n: Text| n != name ==> #[trigger] property_of(after, n) == property_of(
                before,
                n,
            )
            &&& forall|n: Text| #[trigger]
                requires_field(after, n) == (requires_field(before, n) || (n == name
                    && is_required_field(param)))
            &&& !op.has("requestBody"@) ==> x->0.member2("requestBody"@, "content"@) == Some(
                Json::single(ct, Json::single("schema"@, after->0)),
            ) && after->0.member("type"@) == Some(Json::String("object"@))
            &&& op.has("requestBody"@) ==> after->0.member("type"@) == before->0.member("type"@)
            &&& r.member("x-s2o-delete"@) == Some(Json::Bool(true))
        }),
{
    body_words();
    field_is_attached(param, op, index, openapi, consumes, o);
    field_is_real(param, openapi, o);
    let (j, original, o1, e1) = parameter::real_processed(param, None, openapi, o);
    let result = body::form_body(j, consumes, original, Json::empty());
    let ct = form_media(consumes);
    let name = param.text_member("name"@)->0;
    assert(j.member("name"@) == param.member("name"@));
    assert(j.member("required"@) == param.member("required"@));
    assert(j.member("schema"@) is None);
    single_form(j, consumes, original);
    let f = body::content_schema(Some(result), ct);
    let p = body::form_property(j, original);
    assert(j.member("items"@) == param.member("items"@));
    assert(j.member("allOf"@) == param.member("allOf"@));
    assert(j.member("type"@) == param.member("type"@));
    field_becomes_property(j, param, original);
    laws::member_of_single(name, p, name);
    if op.has("requestBody"@) {
        next_form_is_merged(op, result, index, o1, ct);
        forms_are_merged(form_of(op, ct)->0, f->0, name, p);
    } else {
        first_body_is_attached(op, result, false, index, o1, ct);
        assert(form_of(op, ct) is None);
        assert forall|n: Text| n != name implies #[trigger] property_of(f, n) == property_of(
            form_of(op, ct),
            n,
        ) by {
            laws::member_of_single(name, p, n);
        }
    }
}

// --- forms of operations ---------------------------------------------------

/// Whether a field of this name is among the first `i` parameters.
pub open spec fn field_among(ps: Seq<Json>, i: nat, name: Text) -> bool {
    exists|k: int|
        0 <= k < i && k < ps.len() && is_form_field(#[trigger] ps[k]) && ps[k].text_member(
            "name"@,
        ) == Some(name)
}

/// Whether a required field of this name is among the first `i` parameters.
pub open spec fn required_among(ps: Seq<Json>, i: nat, name: Text) -> bool {
    exists|k: int|
        0 <= k < i && k < ps.len() && is_form_field(#[trigger] ps[k]) && ps[k].text_member(
            "name"@,
        ) == Some(name) && is_required_field(ps[k])
}

/// Whether a property is made of a field of this name among the first `i` parameters.
pub open spec fn made_of_field(p: Json, ps: Seq<Json>, i: nat, name: Text) -> bool {
    exists|k: int|
        0 <= k < i && k < ps.len() && is_form_field(#[trigger] ps[k]) && ps[k].text_member(
            "name"@,
        ) == Some(name) && is_property_of(p, ps[k])
}

/// Whether an operation takes the form that the first `i` of its parameters make.
pub open spec fn takes_form(op: Json, ct: Text, ps: Seq<Json>, i: nat) -> bool {
    let f = form_of(op, ct);
    &&& op.has("requestBody"@) == exists|k: int|
        0 <= k < i && k < ps.len() && is_form_field(#[trigger] ps[k])
    &&& op.has("requestBody"@) ==> is_form(f)
    &&& forall|n: Text| (#[trigger] property_of(f, n)) is Some == field_among(ps, i, n)
    &&& forall|n: Text| (#[trigger] property_of(f, n)) is Some ==> made_of_field(
        property_of(f, n)->0,
        ps,
        i,
        n,
    )
    &&& forall|n: Text| #[trigger] requires_field(f, n) == required_among(ps, i, n)
}

/// Whether an operation at position `i` of its conversion still has the parameters
/// from there on.
spec fn keeps_params(op: Json, ps: Seq<Json>, i: nat) -> bool {
    op.member("parameters"@) matches Some(Json::Array(a)) && a.len() == ps.len() && forall|k: int|
        i <= k < ps.len() ==> #[trigger] a[k] == ps[k]
}

spec fn has_no_form_words(o: Settings) -> bool {
    &&& !is_telling_word(o.warning_key())
    &&& !parameter_laws::is_converted_word(o.warning_key())
    &&& o.rbname != "parameters"@ && o.rbname != "consumes"@
}

proof fn another_field(ps: Seq<Json>, i: nat, f: Option<Json>, g: Option<Json>)
    requires
        i < ps.len(),
        is_form_field(ps[i as int]),
        forall|n: Text| (#[trigger] property_of(f, n)) is Some == field_among(ps, i, n),
        forall|n: Text| (#[trigger] property_of(f, n)) is Some ==> made_of_field(
            property_of(f, n)->0,
            ps,
            i,
            n,
        ),
        forall|n: Text| #[trigger] requires_field(f, n) == required_among(ps, i, n),
        ({
            let name = ps[i as int].text_member("name"@)->0;
            &&& property_of(g, name) matches Some(p) && is_property_of(p, ps[i as int])
            &&& forall|n: Text| n != name ==> #[trigger] property_of(g, n) == property_of(f, n)
            &&& forall|n: Text| #[trigger]
                requires_field(g, n) == (requires_field(f, n) || (n == name && is_required_field(
                    ps[i as int],
                )))
        }),
    ensures
        forall|n: Text| (#[trigger] property_of(g, n)) is Some == field_among(ps, i + 1, n),
        forall|n: Text| (#[trigger] property_of(g, n)) is Some ==> made_of_field(
            property_of(g, n)->0,
            ps,
            i + 1,
            n,
        ),
        forall|n: Text| #[trigger] requires_field(g, n) == required_among(ps, i + 1, n),
{
    let param = ps[i as int];
    let name = param.text_member("name"@)->0;
    assert forall|n: Text| (#[trigger] property_of(g, n)) is Some == field_among(ps, i + 1, n) by {
        if n == name {
            assert(is_form_field(ps[i as int]));
        } else {
            assert(property_of(g, n) == property_of(f, n));
            if field_among(ps, i, n) {
                let k = choose|k: int|
                    0 <= k < i && k < ps.len() && is_form_field(#[trigger] ps[k])
                        && ps[k].text_member("name"@) == Some(n);
                assert(k < i + 1 && is_form_field(ps[k]));
            }
        }
    }
    assert forall|n: Text| (#[trigger] property_of(g, n)) is Some implies made_of_field(
        property_of(g, n)->0,
        ps,
        i + 1,
        n,
    ) by {
        if n == name {
            assert(is_form_field(ps[i as int]));
        } else {
            assert(property_of(g, n) == property_of(f, n));
            assert(made_of_field(property_of(f, n)->0, ps, i, n));
            let k = choose|k: int|
                0 <= k < i && k < ps.len() && is_form_field(#[trigger] ps[k]) && ps[k].text_member(
                    "name"@,
                ) == Some(n) && is_property_of(property_of(f, n)->0, ps[k]);
            assert(k < i + 1 && is_form_field(ps[k]));
        }
    }
    assert forall|n: Text| #[trigger] requires_field(g, n) == required_among(ps, i + 1, n) by {
        assert(requires_field(f, n) == required_among(ps, i, n));
        if required_among(ps, i, n) {
            let k = choose|k: int|
                0 <= k < i && k < ps.len() && is_form_field(#[trigger] ps[k]) && ps[k].text_member(
                    "name"@,
                ) == Some(n) && is_required_field(ps[k]);
            assert(k < i + 1 && is_form_field(ps[k]));
        }
        if n == name && is_required_field(param) {
            assert(is_form_field(ps[i as int]));
        }
    }
}

proof fn no_other_field(ps: Seq<Json>, i: nat, f: Option<Json>)
    requires
        i < ps.len(),
        !is_form_field(ps[i as int]),
    ensures
        forall|n: Text| #[trigger] field_among(ps, i + 1, n) == field_among(ps, i, n),
        forall|n: Text| #[trigger] required_among(ps, i + 1, n) == required_among(ps, i, n),
        forall|p: Json, n: Text| #[trigger]
            made_of_field(p, ps, i, n) ==> made_of_field(p, ps, i + 1, n),
{
    assert forall|n: Text| #[trigger] field_among(ps, i + 1, n) == field_among(ps, i, n) by {
        if field_among(ps, i, n) {
            let k = choose|k: int|
                0 <= k < i && k < ps.len() && is_form_field(#[trigger] ps[k]) && ps[k].text_member(
                    "name"@,
                ) == Some(n);
            assert(k < i + 1 && is_form_field(ps[k]));
        }
        if field_among(ps, i + 1, n) {
            let k = choose|k: int|
                0 <= k < i + 1 && k < ps.len() && is_form_field(#[trigger] ps[k])
                    && ps[k].text_member("name"@) == Some(n);
            assert(k != i);
            assert(k < i && is_form_field(ps[k]));
        }
    }
    assert forall|n: Text| #[trigger] required_among(ps, i + 1, n) == required_among(ps, i, n) by {
        if required_among(ps, i, n) {
            let k = choose|k: int|
                0 <= k < i && k < ps.len() && is_form_field(#[trigger] ps[k]) && ps[k].text_member(
                    "name"@,
                ) == Some(n) && is_required_field(ps[k]);
            assert(k < i + 1 && is_form_field(ps[k]));
        }
        if required_among(ps, i + 1, n) {
            let k = choose|k: int|
                0 <= k < i + 1 && k < ps.len() && is_form_field(#[trigger] ps[k])
                    && ps[k].text_member("name"@) == Some(n) && is_required_field(ps[k]);
            assert(k != i);
            assert(k < i && is_form_field(ps[k]));
        }
    }
    assert forall|p: Json, n: Text| #[trigger] made_of_field(p, ps, i, n) implies made_of_field(
        p,
        ps,
        i + 1,
        n,
    ) by {
        let k = choose|k: int|
            0 <= k < i && k < ps.len() && is_form_field(#[trigger] ps[k]) && ps[k].text_member(
                "name"@,
            ) == Some(n) && is_property_of(p, ps[k]);
        assert(k < i + 1 && is_form_field(ps[k]));
    }
}

/// One parameter of an operation after another makes its form.
proof fn params_make_form(
    path: Json,
    ps: Seq<Json>,
    i: nat,
    index: Text,
    method: Text,
    openapi: Json,
    o: Settings,
    types: Seq<Text>,
)
    requires
        i <= ps.len(),
        forall|k: int| 0 <= k < ps.len() ==> is_form_field(#[trigger] ps[k]) || is_typed(ps[k]),
        has_no_form_words(o),
        path.member(method) matches Some(op) && op is Object && json::distinct(op.members())
            && json::text_of(op.member("consumes"@)) is None && keeps_params(op, ps, i)
            && takes_form(op, form_media(types), ps, i),
        types == body::media_types(path.member(method), openapi, "consumes"@),
        operation::op_params_processed(path, i, ps.len(), index, method, openapi, o).2 is None,
    ensures
        ({
            let x = operation::op_params_processed(
                path,
                i,
                ps.len(),
                index,
                method,
                openapi,
                o,
            ).0.member(method);
            &&& x is Some
            &&& takes_form(x->0, form_media(types), ps, ps.len())
        }),
    decreases ps.len() - i,
{
    broadcast use laws::group_members;

    body_words();
    if i < ps.len() {
        let op = path.member(method)->0;
        let param = ps[i as int];
        let ct = form_media(types);
        let a = op.member("parameters"@)->0.elements();
        assert(a[i as int] == ps[i as int]);
        let (r, op1, o1, e1) = parameter::param_processed(
            param,
            Some(op),
            index,
            openapi,
            types,
            o,
        );
        let (path1, o2, e2) = operation::op_param_processed(path, i, index, method, openapi, o);
        assert(e1 is None && o2 == o1);
        tolerance_laws::param_uncovered(param, Some(op), index, openapi, types, o);
        if is_form_field(param) {
            form_field_joins_form(param, op, index, openapi, types, o);
            assert(op1->0.member("parameters"@) == op.member("parameters"@));
            assert(op1->0.member("consumes"@) == op.member("consumes"@));
            another_field(ps, i, form_of(op, ct), form_of(op1->0, ct));
        } else {
            assert(is_typed(param));
            parameter_laws::typed_parameter_gets_schema(
                param,
                Some(op),
                index,
                openapi,
                types,
                o,
            );
            assert(op1 == Some(op));
            no_other_field(ps, i, form_of(op, ct));
        }
        let op2 = operation::op_param_set(op1->0, i, r);
        assert(op2 == op1->0.with("parameters"@, Json::Array(a.update(i as int, r))));
        assert(path1 == path.with(method, op2));
        assert(op2.member("requestBody"@) == op1->0.member("requestBody"@));
        assert(op2.member("consumes"@) == op.member("consumes"@));
        assert(form_of(op2, ct) == form_of(op1->0, ct));
        assert(op2.has("requestBody"@) == exists|k: int|
            0 <= k < i + 1 && k < ps.len() && is_form_field(#[trigger] ps[k])) by {
            if is_form_field(param) {
                assert(is_form_field(ps[i as int]));
            } else {
                if exists|k: int| 0 <= k < i && k < ps.len() && is_form_field(#[trigger] ps[k]) {
                    let k = choose|k: int|
                        0 <= k < i && k < ps.len() && is_form_field(#[trigger] ps[k]);
                    assert(k < i + 1 && is_form_field(ps[k]));
                }
                if exists|k: int|
                    0 <= k < i + 1 && k < ps.len() && is_form_field(#[trigger] ps[k]) {
                    let k = choose|k: int|
                        0 <= k < i + 1 && k < ps.len() && is_form_field(#[trigger] ps[k]);
                    assert(k != i);
                    assert(k < i && is_form_field(ps[k]));
                }
            }
        }
        assert(takes_form(op2, ct, ps, i + 1));
        assert(keeps_params(op2, ps, i + 1));
        params_make_form(path1, ps, i + 1, index, method, openapi, o1, types);
    }
}

/// An operation whose parameters are written out in place takes the form that its form
/// fields make: each field is a property of the form, the form has no other property,
/// and it requires a name exactly when a field of that name is required. The form is
/// multipart where the operation, or else the document, lists that, and URL encoded
/// otherwise. Without a form field there is no request body.
pub proof fn fields_make_form(
    path: Json,
    ps: Seq<Json>,
    index: Text,
    method: Text,
    openapi: Json,
    o: Settings,
)
    requires
        forall|k: int| 0 <= k < ps.len() ==> is_form_field(#[trigger] ps[k]) || is_typed(ps[k]),
        !is_telling_word(o.warning_key()),
        !parameter_laws::is_converted_word(o.warning_key()),
        o.rbname != "parameters"@ && o.rbname != "consumes"@,
        path.member(method) matches Some(op) && op is Object && json::distinct(op.members())
            && json::text_of(op.member("consumes"@)) is None && op.member("parameters"@) == Some(
            Json::Array(ps),
        ) && !op.has("requestBody"@),
        operation::op_params_processed(path, 0, ps.len(), index, method, openapi, o).2 is None,
    ensures
        ({
            let x = operation::op_params_processed(
                path,
                0,
                ps.len(),
                index,
                method,
                openapi,
                o,
            ).0.member(method);
            let ct = if lists_type(
                path.member(method),
                openapi,
                "consumes"@,
                "multipart/form-data"@,
            ) {
                "multipart/form-data"@
            } else {
                "application/x-www-form-urlencoded"@
            };
            let f = form_of(x->0, ct);
            &&& x is Some
            &&& x->0.has("requestBody"@) == exists|k: int|
                0 <= k < ps.len() && is_form_field(#[trigger] ps[k])
            &&& forall|n: Text|
                (#[trigger] property_of(f, n)) is Some == field_among(ps, ps.len(), n)
            &&& forall|n: Text| (#[trigger] property_of(f, n)) is Some ==> made_of_field(
                property_of(f, n)->0,
                ps,
                ps.len(),
                n,
            )
            &&& forall|n: Text| #[trigger] requires_field(f, n) == required_among(ps, ps.len(), n)
        }),
{
    let op = path.member(method)->0;
    let types = body::media_types(path.member(method), openapi, "consumes"@);
    response_laws::media_types_are_listed(
        path.member(method),
        openapi,
        "consumes"@,
        "multipart/form-data"@,
    );
    let ct = form_media(types);
    assert(form_of(op, ct) is None);
    assert forall|n: Text| (#[trigger] property_of(form_of(op, ct), n)) is Some == field_among(
        ps,
        0,
        n,
    ) by {}
    assert forall|n: Text| #[trigger] requires_field(form_of(op, ct), n) == required_among(
        ps,
        0,
        n,
    ) by {}
    assert(takes_form(op, ct, ps, 0));
    params_make_form(path, ps, 0, index, method, openapi, o, types);
    let x = operation::op_params_processed(
        path,
        0,
        ps.len(),
        index,
        method,
        openapi,
        o,
    ).0.member(method);
    assert((exists|k: int| 0 <= k < ps.len() && is_form_field(#[trigger] ps[k])) == (exists|
        k: int,
    |
        0 <= k < ps.len() && k < ps.len() && is_form_field(#[trigger] ps[k])));
}

// --- body parameters -------------------------------------------------------

/// Whether a parameter is a body that is written out in place.
pub open spec fn is_body_param(param: Json) -> bool {
    &&& json::distinct(param.members())
    &&& param.text_member("$ref"@) is None
    &&& param.says("in"@, "body"@)
    &&& !param.has("type"@) && !param.has("collectionFormat"@)
    &&& param.member("description"@) matches Some(v) ==> v is String
}

/// Whether a value is a schema that was repaired, and repaired again.
pub open spec fn is_twice_repaired(x: Json, schema: Json) -> bool {
    exists|s: Json|
        is_repaired_schema(Some(x), s) && #[trigger] is_repaired_schema(Some(s), schema)
}

/// The request body of an operation.
pub open spec fn request_body_of(op: Json) -> Json {
    json::value_or(op.member("requestBody"@), Json::Null)
}

/// Whether the content of a media type holds the schema of a body parameter, repaired,
/// or an empty schema where the parameter has none.
pub open spec fn holds_schema_of(media: Option<Json>, param: Json) -> bool {
    match json::member_of(media, "schema"@) {
        Some(s) => match param.member("schema"@) {
            Some(schema) => is_twice_repaired(s, schema),
            None => is_repaired_schema(Some(s), Json::empty()),
        },
        None => false,
    }
}

proof fn body_is_real(param: Json, openapi: Json, o: Settings)
    requires
        is_body_param(param),
        parameter::real_processed(param, None, openapi, o).3 is None,
    ensures
        ({
            let (r, original, o1, e) = parameter::real_processed(param, None, openapi, o);
            &&& json::distinct(r.members())
            &&& r is Object
            &&& match param.member("schema"@) {
                Some(s) => r.member("schema"@) matches Some(x) && is_repaired_schema(Some(x), s),
                None => r.member("schema"@) is None,
            }
            &&& forall|key: Text|
                key != "schema"@ && key != "x-deprecated"@ && key != "deprecated"@ && key
                    != "x-example"@ && key != "example"@ ==> #[trigger] r.member(key)
                    == param.member(key)
            &&& o1.rbname == o.rbname
            &&& o1.warn_only == o.warn_only
        }),
{
    broadcast use {laws::group_members, tolerance_laws::schema_uncovered};

    body_words();
    parameter_laws::extensions_are_promoted(param);
    let j1 = parameter::param_extensions_promoted(param);
    assert(j1.member("type"@) is None);
    assert(j1.member("in"@) == param.member("in"@));
    assert(j1.member("collectionFormat"@) is None);
    assert(j1.member("schema"@) == param.member("schema"@));
    assert(j1.member("description"@) == param.member("description"@));
    assert(parameter::type_supplied(j1, o) == (j1, o, None::<Text>));
    assert(parameter::member_resolved(j1, "type"@, openapi) == j1);
    assert(parameter::null_description_dropped(
        parameter::member_resolved(j1, "description"@, openapi),
    ) == j1);
    assert(parameter::collection_format_converted(j1, o) == (j1, o, None::<Text>));
    assert(parameter::type_converted(j1, o) == (j1, o, None::<Text>));
    let (j4, o4, e4) = parameter::param_schema_fixed(j1, o);
    assert(j4.member("in"@) == param.member("in"@));
    assert(parameter::reserved_allowed(j4) == j4);
    assert(parameter::real_processed(param, None, openapi, o).0 == j4);
    if let Some(s) = param.member("schema"@) {
        assert(is_repaired_schema(Some(fixup::schema_fixed(s, o).0), s));
    }
}

proof fn contents_are_added(types: Seq<Text>, i: nat, schema: Json, o: Settings, result: Json)
    requires
        json::distinct(result.members()),
        result.has("content"@),
        body::contents_from(types, i, schema, o, result).2 is None,
    ensures
        ({
            let (x, o1, e) = body::contents_from(types, i, schema, o, result);
            &&& json::distinct(x.members())
            &&& x.has("content"@)
            &&& x is Object || x == result
            &&& forall|key: Text| key != "content"@ ==> #[trigger] x.member(key) == result.member(
                key,
            )
            &&& forall|t: Text| held_from(types, i, t) ==> is_schema_content(
                #[trigger] x.member("content"@)->0.member(t),
                schema,
            )
            &&& forall|t: Text| !held_from(types, i, t) ==> #[trigger]
                x.member("content"@)->0.member(t) == result.member("content"@)->0.member(t)
        }),
    decreases types.len() - i,
{
    broadcast use laws::group_members;

    if i < types.len() {
        let (s1, o1, e1) = fixup::schema_fixed(schema, o);
        let mt = types[i as int];
        let ct = Json::single("schema"@, s1);
        let r1 = result.with("content"@, result.member("content"@)->0.with(mt, ct));
        assert(is_schema_content(Some(ct), schema)) by {
            assert(is_repaired_schema(Some(s1), schema));
        }
        contents_are_added(types, i + 1, schema, o1, r1);
        let x = body::contents_from(types, i, schema, o, result).0;
        assert(x == body::contents_from(types, i + 1, schema, o1, r1).0);
        assert forall|t: Text| #[trigger] held_from(types, i, t) == (t == mt || held_from(
            types,
            i + 1,
            t,
        )) by {
            assert(types[i as int] == mt);
            if held_from(types, i, t) && t != mt {
                let q = choose|q: int| i <= q < types.len() && #[trigger] types[q] == t;
                assert(i + 1 <= q);
            }
        }
        assert forall|t: Text| held_from(types, i, t) implies is_schema_content(
            #[trigger] x.member("content"@)->0.member(t),
            schema,
        ) by {
            assert(held_from(types, i, t) == (t == mt || held_from(types, i + 1, t)));
            if !held_from(types, i + 1, t) {
                assert(x.member("content"@)->0.member(t) == r1.member("content"@)->0.member(t));
            }
        }
        assert forall|t: Text| !held_from(types, i, t) implies #[trigger]
            x.member("content"@)->0.member(t) == result.member("content"@)->0.member(t) by {
            assert(held_from(types, i, t) == (t == mt || held_from(types, i + 1, t)));
            assert(x.member("content"@)->0.member(t) == r1.member("content"@)->0.member(t));
        }
        assert forall|key: Text| key != "content"@ implies #[trigger] x.member(key)
            == result.member(key) by {
            assert(r1.member(key) == result.member(key));
        }
    }
}

/// Whether a value is the content of a media type with the repaired schema alone.
pub open spec fn is_schema_content(media: Option<Json>, schema: Json) -> bool {
    media matches Some(Json::Object(m)) && m.len() == 1 && m[0].0 == "schema"@
        && is_repaired_schema(Some(m[0].1), schema)
}

/// The media types of a body: those that are listed, or JSON.
pub open spec fn is_body_media(consumes: Seq<Text>, t: Text) -> bool {
    consumes.contains(t) || (consumes.len() == 0 && t == "application/json"@)
}

proof fn body_types_are(consumes: Seq<Text>, t: Text)
    ensures
        held_from(body::body_types(consumes), 0, t) == is_body_media(consumes, t),
{
    let types = body::body_types(consumes);
    if consumes.len() == 0 {
        assert(types[0] == "application/json"@);
    } else if consumes.contains(t) {
        let q = choose|q: int| 0 <= q < consumes.len() && consumes[q] == t;
        assert(types[q] == t);
    }
}

/// The request body that a body parameter makes.
proof fn body_is_built(r: Json, op: Option<Json>, consumes: Seq<Text>, o: Settings)
    requires
        r is Object,
        json::distinct(r.members()),
        body::body_built(r, op, consumes, o, Json::empty()).2 is None,
    ensures
        ({
            let x = body::body_built(r, op, consumes, o, Json::empty()).0;
            let schema = json::value_or(r.member("schema"@), Json::empty());
            &&& x is Object && json::distinct(x.members())
            &&& forall|t: Text| (#[trigger] x.member2("content"@, t)) is Some == is_body_media(
                consumes,
                t,
            )
            &&& forall|t: Text| is_body_media(consumes, t) ==> is_schema_content(
                #[trigger] x.member2("content"@, t),
                schema,
            )
            &&& x.has("content"@)
            &&& x.member("description"@) == r.member("description"@)
            &&& x.member("required"@) == (if common::is_truthy(r.member("required"@)) {
                r.member("required"@)
            } else {
                None
            })
            &&& forall|key: Text| is_extension(key) && r.has(key) ==> #[trigger] x.member(key)
                == r.member(key)
            &&& forall|key: Text|
                (#[trigger] x.member(key)) is Some ==> key == "content"@ || key == "x-s2o-name"@
                    || key == "description"@ || key == "required"@ || is_extension(key)
        }),
{
    broadcast use laws::group_members;

    body_words();
    no_extensions();
    reveal_strlit("content");
    not_x("content"@);
    not_x_s2o();
    let head = body::body_head(r, op, Json::empty());
    assert(json::distinct(Json::empty().members()));
    assert(head.member("content"@) == Some(Json::empty()));
    assert(head.member("description"@) == r.member("description"@));
    let schema = json::value_or(r.member("schema"@), Json::empty());
    let types = body::body_types(consumes);
    contents_are_added(types, 0, schema, o, head);
    let x1 = body::contents_from(types, 0, schema, o, head).0;
    let x = body::body_built(r, op, consumes, o, Json::empty()).0;
    extensions_go_along(r, x1);
    assert(x.member("content"@) == x1.member("content"@));
    assert forall|t: Text| (#[trigger] x.member2("content"@, t)) is Some == is_body_media(
        consumes,
        t,
    ) by {
        body_types_are(consumes, t);
        if held_from(types, 0, t) {
            assert(is_schema_content(x1.member("content"@)->0.member(t), schema));
        } else {
            assert(x1.member("content"@)->0.member(t) == head.member("content"@)->0.member(t));
        }
    }
    assert forall|t: Text| is_body_media(consumes, t) implies is_schema_content(
        #[trigger] x.member2("content"@, t),
        schema,
    ) by {
        body_types_are(consumes, t);
        assert(is_schema_content(x1.member("content"@)->0.member(t), schema));
    }
}

proof fn not_x_s2o()
    ensures
        !is_extension("x-s2o-name"@),
{
    reveal_strlit("x-s2o");
    reveal_strlit("x-s2o-name");
    assert("x-s2o-name"@.subrange(0, 5) =~= "x-s2o"@);
}

/// A body parameter becomes the request body of its operation: one entry of content
/// for each media type that is listed, or for JSON where none is, each with a repaired
/// copy of the schema. Its description, its extensions and that it is required go
/// along. The parameter is marked to go.
#[verifier::rlimit(40)]
pub proof fn body_becomes_request_body(
    param: Json,
    op: Json,
    index: Text,
    openapi: Json,
    consumes: Seq<Text>,
    o: Settings,
)
    requires
        is_body_param(param),
        op is Object,
        json::distinct(op.members()),
        json::text_of(op.member("consumes"@)) is None,
        !op.has("requestBody"@),
        o.rbname != "requestBody"@,
        parameter::param_processed(param, Some(op), index, openapi, consumes, o).3 is None,
    ensures
        ({
            let (r, x, o1, e) = parameter::param_processed(
                param,
                Some(op),
                index,
                openapi,
                consumes,
                o,
            );
            let b = request_body_of(x->0);
            &&& x is Some && x->0.has("requestBody"@)
            &&& forall|t: Text| (#[trigger] b.member2("content"@, t)) is Some == is_body_media(
                consumes,
                t,
            )
            &&& forall|t: Text| is_body_media(consumes, t) ==> holds_schema_of(
                #[trigger] b.member2("content"@, t),
                param,
            )
            &&& param.has("description"@) ==> b.member("description"@) == param.member(
                "description"@,
            )
            &&& common::is_truthy(param.member("required"@)) ==> b.member("required"@)
                == param.member("required"@)
            &&& !common::is_truthy(param.member("required"@)) ==> !b.has("required"@)
            &&& forall|key: Text|
                is_extension(key) && key != "x-deprecated"@ && key != "x-example"@ && param.has(key)
                    ==> #[trigger] b.member(key) == param.member(key)
            &&& r.member("x-s2o-delete"@) == Some(Json::Bool(true))
        }),
{
    broadcast use laws::group_members;

    body_words();
    let (j, original, o1, e1) = parameter::real_processed(param, None, openapi, o);
    body_is_finished(param, op, index, openapi, consumes, o);
    body_is_real(param, openapi, o);
    assert(j.member("in"@) == param.member("in"@));
    assert(j.member("description"@) == param.member("description"@));
    assert(j.member("required"@) == param.member("required"@));
    let (result, o2, e2) = body::body_built(j, Some(op), consumes, o1, Json::empty());
    body_is_built(j, Some(op), consumes, o1);
    let op1 = parameter::body_name_kept(Some(op), j, o2)->0;
    let x = parameter::param_processed(param, Some(op), index, openapi, consumes, o).1;
    response_laws::looked_up_is_named(result.members(), "content"@);
    first_body_is_attached(op1, result, true, index, o2, "application/json"@);
    let b = request_body_of(x->0);
    assert(x->0.member2("requestBody"@, "content"@) == result.member("content"@));
    assert forall|key: Text| result.has(key) implies #[trigger] b.member(key) == result.member(
        key,
    ) by {
        assert(x->0.member2("requestBody"@, key) == result.member(key));
    }
    assert(b.member("content"@) == result.member("content"@));
    assert forall|t: Text| (#[trigger] b.member2("content"@, t)) is Some == is_body_media(
        consumes,
        t,
    ) by {
        assert(result.member2("content"@, t) is Some == is_body_media(consumes, t));
    }
    let schema = json::value_or(param.member("schema"@), Json::empty());
    assert forall|t: Text| is_body_media(consumes, t) implies holds_schema_of(
        #[trigger] b.member2("content"@, t),
        param,
    ) by {
        assert(is_schema_content(
            result.member2("content"@, t),
            json::value_or(j.member("schema"@), Json::empty()),
        ));
        let m = result.member2("content"@, t)->0.members();
        laws::index_is_first(m, "schema"@, 0, 0);
        if param.has("schema"@) {
            assert(is_repaired_schema(Some(j.member("schema"@)->0), schema));
        }
    }
    assert(x->0.member2("requestBody"@, "required"@) == result.member("required"@));
    assert(x->0.member2("requestBody"@, "description"@) == result.member("description"@));
    assert forall|key: Text|
        is_extension(key) && key != "x-deprecated"@ && key != "x-example"@ && param.has(
            key,
        ) implies #[trigger] b.member(key) == param.member(key) by {
        no_extensions();
        reveal_strlit("schema");
        reveal_strlit("deprecated");
        not_x("schema"@);
        not_x("deprecated"@);
        assert(j.member(key) == param.member(key));
        assert(result.member(key) == j.member(key));
        assert(result.has(key));
    }
}

proof fn body_is_finished(
    param: Json,
    op: Json,
    index: Text,
    openapi: Json,
    consumes: Seq<Text>,
    o: Settings,
)
    requires
        is_body_param(param),
        json::text_of(op.member("consumes"@)) is None,
        parameter::param_processed(param, Some(op), index, openapi, consumes, o).3 is None,
    ensures
        ({
            let (j, original, o1, e1) = parameter::real_processed(param, None, openapi, o);
            let (result, o2, e2) = body::body_built(j, Some(op), consumes, o1, Json::empty());
            let op1 = parameter::body_name_kept(Some(op), j, o2);
            let (r, x, o3, e3) = parameter::param_processed(
                param,
                Some(op),
                index,
                openapi,
                consumes,
                o,
            );
            &&& e1 is None && e2 is None
            &&& op1 is Some
            &&& x == Some(body::result_attached(op1->0, result, true, index, o2).0)
            &&& r.member("x-s2o-delete"@) == Some(Json::Bool(true))
            &&& o2.rbname == o.rbname
        }),
{
    broadcast use {laws::group_members, tolerance_laws::schema_uncovered};

    reveal(parameter::param_processed);
    body_words();
    assert(parameter::internal_ref_followed(param, openapi, o) == (param, None::<Text>));
    assert(parameter::is_real(param));
    let (j, original, o1, e1) = parameter::real_processed(param, None, openapi, o);
    assert(e1 is None);
    body_is_real(param, openapi, o);
    assert(j.member("in"@) == param.member("in"@));
    assert(j.member("type"@) is None);
    assert(parameter::form_or_file_body(j, consumes, original) == Json::empty());
    let (result, o2, e2) = body::body_built(j, Some(op), consumes, o1, Json::empty());
    assert(e2 is None);
    body_is_built(j, Some(op), consumes, o1);
    response_laws::looked_up_is_named(result.members(), "content"@);
    tolerance_laws::body_uncovered(j, Some(op), consumes, o1, Json::empty());
}

} // verus!
