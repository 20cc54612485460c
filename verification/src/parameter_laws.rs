//! Laws of parameters.

use vstd::prelude::*;

use crate::common::{self, PARAMETER_TYPE_PROPERTIES};
use crate::convert::parameter;
use crate::error;
use crate::fixup;
use crate::json::{self, Json, Text};
use crate::laws;
use crate::options::Settings;

verus! {

/// The words that these laws speak of differ.
proof fn parameter_words()
    ensures
        "in"@.len() == 2,
        "csv"@.len() == 3 && "csv"@[0] == 'c',
        "ssv"@.len() == 3 && "ssv"@[0] == 's',
        "tsv"@.len() == 3 && "tsv"@[0] == 't',
        "enum"@.len() == 4 && "enum"@[2] == 'u',
        "type"@.len() == 4 && "type"@[2] == 'p',
        "name"@.len() == 4 && "name"@[2] == 'm',
        "$ref"@.len() == 4 && "$ref"@[2] == 'e',
        "path"@.len() == 4 && "path"@[2] == 't',
        "form"@.len() == 4 && "form"@[2] == 'r',
        "body"@.len() == 4 && "body"@[2] == 'd',
        "file"@.len() == 4 && "file"@[2] == 'l',
        "items"@.len() == 5 && "items"@[0] == 'i',
        "style"@.len() == 5 && "style"@[0] == 's',
        "pipes"@.len() == 5 && "pipes"@[0] == 'p',
        "multi"@.len() == 5 && "multi"@[0] == 'm',
        "query"@.len() == 5 && "query"@[0] == 'q',
        "array"@.len() == 5 && "array"@[0] == 'a',
        "format"@.len() == 6 && "format"@[3] == 'm',
        "schema"@.len() == 6 && "schema"@[3] == 'e',
        "cookie"@.len() == 6 && "cookie"@[3] == 'k',
        "header"@.len() == 6 && "header"@[3] == 'd',
        "simple"@.len() == 6 && "simple"@[3] == 'p',
        "string"@.len() == 6 && "string"@[3] == 'i',
        "minimum"@.len() == 7 && "minimum"@[2] == 'n',
        "maximum"@.len() == 7 && "maximum"@[2] == 'x',
        "pattern"@.len() == 7 && "pattern"@[2] == 't',
        "default"@.len() == 7 && "default"@[2] == 'f',
        "explode"@.len() == 7 && "explode"@[2] == 'p',
        "example"@.len() == 7 && "example"@[2] == 'a',
        "minItems"@.len() == 8 && "minItems"@[1] == 'i',
        "maxItems"@.len() == 8 && "maxItems"@[1] == 'a',
        "required"@.len() == 8 && "required"@[1] == 'e',
        "formData"@.len() == 8 && "formData"@[1] == 'o',
        "minLength"@.len() == 9 && "minLength"@[1] == 'i',
        "maxLength"@.len() == 9 && "maxLength"@[1] == 'a',
        "x-example"@.len() == 9 && "x-example"@[1] == '-',
        "multipleOf"@.len() == 10 && "multipleOf"@[0] == 'm',
        "deprecated"@.len() == 10 && "deprecated"@[0] == 'd',
        "uniqueItems"@.len() == 11 && "uniqueItems"@[0] == 'u',
        "description"@.len() == 11 && "description"@[0] == 'd',
        "x-deprecated"@.len() == 12 && "x-deprecated"@[2] == 'd',
        "x-s2o-delete"@.len() == 12 && "x-s2o-delete"@[2] == 's',
        "minProperties"@.len() == 13 && "minProperties"@[2] == 'n',
        "maxProperties"@.len() == 13 && "maxProperties"@[2] == 'x',
        "allowReserved"@.len() == 13 && "allowReserved"@[2] == 'l',
        "pipeDelimited"@.len() == 13 && "pipeDelimited"@[2] == 'p',
        "spaceDelimited"@.len() == 14,
        "exclusiveMinimum"@.len() == 16 && "exclusiveMinimum"@[10] == 'i',
        "exclusiveMaximum"@.len() == 16 && "exclusiveMaximum"@[10] == 'a',
        "collectionFormat"@.len() == 16 && "collectionFormat"@[10] == 'F',
        "x-collectionFormat"@.len() == 18 && "x-collectionFormat"@[2] == 'c',
        "x-s2o-originalType"@.len() == 18 && "x-s2o-originalType"@[2] == 's',
        "additionalProperties"@.len() == 20,
        "x-ms-skip-url-encoding"@.len() == 22,
{
    reveal_strlit("in");
    reveal_strlit("csv");
    reveal_strlit("ssv");
    reveal_strlit("tsv");
    reveal_strlit("enum");
    reveal_strlit("type");
    reveal_strlit("name");
    reveal_strlit("$ref");
    reveal_strlit("path");
    reveal_strlit("form");
    reveal_strlit("body");
    reveal_strlit("file");
    reveal_strlit("items");
    reveal_strlit("style");
    reveal_strlit("pipes");
    reveal_strlit("multi");
    reveal_strlit("query");
    reveal_strlit("array");
    reveal_strlit("format");
    reveal_strlit("schema");
    reveal_strlit("cookie");
    reveal_strlit("header");
    reveal_strlit("simple");
    reveal_strlit("string");
    reveal_strlit("minimum");
    reveal_strlit("maximum");
    reveal_strlit("pattern");
    reveal_strlit("default");
    reveal_strlit("explode");
    reveal_strlit("example");
    reveal_strlit("minItems");
    reveal_strlit("maxItems");
    reveal_strlit("required");
    reveal_strlit("formData");
    reveal_strlit("minLength");
    reveal_strlit("maxLength");
    reveal_strlit("x-example");
    reveal_strlit("multipleOf");
    reveal_strlit("deprecated");
    reveal_strlit("uniqueItems");
    reveal_strlit("description");
    reveal_strlit("x-deprecated");
    reveal_strlit("x-s2o-delete");
    reveal_strlit("minProperties");
    reveal_strlit("maxProperties");
    reveal_strlit("allowReserved");
    reveal_strlit("pipeDelimited");
    reveal_strlit("spaceDelimited");
    reveal_strlit("exclusiveMinimum");
    reveal_strlit("exclusiveMaximum");
    reveal_strlit("collectionFormat");
    reveal_strlit("x-collectionFormat");
    reveal_strlit("x-s2o-originalType");
    reveal_strlit("additionalProperties");
    reveal_strlit("x-ms-skip-url-encoding");
}

/// The keywords of a Swagger parameter, or header, that belong to its schema.
pub open spec fn is_type_keyword(key: Text) -> bool {
    ||| key == "format"@
    ||| key == "minimum"@
    ||| key == "maximum"@
    ||| key == "exclusiveMinimum"@
    ||| key == "exclusiveMaximum"@
    ||| key == "minLength"@
    ||| key == "maxLength"@
    ||| key == "multipleOf"@
    ||| key == "minItems"@
    ||| key == "maxItems"@
    ||| key == "uniqueItems"@
    ||| key == "minProperties"@
    ||| key == "maxProperties"@
    ||| key == "additionalProperties"@
    ||| key == "pattern"@
    ||| key == "enum"@
    ||| key == "default"@
}

/// Whether a list from position `i` on holds `key`.
pub open spec fn held_from(list: Seq<Text>, i: nat, key: Text) -> bool {
    exists|q: int| i <= q < list.len() && #[trigger] list[q] == key
}

/// The list of type keywords holds each of them and nothing else.
pub proof fn type_keywords_are_listed(key: Text)
    ensures
        held_from(common::words(PARAMETER_TYPE_PROPERTIES@), 0, key) == is_type_keyword(key),
{
    let ws = common::words(PARAMETER_TYPE_PROPERTIES@);
    assert(ws =~= seq![
        "format"@,
        "minimum"@,
        "maximum"@,
        "exclusiveMinimum"@,
        "exclusiveMaximum"@,
        "minLength"@,
        "maxLength"@,
        "multipleOf"@,
        "minItems"@,
        "maxItems"@,
        "uniqueItems"@,
        "minProperties"@,
        "maxProperties"@,
        "additionalProperties"@,
        "pattern"@,
        "enum"@,
        "default"@,
    ]);
    assert(ws[0] == "format"@);
    assert(ws[1] == "minimum"@);
    assert(ws[2] == "maximum"@);
    assert(ws[3] == "exclusiveMinimum"@);
    assert(ws[4] == "exclusiveMaximum"@);
    assert(ws[5] == "minLength"@);
    assert(ws[6] == "maxLength"@);
    assert(ws[7] == "multipleOf"@);
    assert(ws[8] == "minItems"@);
    assert(ws[9] == "maxItems"@);
    assert(ws[10] == "uniqueItems"@);
    assert(ws[11] == "minProperties"@);
    assert(ws[12] == "maxProperties"@);
    assert(ws[13] == "additionalProperties"@);
    assert(ws[14] == "pattern"@);
    assert(ws[15] == "enum"@);
    assert(ws[16] == "default"@);
}

/// Type keywords go from a parameter onto its schema: each that the parameter has
/// stands on the schema with its value, none stays on the parameter, and nothing else
/// changes.
pub proof fn keywords_go_onto_schema(j: Json, props: Seq<Text>, i: nat)
    requires
        json::distinct(j.members()),
        j.has("schema"@),
        !held_from(props, i, "schema"@),
    ensures
        ({
            let r = parameter::props_onto_schema(j, props, i);
            let s = j.member("schema"@)->0;
            &&& json::distinct(r.members())
            &&& r.has("schema"@)
            &&& s is Object ==> r.member("schema"@)->0 is Object
            &&& forall|key: Text| #[trigger]
                r.member(key) == (if key == "schema"@ {
                    r.member("schema"@)
                } else if held_from(props, i, key) {
                    None
                } else {
                    j.member(key)
                })
            &&& forall|key: Text| #[trigger]
                r.member("schema"@)->0.member(key) == (if held_from(props, i, key) && j.has(key) {
                    j.member(key)
                } else {
                    s.member(key)
                })
        }),
    decreases props.len() - i,
{
    broadcast use laws::group_members;

    if i < props.len() {
        let prop = props[i as int];
        assert(held_from(props, i, prop));
        let j1 = match j.member(prop) {
            Some(v) => parameter::on_schema(j, prop, v),
            None => j,
        };
        let j2 = j1.without(prop);
        assert forall|key: Text| #[trigger] held_from(props, i, key) == (key == prop || held_from(
            props,
            i + 1,
            key,
        )) by {
            if held_from(props, i, key) && key != prop {
                let q = choose|q: int| i <= q < props.len() && #[trigger] props[q] == key;
                assert(i + 1 <= q);
            }
        }
        keywords_go_onto_schema(j2, props, i + 1);
        let r = parameter::props_onto_schema(j, props, i);
        assert(r == parameter::props_onto_schema(j2, props, i + 1));
        let s = j.member("schema"@)->0;
        let s2 = j2.member("schema"@)->0;
        assert forall|key: Text| #[trigger]
            r.member("schema"@)->0.member(key) == (if held_from(props, i, key) && j.has(key) {
                j.member(key)
            } else {
                s.member(key)
            }) by {
            assert(s2.member(key) == (if key == prop && j.has(prop) {
                j.member(prop)
            } else {
                s.member(key)
            }));
            assert(key != prop && key != "schema"@ ==> j2.member(key) == j.member(key));
            assert(held_from(props, i, key) == (key == prop || held_from(props, i + 1, key)));
        }
        assert forall|key: Text| #[trigger]
            r.member(key) == (if key == "schema"@ {
                r.member("schema"@)
            } else if held_from(props, i, key) {
                None
            } else {
                j.member(key)
            }) by {
            assert(held_from(props, i, key) == (key == prop || held_from(props, i + 1, key)));
            assert(j2.member(key) == (if key == prop {
                None
            } else if key == "schema"@ {
                Some(s2)
            } else {
                j.member(key)
            }));
        }
    }
}

/// A typed parameter that makes no request body gets a schema with its type and with
/// each type keyword that it has, unchanged. The keywords and the items leave the
/// parameter, and its other members stay.
pub proof fn type_goes_onto_schema(param: Json, o: Settings)
    requires
        json::distinct(param.members()),
        param.text_member("type"@) is Some,
        !param.says("type"@, "body"@),
        !param.says("in"@, "formData"@),
        !(param.has("items"@) && param.has("schema"@)),
        !is_schema_word(o.warning_key()),
        parameter::type_converted(param, o).2 is None,
    ensures
        ({
            let (r, o1, e) = parameter::type_converted(param, o);
            let given = match param.member("schema"@) {
                Some(Json::Object(m)) => Json::Object(m),
                _ => Json::empty(),
            };
            let s = r.member("schema"@)->0;
            &&& r.has("schema"@) && s is Object && json::distinct(r.members())
            &&& s.member("type"@) == param.member("type"@)
            &&& s.has("items"@) == (param.has("items"@) || given.has("items"@))
            &&& forall|key: Text|
                is_type_keyword(key) ==> #[trigger] s.member(key) == (if param.has(key) {
                    param.member(key)
                } else {
                    given.member(key)
                })
            &&& forall|key: Text|
                !is_type_keyword(key) && key != "type"@ && key != "items"@
                    ==> #[trigger] s.member(key) == given.member(key)
            &&& forall|key: Text|
                is_type_keyword(key) || key == "items"@ ==> #[trigger] r.member(key) is None
            &&& forall|key: Text|
                !is_type_keyword(key) && key != "items"@ && key != "schema"@ && key
                    != o.warning_key() ==> #[trigger] r.member(key) == param.member(key)
        }),
{
    broadcast use laws::group_members;

    parameter_words();
    let j1 = if param.member("schema"@) matches Some(Json::Object(_)) {
        param
    } else {
        param.with("schema"@, Json::empty())
    };
    let o1 = if param.has("schema"@) {
        o.patched()
    } else {
        o
    };
    let j2 = parameter::on_schema(j1, "type"@, param.member("type"@)->0);
    let (j3, e3) = parameter::items_onto_schema(j2, o1);
    items_go_onto_schema(j2, o1);
    let ws = common::words(PARAMETER_TYPE_PROPERTIES@);
    type_keywords_are_listed("schema"@);
    keywords_go_onto_schema(j3, ws, 0);
    let r = parameter::type_converted(param, o).0;
    assert(r == parameter::props_onto_schema(j3, ws, 0));
    assert forall|key: Text| held_from(ws, 0, key) == #[trigger] is_type_keyword(key) by {
        type_keywords_are_listed(key);
    }
    let s = r.member("schema"@)->0;
    let s3 = j3.member("schema"@)->0;
    assert forall|key: Text| is_type_keyword(key) || key == "items"@ implies #[trigger] r.member(
        key,
    ) is None by {
        assert(held_from(ws, 0, key) == is_type_keyword(key));
    }
    assert forall|key: Text| is_type_keyword(key) implies #[trigger] s.member(key) == (
    if param.has(key) {
        param.member(key)
    } else {
        (match param.member("schema"@) {
            Some(Json::Object(m)) => Json::Object(m),
            _ => Json::empty(),
        }).member(key)
    }) by {
        assert(held_from(ws, 0, key) == is_type_keyword(key));
        assert(j3.member(key) == param.member(key));
    }
    assert(!is_type_keyword("type"@) && !is_type_keyword("items"@));
    type_keywords_are_listed("type"@);
    type_keywords_are_listed("items"@);
    assert(s.member("type"@) == s3.member("type"@));
    assert(s.member("items"@) == s3.member("items"@));
    assert forall|key: Text|
        !is_type_keyword(key) && key != "type"@ && key != "items"@ implies #[trigger] s.member(key)
        == (match param.member("schema"@) {
        Some(Json::Object(m)) => Json::Object(m),
        _ => Json::empty(),
    }).member(key) by {
        assert(held_from(ws, 0, key) == is_type_keyword(key));
    }
    assert forall|key: Text|
        !is_type_keyword(key) && key != "items"@ && key != "schema"@ && key
            != o.warning_key() implies #[trigger] r.member(key) == param.member(key) by {
        assert(held_from(ws, 0, key) == is_type_keyword(key));
        assert(j3.member(key) == param.member(key));
    }
}

/// The members of a parameter that its schema is made of.
pub open spec fn is_schema_word(key: Text) -> bool {
    is_type_keyword(key) || key == "type"@ || key == "items"@ || key == "schema"@
}

proof fn items_go_onto_schema(j: Json, o: Settings)
    requires
        json::distinct(j.members()),
        j.member("schema"@) matches Some(Json::Object(_)),
        !is_schema_word(o.warning_key()),
        parameter::items_onto_schema(j, o).1 is None,
    ensures
        ({
            let r = parameter::items_onto_schema(j, o).0;
            let s = j.member("schema"@)->0;
            &&& json::distinct(r.members())
            &&& r.member("schema"@) matches Some(Json::Object(_))
            &&& forall|key: Text| #[trigger]
                r.member("schema"@)->0.member(key) == (if key == "items"@ && j.has("items"@) {
                    r.member("schema"@)->0.member("items"@)
                } else {
                    s.member(key)
                })
            &&& j.has("items"@) ==> r.member("schema"@)->0.has("items"@)
            &&& forall|key: Text| key != "schema"@ && key != o.warning_key() ==> #[trigger]
                r.member(key) == (if key == "items"@ {
                    None
                } else {
                    j.member(key)
                })
        }),
{
    broadcast use {laws::group_members, warning_adds_member};

    parameter_words();
}

/// A warning sets the member for warnings at most.
pub broadcast proof fn warning_adds_member(container: Json, message: Text, o: Settings, key: Text)
    ensures
        key != o.warning_key() ==> #[trigger] error::warned(container, message, o).0.member(key)
            == container.member(key),
        json::distinct(container.members()) ==> json::distinct(
            error::warned(container, message, o).0.members(),
        ),
        container is Object ==> error::warned(container, message, o).0 is Object,
{
    broadcast use laws::group_members;

    assert(container is Object ==> Json::Object(
        json::insert(container.members(), o.warning_key(), Json::String(message)),
    ) == container.with(o.warning_key(), Json::String(message)));
}

// --- collection formats ----------------------------------------------------

/// The members that a collection format is turned into, and itself.
pub open spec fn is_format_word(key: Text) -> bool {
    key == "collectionFormat"@ || key == "style"@ || key == "explode"@ || key
        == "x-collectionFormat"@
}

/// The collection format that applies to a parameter: `csv` for an array that names
/// none.
pub open spec fn format_of(param: Json) -> Option<Text> {
    match param.member("collectionFormat"@) {
        Some(Json::String(cf)) => Some(cf),
        _ => if param.says("type"@, "array"@) {
            Some("csv"@)
        } else {
            None
        },
    }
}

/// A collection format becomes a style: `csv` is `form` without `explode` in the
/// query and in cookies, and `simple` in paths and headers; `ssv` and `pipes` are
/// `spaceDelimited` and `pipeDelimited` in the query; `multi` explodes. `tsv` is kept
/// as an extension. The format itself goes, and nothing else changes.
pub proof fn formats_become_styles(param: Json, o: Settings)
    requires
        json::distinct(param.members()),
        !is_format_word(o.warning_key()),
        format_of(param) is Some,
        parameter::collection_format_converted(param, o).2 is None,
    ensures
        ({
            let r = parameter::collection_format_converted(param, o).0;
            let cf = format_of(param)->0;
            let at = param.text_member("in"@);
            let text = |s: Text| Some(Json::String(s));
            &&& json::distinct(r.members())
            &&& !r.has("collectionFormat"@)
            &&& r.member("style"@) == (if cf == "csv"@ && (at == Some("query"@) || at == Some(
                "cookie"@,
            )) {
                text("form"@)
            } else if cf == "csv"@ && (at == Some("path"@) || at == Some("header"@)) {
                text("simple"@)
            } else if cf == "ssv"@ && at == Some("query"@) {
                text("spaceDelimited"@)
            } else if cf == "pipes"@ && at == Some("query"@) {
                text("pipeDelimited"@)
            } else {
                param.member("style"@)
            })
            &&& r.member("explode"@) == (if cf == "csv"@ && (at == Some("query"@) || at == Some(
                "cookie"@,
            )) {
                Some(Json::Bool(false))
            } else if cf == "multi"@ {
                Some(Json::Bool(true))
            } else {
                param.member("explode"@)
            })
            &&& r.member("x-collectionFormat"@) == (if cf == "tsv"@ {
                text("tsv"@)
            } else {
                param.member("x-collectionFormat"@)
            })
            &&& forall|key: Text|
                !is_format_word(key) && key != o.warning_key() ==> #[trigger] r.member(key)
                    == param.member(key)
        }),
{
    broadcast use {laws::group_members, warning_adds_member};

    parameter_words();
}

/// A parameter without a collection format keeps its members. The conversion of a
/// format fails exactly for one on another type than `array`, without `patch`, and
/// for one that OpenAPI does not know in that place, without `warn_only`.
pub proof fn format_failures(param: Json, o: Settings)
    ensures
        ({
            let (r, o1, e) = parameter::collection_format_converted(param, o);
            let at = param.text_member("in"@);
            let array = param.says("type"@, "array"@);
            &&& format_of(param) is None ==> r == param && o1 == o && e is None
            &&& format_of(param) matches Some(cf) ==> {
                &&& (e is Some) == ((!array && !o.patch) || (!o.warn_only && (cf == "tsv"@ || ((cf
                    == "ssv"@ || cf == "pipes"@) && at != Some("query"@)))))
                &&& e is None ==> o1 == (if array {
                    o
                } else {
                    o.patched()
                })
            }
        }),
{
    parameter_words();
}

// --- extensions ------------------------------------------------------------

/// `x-deprecated` and `x-example` become `deprecated` and `example`, and nothing else
/// of a parameter changes.
pub proof fn extensions_are_promoted(param: Json)
    requires
        json::distinct(param.members()),
    ensures
        ({
            let r = parameter::param_extensions_promoted(param);
            let flagged = param.member("x-deprecated"@) matches Some(Json::Bool(_));
            &&& json::distinct(r.members())
            &&& forall|key: Text| #[trigger]
                r.member(key) == (if flagged && key == "deprecated"@ {
                    param.member("x-deprecated"@)
                } else if flagged && key == "x-deprecated"@ {
                    None
                } else if param.has("x-example"@) && key == "example"@ {
                    param.member("x-example"@)
                } else if key == "x-example"@ {
                    None
                } else {
                    param.member(key)
                })
        }),
{
    broadcast use laws::group_members;

    parameter_words();
}

// --- whole parameters ------------------------------------------------------

proof fn dropped_are_gone(j: Json, keys: Seq<Text>, i: nat)
    requires
        json::distinct(j.members()),
    ensures
        json::distinct(parameter::members_dropped(j, keys, i).members()),
        forall|key: Text| #[trigger]
            parameter::members_dropped(j, keys, i).member(key) == (if held_from(keys, i, key) {
                None
            } else {
                j.member(key)
            }),
    decreases keys.len() - i,
{
    broadcast use laws::group_members;

    if i < keys.len() {
        let first = keys[i as int];
        let j1 = j.without(first);
        dropped_are_gone(j1, keys, i + 1);
        assert(held_from(keys, i, first));
        assert forall|key: Text| #[trigger]
            parameter::members_dropped(j, keys, i).member(key) == (if held_from(keys, i, key) {
                None
            } else {
                j.member(key)
            }) by {
            if held_from(keys, i, key) && key != first {
                let q = choose|q: int| i <= q < keys.len() && #[trigger] keys[q] == key;
                assert(i + 1 <= q);
                assert(held_from(keys, i + 1, key));
            }
            assert(parameter::members_dropped(j, keys, i) == parameter::members_dropped(
                j1,
                keys,
                i + 1,
            ));
        }
    }
}

/// A parameter that stays in place has no type and no type keyword of its own, and
/// one in the path is required. Nothing else of it changes.
pub proof fn tidied_parameter(param: Json, index: Text, o: Settings)
    requires
        json::distinct(param.members()),
        !common::is_truthy(param.member("x-s2o-delete"@)),
        parameter::param_tidied(param, index, o).2 is None,
    ensures
        ({
            let r = parameter::param_tidied(param, index, o).0;
            forall|key: Text| #[trigger]
                r.member(key) == (if key == "type"@ || is_type_keyword(key) {
                    None
                } else if key == "required"@ && param.says("in"@, "path"@) {
                    Some(Json::Bool(true))
                } else {
                    param.member(key)
                })
        }),
{
    broadcast use laws::group_members;

    parameter_words();
    let ws = common::words(PARAMETER_TYPE_PROPERTIES@);
    let j0 = param.without("type"@);
    dropped_are_gone(j0, ws, 0);
    type_keywords_are_listed("in"@);
    type_keywords_are_listed("required"@);
    let r = parameter::param_tidied(param, index, o).0;
    assert forall|key: Text| #[trigger]
        r.member(key) == (if key == "type"@ || is_type_keyword(key) {
            None
        } else if key == "required"@ && param.says("in"@, "path"@) {
            Some(Json::Bool(true))
        } else {
            param.member(key)
        }) by {
        type_keywords_are_listed(key);
        let j1 = parameter::members_dropped(j0, ws, 0);
        assert(j1.member(key) == (if key == "type"@ || is_type_keyword(key) {
            None
        } else {
            param.member(key)
        }));
        assert(j1.member("in"@) == param.member("in"@));
        assert(j1.member("required"@) == param.member("required"@));
    }
}

/// Whether a parameter is written out in place, with a type, and makes no request
/// body.
pub open spec fn is_typed(param: Json) -> bool {
    &&& json::distinct(param.members())
    &&& param.text_member("$ref"@) is None
    &&& param.has("in"@) || param.has("name"@)
    &&& param.text_member("type"@) is Some
    &&& !param.says("type"@, "file"@) && !param.says("type"@, "body"@)
    &&& !param.says("in"@, "body"@) && !param.says("in"@, "formData"@)
    &&& !(param.has("items"@) && param.has("schema"@))
    &&& param.member("description"@) matches Some(v) ==> v is String
    &&& !common::is_truthy(param.member("x-s2o-delete"@))
}

/// The members of a parameter that its conversion may change.
pub open spec fn is_converted_word(key: Text) -> bool {
    ||| is_schema_word(key)
    ||| is_format_word(key)
    ||| key == "x-deprecated"@ || key == "deprecated"@
    ||| key == "x-example"@ || key == "example"@
    ||| key == "x-ms-skip-url-encoding"@ || key == "allowReserved"@
    ||| key == "required"@ || key == "in"@ || key == "x-s2o-delete"@ || key == "description"@
}

/// Whether a schema is what a typed parameter says: its type, its type keywords
/// unchanged, and otherwise what a schema that it has already says.
pub open spec fn says_type_of(s: Json, param: Json) -> bool {
    let given = match param.member("schema"@) {
        Some(Json::Object(m)) => Json::Object(m),
        _ => Json::empty(),
    };
    &&& s.member("type"@) == param.member("type"@)
    &&& s.has("items"@) == (param.has("items"@) || given.has("items"@))
    &&& forall|key: Text|
        is_type_keyword(key) ==> #[trigger] s.member(key) == (if param.has(key) {
            param.member(key)
        } else {
            given.member(key)
        })
    &&& forall|key: Text|
        !is_type_keyword(key) && key != "type"@ && key != "items"@ ==> #[trigger] s.member(key)
            == given.member(key)
}

proof fn real_is_schema_converted(param: Json, openapi: Json, o: Settings)
    requires
        is_typed(param),
    ensures
        ({
            let j = parameter::param_extensions_promoted(param);
            let (r, o1, e) = parameter::schema_converted(j, o);
            parameter::real_processed(param, None, openapi, o) == (r, None::<Text>, o1, e)
        }),
{
    parameter_words();
    extensions_are_promoted(param);
    let j1 = parameter::param_extensions_promoted(param);
    assert(j1.member("type"@) == param.member("type"@));
    assert(j1.member("description"@) == param.member("description"@));
    assert(parameter::type_supplied(j1, o) == (j1, o, None::<Text>));
    assert(parameter::member_resolved(j1, "type"@, openapi) == j1);
    assert(parameter::null_description_dropped(
        parameter::member_resolved(j1, "description"@, openapi),
    ) == j1);
}

/// What the conversion of the collection format leaves of a parameter.
proof fn format_leaves(param: Json, o: Settings, key: Text)
    requires
        json::distinct(param.members()),
        !is_format_word(o.warning_key()),
        parameter::collection_format_converted(param, o).2 is None,
    ensures
        json::distinct(parameter::collection_format_converted(param, o).0.members()),
        !is_format_word(key) && key != o.warning_key() ==>
            parameter::collection_format_converted(param, o).0.member(key) == param.member(key),
        ({
            let o1 = parameter::collection_format_converted(param, o).1;
            o1 == o || o1 == o.patched()
        }),
{
    format_failures(param, o);
    if format_of(param) is Some {
        formats_become_styles(param, o);
    }
}

/// The settings after the type of a parameter has been converted warn under the same
/// name.
proof fn type_keeps_settings(param: Json, o: Settings)
    ensures
        parameter::type_converted(param, o).1 == o || parameter::type_converted(param, o).1
            == o.patched(),
        o.patched().warning_key() == o.warning_key(),
{
}

/// The members of a typed parameter whose collection format, type and schema have
/// been converted.
#[verifier::rlimit(40)]
proof fn schema_converted_member(param: Json, o: Settings, key: Text)
    requires
        is_typed(param),
        !is_converted_word(o.warning_key()),
        parameter::schema_converted(param, o).2 is None,
        key != o.warning_key(),
    ensures
        ({
            let r = parameter::schema_converted(param, o).0;
            let skips = common::is_truthy(param.member("x-ms-skip-url-encoding"@)) && param.says(
                "in"@,
                "query"@,
            );
            &&& json::distinct(r.members())
            &&& key != "schema"@ ==> r.member(key) == (if key == "items"@ || is_type_keyword(key) {
                None
            } else if is_format_word(key) {
                parameter::collection_format_converted(param, o).0.member(key)
            } else if skips && key == "allowReserved"@ {
                Some(Json::Bool(true))
            } else if skips && key == "x-ms-skip-url-encoding"@ {
                None
            } else {
                param.member(key)
            })
        }),
{
    parameter_words();
    let (j2, o2, e2) = parameter::collection_format_converted(param, o);
    format_leaves(param, o, key);
    format_leaves(param, o, "type"@);
    format_leaves(param, o, "in"@);
    format_leaves(param, o, "items"@);
    format_leaves(param, o, "schema"@);
    format_leaves(param, o, "x-ms-skip-url-encoding"@);
    type_keeps_settings(j2, o2);
    let (j3, o3, e3) = parameter::type_converted(j2, o2);
    type_goes_onto_schema(j2, o2);
    assert(key != "schema"@ ==> j3.member(key) == (if key == "items"@ || is_type_keyword(key) {
        None
    } else {
        j2.member(key)
    }));
    assert(j3.member("in"@) == param.member("in"@));
    assert(j3.member("x-ms-skip-url-encoding"@) == param.member("x-ms-skip-url-encoding"@));
    let j4 = parameter::param_schema_fixed(j3, o3).0;
    let fixed = fixup::schema_fixed(j3.member("schema"@)->0, o3).0;
    laws::member_of_with(j3, "schema"@, fixed, "schema"@);
    reserved_member(j3, j4, key);
}

/// What the repair of the schema and the reserved characters change of a parameter.
proof fn reserved_member(j3: Json, j4: Json, key: Text)
    requires
        json::distinct(j3.members()),
        j4 == j3.with("schema"@, j4.member("schema"@)->0),
    ensures
        ({
            let r = parameter::reserved_allowed(j4);
            let skips = common::is_truthy(j3.member("x-ms-skip-url-encoding"@)) && j3.says(
                "in"@,
                "query"@,
            );
            &&& json::distinct(r.members())
            &&& r.member("schema"@) == j4.member("schema"@)
            &&& key != "schema"@ ==> r.member(key) == (if skips && key == "allowReserved"@ {
                Some(Json::Bool(true))
            } else if skips && key == "x-ms-skip-url-encoding"@ {
                None
            } else {
                j3.member(key)
            })
        }),
{
    broadcast use laws::group_members;

    parameter_words();
}

/// The schema of a typed parameter whose collection format, type and schema have
/// been converted.
#[verifier::rlimit(40)]
proof fn schema_converted_schema(param: Json, o: Settings)
    requires
        is_typed(param),
        !is_converted_word(o.warning_key()),
        parameter::schema_converted(param, o).2 is None,
    ensures
        ({
            let r = parameter::schema_converted(param, o).0;
            exists|s: Json, o2: Settings|
                r.member("schema"@) == Some((#[trigger] fixup::schema_fixed(s, o2)).0)
                    && says_type_of(s, param)
        }),
{
    parameter_words();
    let (j2, o2, e2) = parameter::collection_format_converted(param, o);
    format_leaves(param, o, "type"@);
    format_leaves(param, o, "in"@);
    format_leaves(param, o, "items"@);
    format_leaves(param, o, "schema"@);
    type_keeps_settings(j2, o2);
    let (j3, o3, e3) = parameter::type_converted(j2, o2);
    type_goes_onto_schema(j2, o2);
    let s = j3.member("schema"@)->0;
    assert forall|key: Text| is_type_keyword(key) implies #[trigger] j2.member(key)
        == param.member(key) by {
        format_leaves(param, o, key);
    }
    assert forall|key: Text| is_type_keyword(key) implies #[trigger] s.member(key) == (
    if param.has(key) {
        param.member(key)
    } else {
        (match param.member("schema"@) {
            Some(Json::Object(m)) => Json::Object(m),
            _ => Json::empty(),
        }).member(key)
    }) by {
        assert(j2.member(key) == param.member(key));
    }
    assert(says_type_of(s, param));
    let j4 = parameter::param_schema_fixed(j3, o3).0;
    laws::member_of_with(j3, "schema"@, fixup::schema_fixed(s, o3).0, "schema"@);
    reserved_member(j3, j4, "schema"@);
    assert(j4.member("schema"@) == Some(fixup::schema_fixed(s, o3).0));
}

/// A schema says the type of a parameter alike before and after its extensions have
/// been promoted.
proof fn says_alike(s: Json, a: Json, b: Json)
    requires
        says_type_of(s, b),
        forall|key: Text| is_schema_word(key) ==> #[trigger] b.member(key) == a.member(key),
    ensures
        says_type_of(s, a),
{
    assert(b.member("type"@) == a.member("type"@));
    assert(b.member("items"@) == a.member("items"@));
    assert(b.member("schema"@) == a.member("schema"@));
    assert forall|key: Text| is_type_keyword(key) implies #[trigger] s.member(key) == (if a.has(
        key,
    ) {
        a.member(key)
    } else {
        (match a.member("schema"@) {
            Some(Json::Object(m)) => Json::Object(m),
            _ => Json::empty(),
        }).member(key)
    }) by {
        assert(b.member(key) == a.member(key));
    }
}

/// The collection format of a parameter is converted alike before and after its
/// extensions have been promoted.
proof fn formats_become_styles_alike(a: Json, b: Json, o: Settings)
    requires
        json::distinct(a.members()),
        json::distinct(b.members()),
        !is_format_word(o.warning_key()),
        !is_converted_word(o.warning_key()),
        a.member("type"@) == b.member("type"@),
        a.member("in"@) == b.member("in"@),
        forall|key: Text| is_format_word(key) ==> #[trigger] a.member(key) == b.member(key),
        parameter::collection_format_converted(b, o).2 is None,
    ensures
        parameter::collection_format_converted(a, o).2 is None,
        forall|key: Text| is_format_word(key) ==> #[trigger]
            parameter::collection_format_converted(a, o).0.member(key)
                == parameter::collection_format_converted(b, o).0.member(key),
{
    format_failures(a, o);
    format_failures(b, o);
    assert(a.member("collectionFormat"@) == b.member("collectionFormat"@));
    assert(format_of(a) == format_of(b));
    if format_of(a) is Some {
        formats_become_styles(a, o);
        formats_become_styles(b, o);
        assert(a.member("style"@) == b.member("style"@));
        assert(a.member("explode"@) == b.member("explode"@));
        assert(a.member("x-collectionFormat"@) == b.member("x-collectionFormat"@));
    }
}

/// A typed parameter that is converted has a schema made of its type, its items and
/// its type keywords, each with the value that the parameter had, and repaired after
/// that. None of these stay on the parameter. It is required where it stands in the
/// path. Its collection format and its extensions are converted, its other members
/// stay, and it makes no request body.
#[verifier::rlimit(60)]
pub proof fn typed_parameter_gets_schema(
    param: Json,
    op: Option<Json>,
    index: Text,
    openapi: Json,
    consumes: Seq<Text>,
    o: Settings,
)
    requires
        is_typed(param),
        json::text_of(json::member_of(op, "consumes"@)) is None,
        !is_converted_word(o.warning_key()),
        parameter::param_processed(param, op, index, openapi, consumes, o).3 is None,
    ensures
        ({
            let (r, op1, o1, e) = parameter::param_processed(
                param,
                op,
                index,
                openapi,
                consumes,
                o,
            );
            let skips = common::is_truthy(param.member("x-ms-skip-url-encoding"@)) && param.says(
                "in"@,
                "query"@,
            );
            &&& op1 == op
            &&& exists|s: Json, o2: Settings|
                r.member("schema"@) == Some((#[trigger] fixup::schema_fixed(s, o2)).0)
                    && says_type_of(s, param)
            &&& forall|key: Text| is_schema_word(key) && key != "schema"@ ==> !#[trigger] r.has(key)
            &&& forall|key: Text|
                is_format_word(key) || key == "x-deprecated"@ || key == "deprecated"@ || key
                    == "x-example"@ || key == "example"@ ==> #[trigger] r.member(key) == (
                if is_format_word(key) {
                    parameter::collection_format_converted(param, o).0.member(key)
                } else {
                    parameter::param_extensions_promoted(param).member(key)
                })
            &&& r.member("required"@) == (if param.says("in"@, "path"@) {
                Some(Json::Bool(true))
            } else {
                param.member("required"@)
            })
            &&& r.member("allowReserved"@) == (if skips {
                Some(Json::Bool(true))
            } else {
                param.member("allowReserved"@)
            })
            &&& r.member("x-ms-skip-url-encoding"@) == (if skips {
                None
            } else {
                param.member("x-ms-skip-url-encoding"@)
            })
            &&& forall|key: Text|
                !is_converted_word(key) && key != o.warning_key() ==> #[trigger] r.member(key)
                    == param.member(key)
            &&& r.member("in"@) == param.member("in"@)
            &&& r.member("description"@) == param.member("description"@)
        }),
{
    parameter_words();
    extensions_are_promoted(param);
    let j1 = parameter::param_extensions_promoted(param);
    promoted_is_typed(param);
    let (j, o1, e1) = parameter::schema_converted(j1, o);
    unfolded(param, op, index, openapi, consumes, o);
    let r = parameter::param_processed(param, op, index, openapi, consumes, o).0;
    formats_become_styles_alike(param, j1, o);
    schema_converted_schema(j1, o);
    let (s, o2) = choose|s: Json, o2: Settings|
        j.member("schema"@) == Some((#[trigger] fixup::schema_fixed(s, o2)).0) && says_type_of(
            s,
            j1,
        );
    says_alike(s, param, j1);
    schema_converted_member(j1, o, "in"@);
    schema_converted_member(j1, o, "x-s2o-delete"@);
    tidied_parameter(j, index, o1);
    assert forall|key: Text| key != o.warning_key() && key != "schema"@ implies #[trigger] r.member(
        key,
    ) == tidied_member(param, j1, o, key) by {
        schema_converted_member(j1, o, key);
    }
    assert(r.member("schema"@) == Some(fixup::schema_fixed(s, o2).0));
}

/// What a converted parameter has for a member other than its schema.
spec fn tidied_member(param: Json, j1: Json, o: Settings, key: Text) -> Option<Json> {
    let skips = common::is_truthy(param.member("x-ms-skip-url-encoding"@)) && param.says(
        "in"@,
        "query"@,
    );
    if key == "type"@ || key == "items"@ || is_type_keyword(key) {
        None
    } else if key == "required"@ && param.says("in"@, "path"@) {
        Some(Json::Bool(true))
    } else if is_format_word(key) {
        parameter::collection_format_converted(j1, o).0.member(key)
    } else if skips && key == "allowReserved"@ {
        Some(Json::Bool(true))
    } else if skips && key == "x-ms-skip-url-encoding"@ {
        None
    } else {
        j1.member(key)
    }
}

proof fn promoted_is_typed(param: Json)
    requires
        is_typed(param),
    ensures
        is_typed(parameter::param_extensions_promoted(param)),
        forall|key: Text|
            key != "x-deprecated"@ && key != "deprecated"@ && key != "x-example"@ && key
                != "example"@ ==> #[trigger] parameter::param_extensions_promoted(param).member(key)
                == param.member(key),
{
    parameter_words();
    extensions_are_promoted(param);
    let j1 = parameter::param_extensions_promoted(param);
    assert(j1.member("$ref"@) == param.member("$ref"@));
    assert(j1.member("in"@) == param.member("in"@));
    assert(j1.member("name"@) == param.member("name"@));
    assert(j1.member("type"@) == param.member("type"@));
    assert(j1.member("items"@) == param.member("items"@));
    assert(j1.member("schema"@) == param.member("schema"@));
    assert(j1.member("description"@) == param.member("description"@));
    assert(j1.member("x-s2o-delete"@) == param.member("x-s2o-delete"@));
}

/// The conversion of a typed parameter is that of its schema, tidied.
#[verifier::rlimit(60)]
proof fn unfolded(
    param: Json,
    op: Option<Json>,
    index: Text,
    openapi: Json,
    consumes: Seq<Text>,
    o: Settings,
)
    requires
        is_typed(param),
        json::text_of(json::member_of(op, "consumes"@)) is None,
        !is_converted_word(o.warning_key()),
        parameter::param_processed(param, op, index, openapi, consumes, o).3 is None,
    ensures
        ({
            let j1 = parameter::param_extensions_promoted(param);
            let (j, o1, e1) = parameter::schema_converted(j1, o);
            let (r, o2, e2) = parameter::param_tidied(j, index, o1);
            &&& e1 is None && e2 is None
            &&& parameter::collection_format_converted(j1, o).2 is None
            &&& parameter::param_processed(param, op, index, openapi, consumes, o) == (
                r,
                op,
                o2,
                None::<Text>,
            )
        }),
{
    reveal(parameter::param_processed);
    parameter_words();
    real_is_schema_converted(param, openapi, o);
    promoted_is_typed(param);
    let j1 = parameter::param_extensions_promoted(param);
    let (j, o1, e1) = parameter::schema_converted(j1, o);
    schema_converted_member(j1, o, "in"@);
    schema_converted_member(j1, o, "type"@);
    finished_in_place(j, op, index, consumes, o1);
}

/// A parameter that makes no request body is tidied.
proof fn finished_in_place(
    j: Json,
    op: Option<Json>,
    index: Text,
    consumes: Seq<Text>,
    o: Settings,
)
    requires
        !j.says("in"@, "formData"@),
        !j.says("in"@, "body"@),
        !j.says("type"@, "file"@),
    ensures
        ({
            let (r, o1, e) = parameter::param_tidied(j, index, o);
            parameter::param_finished(j, op, index, consumes, None, o) == (r, op, o1, e)
        }),
{
    assert(parameter::form_or_file_body(j, consumes, None) == Json::empty());
    assert(parameter::param_body(j, op, consumes, None, o) == (
        op,
        Json::empty(),
        o,
        None::<Text>,
    ));
}

} // verus!
