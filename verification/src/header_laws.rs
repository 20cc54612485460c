//! Laws of response headers.

use vstd::prelude::*;

use crate::common::{self, ARRAY_PROPERTIES, PARAMETER_TYPE_PROPERTIES};
use crate::convert::header;
use crate::json::{self, Json, Text};
use crate::laws;
use crate::options::Settings;
use crate::parameter_laws::{self, held_from, is_format_word, is_type_keyword};
use crate::path_laws;
use crate::text;

verus! {

/// The words that these laws speak of differ.
proof fn header_words()
    ensures
        "csv"@.len() == 3 && "csv"@[0] == 'c',
        "ssv"@.len() == 3 && "ssv"@[0] == 's',
        "tsv"@.len() == 3 && "tsv"@[0] == 't',
        "enum"@.len() == 4 && "enum"@[0] == 'e',
        "type"@.len() == 4 && "type"@[0] == 't',
        "$ref"@.len() == 4 && "$ref"@[0] == '$',
        "items"@.len() == 5 && "items"@[0] == 'i',
        "style"@.len() == 5 && "style"@[0] == 's',
        "pipes"@.len() == 5 && "pipes"@[0] == 'p',
        "multi"@.len() == 5 && "multi"@[0] == 'm',
        "array"@.len() == 5 && "array"@[0] == 'a',
        "format"@.len() == 6 && "format"@[1] == 'o',
        "schema"@.len() == 6 && "schema"@[1] == 'c',
        "simple"@.len() == 6 && "simple"@[1] == 'i',
        "minimum"@.len() == 7 && "minimum"@[2] == 'n',
        "maximum"@.len() == 7 && "maximum"@[2] == 'x',
        "pattern"@.len() == 7 && "pattern"@[2] == 't',
        "default"@.len() == 7 && "default"@[2] == 'f',
        "explode"@.len() == 7 && "explode"@[2] == 'p',
        "minItems"@.len() == 8 && "minItems"@[1] == 'i',
        "maxItems"@.len() == 8 && "maxItems"@[1] == 'a',
        "minLength"@.len() == 9 && "minLength"@[1] == 'i',
        "maxLength"@.len() == 9 && "maxLength"@[1] == 'a',
        "multipleOf"@.len() == 10,
        "uniqueItems"@.len() == 11 && "uniqueItems"@[0] == 'u',
        "description"@.len() == 11 && "description"@[0] == 'd',
        "minProperties"@.len() == 13 && "minProperties"@[1] == 'i',
        "maxProperties"@.len() == 13 && "maxProperties"@[1] == 'a',
        "exclusiveMinimum"@.len() == 16 && "exclusiveMinimum"@[10] == 'i',
        "exclusiveMaximum"@.len() == 16 && "exclusiveMaximum"@[10] == 'a',
        "collectionFormat"@.len() == 16 && "collectionFormat"@[10] == 'F',
        "x-collectionFormat"@.len() == 18,
        "additionalProperties"@.len() == 20,
{
    reveal_strlit("csv");
    reveal_strlit("ssv");
    reveal_strlit("tsv");
    reveal_strlit("enum");
    reveal_strlit("type");
    reveal_strlit("$ref");
    reveal_strlit("items");
    reveal_strlit("style");
    reveal_strlit("pipes");
    reveal_strlit("multi");
    reveal_strlit("array");
    reveal_strlit("format");
    reveal_strlit("schema");
    reveal_strlit("simple");
    reveal_strlit("minimum");
    reveal_strlit("maximum");
    reveal_strlit("pattern");
    reveal_strlit("default");
    reveal_strlit("explode");
    reveal_strlit("minItems");
    reveal_strlit("maxItems");
    reveal_strlit("minLength");
    reveal_strlit("maxLength");
    reveal_strlit("multipleOf");
    reveal_strlit("uniqueItems");
    reveal_strlit("description");
    reveal_strlit("minProperties");
    reveal_strlit("maxProperties");
    reveal_strlit("exclusiveMinimum");
    reveal_strlit("exclusiveMaximum");
    reveal_strlit("collectionFormat");
    reveal_strlit("x-collectionFormat");
    reveal_strlit("additionalProperties");
}

proof fn array_keywords_are_listed(key: Text)
    ensures
        held_from(common::words(ARRAY_PROPERTIES@), 0, key) == (key == "items"@ || key
            == "minItems"@ || key == "maxItems"@ || key == "uniqueItems"@),
{
    let ws = common::words(ARRAY_PROPERTIES@);
    assert(ws =~= seq!["items"@, "minItems"@, "maxItems"@, "uniqueItems"@]);
    assert(ws[0] == "items"@ && ws[1] == "minItems"@ && ws[2] == "maxItems"@ && ws[3]
        == "uniqueItems"@);
}

/// The member of the schema of a container.
pub open spec fn schema_member(j: Json, key: Text) -> Option<Json> {
    j.member2("schema"@, key)
}

proof fn props_are_moved(j: Json, props: Seq<Text>, i: nat)
    requires
        json::distinct(j.members()),
        !held_from(props, i, "schema"@),
    ensures
        ({
            let r = header::props_moved(j, props, i);
            &&& json::distinct(r.members())
            &&& forall|key: Text| key != "schema"@ ==> #[trigger] r.member(key) == (if held_from(
                props,
                i,
                key,
            ) {
                None
            } else {
                j.member(key)
            })
            &&& forall|key: Text| #[trigger]
                schema_member(r, key) == (if held_from(props, i, key) && j.has(key) {
                    j.member(key)
                } else {
                    schema_member(j, key)
                })
        }),
    decreases props.len() - i,
{
    broadcast use laws::group_members;

    if i < props.len() {
        let prop = props[i as int];
        assert(held_from(props, i, prop));
        let j1 = match j.member(prop) {
            Some(v) => header::schema_with(j, prop, v).without(prop),
            None => j,
        };
        assert forall|key: Text| #[trigger] held_from(props, i, key) == (key == prop || held_from(
            props,
            i + 1,
            key,
        )) by {
            if held_from(props, i, key) && key != prop {
                let q = choose|q: int| i <= q < props.len() && #[trigger] props[q] == key;
                assert(i + 1 <= q);
            }
        }
        props_are_moved(j1, props, i + 1);
        let r = header::props_moved(j, props, i);
        assert(r == header::props_moved(j1, props, i + 1));
        assert forall|key: Text| key != "schema"@ implies #[trigger] r.member(key) == (
        if held_from(props, i, key) {
            None
        } else {
            j.member(key)
        }) by {
            assert(held_from(props, i, key) == (key == prop || held_from(props, i + 1, key)));
            assert(j1.member(key) == (if key == prop {
                None
            } else {
                j.member(key)
            }));
        }
        assert forall|key: Text| #[trigger] schema_member(r, key) == (if held_from(props, i, key)
            && j.has(key) {
            j.member(key)
        } else {
            schema_member(j, key)
        }) by {
            assert(held_from(props, i, key) == (key == prop || held_from(props, i + 1, key)));
            assert(schema_member(j1, key) == (if key == prop && j.has(prop) {
                j.member(prop)
            } else {
                schema_member(j, key)
            }));
            assert(key != prop && key != "schema"@ ==> j1.member(key) == j.member(key));
        }
    }
}

/// Whether a keyword of a header belongs to its schema.
pub open spec fn is_header_keyword(key: Text) -> bool {
    is_type_keyword(key) || key == "type"@ || key == "items"@
}

proof fn header_props(j: Json)
    requires
        json::distinct(j.members()),
    ensures
        ({
            let r = header::header_props_moved(j);
            &&& json::distinct(r.members())
            &&& forall|key: Text| key != "schema"@ ==> #[trigger] r.member(key) == (
            if is_header_keyword(key) {
                None
            } else {
                j.member(key)
            })
            &&& forall|key: Text| #[trigger]
                schema_member(r, key) == (if is_header_keyword(key) && key != "type"@ && j.has(
                    key,
                ) {
                    j.member(key)
                } else {
                    schema_member(j, key)
                })
        }),
{
    broadcast use laws::group_members;

    header_words();
    let a = common::words(PARAMETER_TYPE_PROPERTIES@);
    let b = common::words(ARRAY_PROPERTIES@);
    parameter_laws::type_keywords_are_listed("schema"@);
    array_keywords_are_listed("schema"@);
    let j0 = j.without("type"@);
    props_are_moved(j0, a, 0);
    let j1 = header::props_moved(j0, a, 0);
    props_are_moved(j1, b, 0);
    let r = header::header_props_moved(j);
    assert forall|key: Text| key != "schema"@ implies #[trigger] r.member(key) == (
    if is_header_keyword(key) {
        None
    } else {
        j.member(key)
    }) by {
        parameter_laws::type_keywords_are_listed(key);
        array_keywords_are_listed(key);
        assert(j1.member(key) == (if held_from(a, 0, key) {
            None
        } else {
            j0.member(key)
        }));
    }
    assert forall|key: Text| #[trigger] schema_member(r, key) == (if is_header_keyword(key) && key
        != "type"@ && j.has(key) {
        j.member(key)
    } else {
        schema_member(j, key)
    }) by {
        parameter_laws::type_keywords_are_listed(key);
        array_keywords_are_listed(key);
        assert(schema_member(j0, key) == schema_member(j, key));
        assert(schema_member(j1, key) == (if held_from(a, 0, key) && j0.has(key) {
            j0.member(key)
        } else {
            schema_member(j0, key)
        }));
        assert(key != "schema"@ ==> j1.member(key) == (if held_from(a, 0, key) {
            None
        } else {
            j0.member(key)
        }));
    }
}

/// A header gets a schema with its type and its type keywords, each with its value, and
/// with its items. None of them stay on the header. An array without a collection format
/// that OpenAPI knows otherwise is in `simple` style, and one of format `multi`
/// explodes. The other members stay.
pub proof fn header_gets_schema(h: Json, o: Settings)
    requires
        json::distinct(h.members()),
        !h.has("$ref"@),
        !is_header_keyword(o.warning_key()) && !is_format_word(o.warning_key())
            && o.warning_key() != "schema"@,
        header::header_fixed(h, o).2 is None,
    ensures
        ({
            let r = header::header_fixed(h, o).0;
            let array = h.says("type"@, "array"@);
            let cf = h.text_member("collectionFormat"@);
            &&& forall|key: Text| is_header_keyword(key) || key == "collectionFormat"@ ==> #[trigger]
                r.member(key) is None
            &&& schema_member(r, "type"@) == (if h.text_member("type"@) is Some {
                h.member("type"@)
            } else {
                schema_member(h, "type"@)
            })
            &&& forall|key: Text| is_type_keyword(key) ==> #[trigger] schema_member(r, key) == (
            if h.has(key) {
                h.member(key)
            } else {
                schema_member(h, key)
            })
            &&& forall|key: Text| !is_header_keyword(key) ==> #[trigger] schema_member(r, key)
                == schema_member(h, key)
            &&& h.has("items"@) ==> schema_member(r, "items"@) is Some
            &&& r.member("style"@) == (if array && cf != Some("ssv"@) && cf != Some("pipes"@) && cf
                != Some("multi"@) && cf != Some("tsv"@) {
                Some(Json::String("simple"@))
            } else {
                h.member("style"@)
            })
            &&& r.member("explode"@) == (if array && cf == Some("multi"@) {
                Some(Json::Bool(true))
            } else {
                h.member("explode"@)
            })
            &&& r.member("x-collectionFormat"@) == (if array && cf == Some("tsv"@) {
                Some(Json::String("tsv"@))
            } else {
                h.member("x-collectionFormat"@)
            })
            &&& forall|key: Text|
                !is_header_keyword(key) && !is_format_word(key) && key != "schema"@ && key
                    != o.warning_key() ==> #[trigger] r.member(key) == h.member(key)
        }),
{
    broadcast use {laws::group_members, parameter_laws::warning_adds_member};

    header_words();
    let t = h.text_member("type"@);
    let j1 = match t {
        Some(s) => header::schema_with(h, "type"@, Json::String(s)),
        None => h,
    };
    assert(json::distinct(j1.members()));
    assert forall|key: Text| key != "schema"@ implies #[trigger] j1.member(key) == h.member(
        key,
    ) by {}
    assert forall|key: Text| #[trigger] schema_member(j1, key) == (if key == "type"@ && t is Some {
        h.member("type"@)
    } else {
        schema_member(h, key)
    }) by {}
    let (j2, e2) = header::items_format_dropped(j1, o);
    header_items(j1, o);
    let (j3, o3, e3) = header::header_format_fixed(j2, t == Some("array"@), o);
    header_format(j2, t == Some("array"@), o);
    header_props(j3);
    let r = header::header_fixed(h, o).0;
    assert(r == header::header_props_moved(j3));
    assert forall|key: Text| is_type_keyword(key) implies #[trigger] schema_member(r, key) == (
    if h.has(key) {
        h.member(key)
    } else {
        schema_member(h, key)
    }) by {
        assert(j3.member(key) == j2.member(key));
        assert(j2.member(key) == j1.member(key));
        assert(j1.member(key) == h.member(key));
        assert(schema_member(j1, key) == schema_member(h, key));
    }
    assert forall|key: Text|
        is_header_keyword(key) || key == "collectionFormat"@ implies #[trigger] r.member(
        key,
    ) is None by {
        if key == "collectionFormat"@ {
            assert(r.member(key) == j3.member(key));
        }
    }
    assert(j3.member("items"@) == j2.member("items"@));
}

proof fn header_items(j: Json, o: Settings)
    requires
        json::distinct(j.members()),
        o.warning_key() != "items"@ && o.warning_key() != "schema"@,
        header::items_format_dropped(j, o).1 is None,
    ensures
        ({
            let r = header::items_format_dropped(j, o).0;
            &&& json::distinct(r.members())
            &&& r.has("items"@) == j.has("items"@)
            &&& forall|key: Text| key != "items"@ && key != o.warning_key() ==> #[trigger] r.member(
                key,
            ) == j.member(key)
        }),
{
    broadcast use {laws::group_members, parameter_laws::warning_adds_member};

    header_words();
}

proof fn header_format(j: Json, array: bool, o: Settings)
    requires
        json::distinct(j.members()),
        !is_format_word(o.warning_key()),
        header::header_format_fixed(j, array, o).2 is None,
    ensures
        ({
            let r = header::header_format_fixed(j, array, o).0;
            let cf = j.text_member("collectionFormat"@);
            &&& json::distinct(r.members())
            &&& !r.has("collectionFormat"@)
            &&& r.member("style"@) == (if array && cf != Some("ssv"@) && cf != Some("pipes"@) && cf
                != Some("multi"@) && cf != Some("tsv"@) {
                Some(Json::String("simple"@))
            } else {
                j.member("style"@)
            })
            &&& r.member("explode"@) == (if array && cf == Some("multi"@) {
                Some(Json::Bool(true))
            } else {
                j.member("explode"@)
            })
            &&& r.member("x-collectionFormat"@) == (if array && cf == Some("tsv"@) {
                Some(Json::String("tsv"@))
            } else {
                j.member("x-collectionFormat"@)
            })
            &&& forall|key: Text| !is_format_word(key) && key != o.warning_key() ==> #[trigger]
                r.member(key) == j.member(key)
        }),
{
    broadcast use {laws::group_members, parameter_laws::warning_adds_member};

    header_words();
}

/// A header that is a reference keeps its members, and its reference to a response
/// leads to the component.
pub proof fn header_reference_moves(h: Json, rest: Text, o: Settings)
    requires
        h.text_member("$ref"@) == Some("#/responses/"@ + rest),
        !text::occurs(rest, "#/responses/"@),
    ensures
        ({
            let (r, o1, e) = header::header_fixed(h, o);
            &&& o1 == o && e is None
            &&& forall|key: Text| #[trigger]
                r.member(key) == (if key == "$ref"@ {
                    Some(Json::String("#/components/responses/"@ + rest))
                } else {
                    h.member(key)
                })
        }),
{
    broadcast use laws::group_members;

    reveal_strlit("#/responses/");
    path_laws::replace_first(rest, "#/responses/"@, "#/components/responses/"@);
    nothing_replaced(rest, "#/responses/"@, "#/components/responses/"@, 0);
    assert(rest.skip(0) =~= rest);
}

/// A text in which a pattern does not occur stays as it is.
proof fn nothing_replaced(s: Text, pat: Text, to: Text, i: int)
    requires
        0 <= i <= s.len(),
        text::find_from(s, pat, i) is None,
    ensures
        text::replace_from(s, pat, to, i) == s.skip(i),
    decreases s.len() - i,
{
    if i < s.len() {
        assert(!text::stands_at(s, pat, i));
        nothing_replaced(s, pat, to, i + 1);
        assert(seq![s[i]] + s.skip(i + 1) =~= s.skip(i));
    } else {
        assert(s.skip(i) =~= Seq::empty());
    }
}

} // verus!
