//! Laws of responses.

use vstd::prelude::*;

use crate::convert::body;
use crate::convert::header;
use crate::convert::operation;
use crate::convert::response;
use crate::fixup;
use crate::json::{self, Json, Members, Text};
use crate::laws;
use crate::name_laws;
use crate::options::Settings;
use crate::parameter_laws::held_from;
use crate::text;

verus! {

/// The words that these laws speak of differ.
proof fn response_words()
    ensures
        ""@.len() == 0,
        "*/*"@.len() == 3,
        "$ref"@.len() == 4 && "$ref"@[0] == '$',
        "type"@.len() == 4 && "type"@[0] == 't',
        "file"@.len() == 4 && "file"@[0] == 'f',
        "value"@.len() == 5,
        "schema"@.len() == 6 && "schema"@[1] == 'c',
        "format"@.len() == 6 && "format"@[1] == 'o',
        "string"@.len() == 6 && "string"@[1] == 't',
        "binary"@.len() == 6 && "binary"@[1] == 'i',
        "content"@.len() == 7 && "content"@[0] == 'c',
        "headers"@.len() == 7 && "headers"@[0] == 'h',
        "examples"@.len() == 8 && "examples"@[0] == 'e',
        "response"@.len() == 8 && "response"@[0] == 'r',
        "produces"@.len() == 8 && "produces"@[0] == 'p',
        "description"@.len() == 11,
{
    reveal_strlit("");
    reveal_strlit("*/*");
    reveal_strlit("$ref");
    reveal_strlit("type");
    reveal_strlit("file");
    reveal_strlit("value");
    reveal_strlit("schema");
    reveal_strlit("format");
    reveal_strlit("string");
    reveal_strlit("binary");
    reveal_strlit("content");
    reveal_strlit("headers");
    reveal_strlit("examples");
    reveal_strlit("response");
    reveal_strlit("produces");
    reveal_strlit("description");
}

// --- media types -----------------------------------------------------------

/// Whether an array holds the string `t`.
pub open spec fn holds_text(j: Json, t: Text) -> bool {
    j matches Json::Array(a) && exists|k: int|
        0 <= k < a.len() && #[trigger] a[k] == Json::String(t)
}

/// Whether an operation lists the media type `t` under `key`, or else the document
/// does. A list of the operation goes before that of the document.
pub open spec fn lists_type(op: Option<Json>, openapi: Json, key: Text, t: Text) -> bool {
    match json::member_of(op, key) {
        Some(Json::Array(a)) => holds_text(Json::Array(a), t),
        Some(Json::String(s)) => t == s,
        _ => match openapi.member(key) {
            Some(v) => holds_text(v, t),
            None => false,
        },
    }
}

proof fn strings_are_held(a: Seq<Json>, i: nat, t: Text)
    ensures
        body::strings_from(a, i).contains(t) == exists|k: int|
            i <= k < a.len() && #[trigger] a[k] == Json::String(t),
    decreases a.len() - i,
{
    if i < a.len() {
        strings_are_held(a, i + 1, t);
        let rest = body::strings_from(a, i + 1);
        if let Json::String(s) = a[i as int] {
            let all = seq![s] + rest;
            if rest.contains(t) {
                let q = choose|q: int| 0 <= q < rest.len() && rest[q] == t;
                assert(all[q + 1] == t);
            }
            if s == t {
                assert(all[0] == t);
            }
            if all.contains(t) && s != t {
                let q = choose|q: int| 0 <= q < all.len() && all[q] == t;
                assert(rest[q - 1] == t);
            }
        }
        if exists|k: int| i <= k < a.len() && #[trigger] a[k] == Json::String(t) {
            let k = choose|k: int| i <= k < a.len() && #[trigger] a[k] == Json::String(t);
            if k > i {
                assert(i + 1 <= k);
            }
        }
    }
}

/// The media types of an operation are those that it lists, or else those that the
/// document lists, each once.
pub proof fn media_types_are_listed(op: Option<Json>, openapi: Json, key: Text, t: Text)
    requires
        !(json::member_of(op, key) matches Some(Json::String(_))),
    ensures
        body::media_types(op, openapi, key).no_duplicates(),
        body::media_types(op, openapi, key).contains(t) == lists_type(op, openapi, key, t),
{
    match (json::member_of(op, key), openapi.member(key)) {
        (Some(Json::Array(a)), _) => {
            name_laws::firsts_are_unique(body::strings_from(a, 0));
            strings_are_held(a, 0, t);
        },
        (_, Some(Json::Array(a))) => {
            name_laws::firsts_are_unique(body::strings_from(a, 0));
            strings_are_held(a, 0, t);
        },
        _ => {},
    }
}

/// The media types of a response: those that are listed, or any.
proof fn response_types_are_listed(op: Option<Json>, openapi: Json, o: Settings, t: Text)
    requires
        response::produced(op, openapi, o).2 is None,
    ensures
        ({
            let types = response::response_types(response::produced(op, openapi, o).0);
            let all = response::produced(op, openapi, o).0;
            &&& types.no_duplicates()
            &&& all.contains(t) == lists_type(op, openapi, "produces"@, t)
            &&& all.len() > 0 ==> types == all
            &&& all.len() == 0 ==> types == seq!["*/*"@]
        }),
{
    if json::text_of(json::member_of(op, "produces"@)) is Some {
        let s = json::text_of(json::member_of(op, "produces"@))->0;
        assert(seq![s][0] == s);
    } else {
        media_types_are_listed(op, openapi, "produces"@, t);
    }
}

// --- content ---------------------------------------------------------------

/// The example of a response for a media type.
pub open spec fn example_of(response: Json, t: Text) -> Option<Json> {
    response.member2("examples"@, t)
}

/// Whether the names of a response and of its examples are distinct.
pub open spec fn is_response(response: Json) -> bool {
    &&& json::distinct(response.members())
    &&& response.member("examples"@) matches Some(e) ==> json::distinct(e.members())
}

/// The content of one media type: a schema, and the example where there is one.
pub open spec fn is_media(media: Option<Json>, schema: Json, example: Option<Json>) -> bool {
    media matches Some(m) && forall|key: Text| #[trigger]
        m.member(key) == (if key == "schema"@ {
            Some(schema)
        } else if key == "examples"@ && example is Some {
            Some(Json::single("response"@, Json::single("value"@, example->0)))
        } else {
            None
        })
}

proof fn held_next(list: Seq<Text>, i: nat)
    requires
        i < list.len(),
    ensures
        forall|t: Text| #[trigger]
            held_from(list, i, t) == (t == list[i as int] || held_from(list, i + 1, t)),
{
    assert forall|t: Text| #[trigger]
        held_from(list, i, t) == (t == list[i as int] || held_from(list, i + 1, t)) by {
        if held_from(list, i, t) && t != list[i as int] {
            let q = choose|q: int| i <= q < list.len() && #[trigger] list[q] == t;
            assert(i + 1 <= q);
        }
    }
}

proof fn media_is_added(r: Json, schema: Json, types: Seq<Text>, i: nat)
    requires
        is_response(r),
        r.has("content"@),
        types.no_duplicates(),
    ensures
        ({
            let x = response::media_added(r, schema, types, i);
            &&& is_response(x)
            &&& x.has("content"@)
            &&& i < types.len() ==> x.member("content"@)->0 is Object
            &&& forall|t: Text| #[trigger] held_from(types, i, t) ==> is_media(
                x.member("content"@)->0.member(t),
                response::media_schema(schema),
                example_of(r, t),
            )
            &&& forall|t: Text| !held_from(types, i, t) ==> #[trigger]
                x.member("content"@)->0.member(t) == r.member("content"@)->0.member(t)
            &&& forall|t: Text| #[trigger]
                example_of(x, t) == (if held_from(types, i, t) {
                    None
                } else {
                    example_of(r, t)
                })
            &&& forall|key: Text| key != "content"@ && key != "examples"@ ==> #[trigger] x.member(
                key,
            ) == r.member(key)
            &&& x.has("examples"@) == r.has("examples"@)
        }),
    decreases types.len() - i,
{
    broadcast use laws::group_members;

    response_words();
    if i < types.len() {
        held_next(types, i);
        let mt = types[i as int];
        let ct = response::media_content(r, schema, mt);
        let r1 = response::example_taken(r, mt);
        let r2 = r1.with("content"@, r1.member("content"@)->0.with(mt, ct));
        assert(is_media(Some(ct), response::media_schema(schema), example_of(r, mt)));
        assert forall|t: Text| #[trigger] example_of(r2, t) == (if t == mt {
            None
        } else {
            example_of(r, t)
        }) by {
            if let Some(e) = r.member("examples"@) {
                if e.member(mt) is Some {
                    assert(e.dropped(mt) == e.without(mt));
                }
            }
        }
        assert(is_response(r2)) by {
            if let Some(e) = r.member("examples"@) {
                if e.member(mt) is Some {
                    assert(e.dropped(mt) == e.without(mt));
                }
            }
        }
        media_is_added(r2, schema, types, i + 1);
        let x = response::media_added(r, schema, types, i);
        assert(x == response::media_added(r2, schema, types, i + 1));
        assert(!held_from(types, i + 1, mt));
        assert forall|t: Text| #[trigger] held_from(types, i, t) implies is_media(
            x.member("content"@)->0.member(t),
            response::media_schema(schema),
            example_of(r, t),
        ) by {
            if t == mt {
                assert(x.member("content"@)->0.member(t) == r2.member("content"@)->0.member(t));
            } else {
                assert(held_from(types, i + 1, t));
                assert(example_of(r2, t) == example_of(r, t));
            }
        }
        assert forall|t: Text| !held_from(types, i, t) implies #[trigger]
            x.member("content"@)->0.member(t) == r.member("content"@)->0.member(t) by {
            assert(held_from(types, i, t) == (t == mt || held_from(types, i + 1, t)));
            assert(x.member("content"@)->0.member(t) == r2.member("content"@)->0.member(t));
        }
        assert forall|t: Text| #[trigger] example_of(x, t) == (if held_from(types, i, t) {
            None
        } else {
            example_of(r, t)
        }) by {
            assert(held_from(types, i, t) == (t == mt || held_from(types, i + 1, t)));
            assert(example_of(r2, t) == (if t == mt {
                None
            } else {
                example_of(r, t)
            }));
        }
        assert forall|key: Text| key != "content"@ && key != "examples"@ implies #[trigger]
            x.member(key) == r.member(key) by {
            assert(r2.member(key) == r.member(key));
        }
    }
}

/// The schema of a response as it stands under each media type: a file is a binary
/// string.
pub open spec fn stands_for(s: Json, schema: Json) -> bool {
    if schema.says("type"@, "file"@) {
        forall|key: Text| #[trigger]
            s.member(key) == (if key == "type"@ {
                Some(Json::String("string"@))
            } else if key == "format"@ {
                Some(Json::String("binary"@))
            } else {
                None
            })
    } else {
        s == schema
    }
}

/// The schema of a response becomes content: one entry for each media type that the
/// operation, or else the document, lists in `produces`, and one for any media type
/// where none is listed. Each entry holds the repaired schema, and the example of the
/// response for that media type. The schema itself goes.
pub proof fn schema_becomes_content(response: Json, op: Option<Json>, openapi: Json, o: Settings)
    requires
        is_response(response),
        response.has("schema"@),
        response::schema_to_content(response, op, openapi, o).2 is None,
        !(json::text_of(
            fixup::schema_fixed(response.member("schema"@)->0, o).0.member("$ref"@),
        ) matches Some(r) && text::starts(r, "#/responses/"@)),
    ensures
        ({
            let r = response::schema_to_content(response, op, openapi, o).0;
            let fixed = fixup::schema_fixed(response.member("schema"@)->0, o).0;
            let content = r.member("content"@)->0;
            let listed = |t: Text| lists_type(op, openapi, "produces"@, t);
            let any = forall|t: Text| !#[trigger] lists_type(op, openapi, "produces"@, t);
            let here = |t: Text| listed(t) || (any && t == "*/*"@);
            &&& is_response(r)
            &&& !r.has("schema"@)
            &&& r.member("content"@) matches Some(Json::Object(_))
            &&& exists|s: Json| #[trigger] stands_for(s, fixed) && forall|t: Text|
                here(t) ==> is_media(#[trigger] content.member(t), s, example_of(response, t))
            &&& forall|t: Text| #[trigger] content.has(t) == here(t)
            &&& forall|t: Text| #[trigger]
                example_of(r, t) == (if here(t) {
                    None
                } else {
                    example_of(response, t)
                })
            &&& forall|key: Text|
                key != "content"@ && key != "examples"@ && key != "schema"@ ==> #[trigger] r.member(
                    key,
                ) == response.member(key)
        }),
{
    broadcast use laws::group_members;

    response_words();
    let (fixed, o1, e1) = fixup::schema_fixed(response.member("schema"@)->0, o);
    let r1 = response.with("schema"@, fixed);
    assert(response::schema_ref_fixed(r1) == r1);
    let (all, o2, e2) = response::produced(op, openapi, o1);
    let types = response::response_types(all);
    let r2 = r1.with("content"@, Json::empty());
    assert(is_response(r2));
    response_types_are_listed(op, openapi, o1, "*/*"@);
    media_is_added(r2, fixed, types, 0);
    let r3 = response::media_added(r2, fixed, types, 0);
    let r = response::schema_to_content(response, op, openapi, o).0;
    assert(r == r3.without("schema"@));
    let content = r.member("content"@)->0;
    let any = forall|t: Text| !#[trigger] lists_type(op, openapi, "produces"@, t);
    assert(any == (all.len() == 0)) by {
        if all.len() > 0 {
            response_types_are_listed(op, openapi, o1, all[0]);
            assert(lists_type(op, openapi, "produces"@, all[0]));
        }
        assert forall|t: Text| all.len() == 0 implies !#[trigger] lists_type(
            op,
            openapi,
            "produces"@,
            t,
        ) by {
            response_types_are_listed(op, openapi, o1, t);
        }
    }
    assert forall|t: Text| #[trigger] held_from(types, 0, t) == (lists_type(
        op,
        openapi,
        "produces"@,
        t,
    ) || (any && t == "*/*"@)) by {
        response_types_are_listed(op, openapi, o1, t);
        if all.len() == 0 {
            assert(types[0] == "*/*"@);
        } else {
            if all.contains(t) {
                let q = choose|q: int| 0 <= q < all.len() && all[q] == t;
                assert(types[q] == t);
            }
        }
    }
    let s = response::media_schema(fixed);
    assert(stands_for(s, fixed));
    assert forall|t: Text| held_from(types, 0, t) implies is_media(
        #[trigger] content.member(t),
        s,
        example_of(response, t),
    ) by {
        assert(example_of(r2, t) == example_of(response, t));
    }
    assert forall|t: Text| #[trigger] content.has(t) == (lists_type(op, openapi, "produces"@, t)
        || (any && t == "*/*"@)) by {
        assert(held_from(types, 0, t) == (lists_type(op, openapi, "produces"@, t) || (any && t
            == "*/*"@)));
        if !held_from(types, 0, t) {
            assert(content.member(t) == r2.member("content"@)->0.member(t));
        }
    }
    assert forall|t: Text| #[trigger] example_of(r, t) == (if lists_type(
        op,
        openapi,
        "produces"@,
        t,
    ) || (any && t == "*/*"@) {
        None
    } else {
        example_of(response, t)
    }) by {
        assert(example_of(r3, t) == example_of(r, t));
        assert(held_from(types, 0, t) == (lists_type(op, openapi, "produces"@, t) || (any && t
            == "*/*"@)));
        assert(example_of(r2, t) == example_of(response, t));
    }
}

// --- examples --------------------------------------------------------------

/// The content of a response under a media type.
pub open spec fn media_of(response: Json, t: Text) -> Option<Json> {
    response.member2("content"@, t)
}

/// Whether the members of a list from position `i` on hold `key`.
pub open spec fn named_from(m: Members, i: nat, key: Text) -> bool {
    exists|q: int| i <= q < m.len() && #[trigger] m[q].0 == key
}

proof fn named_next(m: Members, i: nat)
    requires
        i < m.len(),
    ensures
        forall|t: Text| #[trigger]
            named_from(m, i, t) == (t == m[i as int].0 || named_from(m, i + 1, t)),
{
    assert forall|t: Text| #[trigger]
        named_from(m, i, t) == (t == m[i as int].0 || named_from(m, i + 1, t)) by {
        if named_from(m, i, t) && t != m[i as int].0 {
            let q = choose|q: int| i <= q < m.len() && #[trigger] m[q].0 == t;
            assert(i + 1 <= q);
        }
    }
}

/// A member of an object without repeated names is the one that is looked up.
pub proof fn named_is_looked_up(m: Members, q: int)
    requires
        json::distinct(m),
        0 <= q < m.len(),
    ensures
        json::lookup(m, m[q].0) == Some(m[q].1),
{
    laws::index_is_first(m, m[q].0, 0, q);
}

/// What is looked up in an object is one of its members.
pub proof fn looked_up_is_named(m: Members, key: Text)
    ensures
        named_from(m, 0, key) == json::lookup(m, key) is Some,
{
    laws::index_found(m, key, 0);
    if json::has_key(m, key) {
        assert(m[json::index_of(m, key)].0 == key);
    }
    if named_from(m, 0, key) {
        let q = choose|q: int| 0 <= q < m.len() && #[trigger] m[q].0 == key;
        if !json::has_key(m, key) {
            assert(m[q].0 != key);
        }
    }
}

proof fn examples_are_added(r: Json, m: Members, i: nat)
    requires
        json::distinct(r.members()),
        json::distinct(m),
    ensures
        ({
            let x = response::examples_from(r, m, i);
            &&& json::distinct(x.members())
            &&& forall|t: Text| !named_from(m, i, t) ==> #[trigger] media_of(x, t) == media_of(r, t)
            &&& forall|t: Text| #[trigger] named_from(m, i, t) ==> media_of(x, t) is Some
            &&& forall|t: Text, key: Text|
                named_from(m, i, t) ==> #[trigger] media_of(x, t)->0.member(key) == (if key
                    == "examples"@ {
                    Some(
                        Json::single("response"@, Json::single("value"@, json::lookup(m, t)->0)),
                    )
                } else {
                    json::member_of(media_of(r, t), key)
                })
            &&& forall|key: Text| key != "content"@ ==> #[trigger] x.member(key) == r.member(key)
            &&& x.has("content"@) == (r.has("content"@) || i < m.len())
        }),
    decreases m.len() - i,
{
    broadcast use laws::group_members;

    response_words();
    if i < m.len() {
        named_next(m, i);
        let (mt, v) = m[i as int];
        let r1 = response::example_added(r, mt, v);
        named_is_looked_up(m, i as int);
        examples_are_added(r1, m, i + 1);
        let x = response::examples_from(r, m, i);
        assert(x == response::examples_from(r1, m, i + 1));
        assert(!named_from(m, i + 1, mt)) by {
            if named_from(m, i + 1, mt) {
                let q = choose|q: int| i + 1 <= q < m.len() && #[trigger] m[q].0 == mt;
                assert(m[i as int].0 == m[q].0);
            }
        }
        assert(media_of(r1, mt) is Some);
        assert forall|t: Text| t != mt implies #[trigger] media_of(r1, t) == media_of(r, t) by {}
        assert forall|key: Text| #[trigger] media_of(r1, mt)->0.member(key) == (if key
            == "examples"@ {
            Some(Json::single("response"@, Json::single("value"@, v)))
        } else {
            json::member_of(media_of(r, mt), key)
        }) by {}
        assert forall|t: Text| !named_from(m, i, t) implies #[trigger] media_of(x, t) == media_of(
            r,
            t,
        ) by {
            assert(named_from(m, i, t) == (t == mt || named_from(m, i + 1, t)));
            assert(media_of(r1, t) == media_of(r, t));
        }
        assert forall|t: Text| #[trigger] named_from(m, i, t) implies media_of(x, t) is Some by {
            if t == mt {
                assert(media_of(x, t) == media_of(r1, t));
            } else {
                assert(named_from(m, i + 1, t));
            }
        }
        assert forall|t: Text, key: Text| named_from(m, i, t) implies #[trigger] media_of(
            x,
            t,
        )->0.member(key) == (if key == "examples"@ {
            Some(Json::single("response"@, Json::single("value"@, json::lookup(m, t)->0)))
        } else {
            json::member_of(media_of(r, t), key)
        }) by {
            if t == mt {
                assert(media_of(x, t) == media_of(r1, t));
                assert(media_of(r1, mt)->0.member(key) == (if key == "examples"@ {
                    Some(Json::single("response"@, Json::single("value"@, v)))
                } else {
                    json::member_of(media_of(r, mt), key)
                }));
            } else {
                assert(named_from(m, i + 1, t));
                assert(media_of(r1, t) == media_of(r, t));
            }
        }
        assert forall|key: Text| key != "content"@ implies #[trigger] x.member(key) == r.member(
            key,
        ) by {
            assert(r1.member(key) == r.member(key));
        }
    }
}

/// Every example of a response stands in the content of its media type, and what the
/// content has besides stays. The examples themselves go.
pub proof fn examples_become_content(r: Json)
    requires
        is_response(r),
    ensures
        ({
            let x = response::examples_moved(r);
            &&& json::distinct(x.members())
            &&& !x.has("examples"@)
            &&& forall|t: Text| example_of(r, t) is None ==> #[trigger] media_of(x, t) == media_of(
                r,
                t,
            )
            &&& forall|t: Text| example_of(r, t) is Some ==> (#[trigger] media_of(x, t)) is Some
            &&& forall|t: Text, key: Text|
                example_of(r, t) is Some ==> #[trigger] media_of(x, t)->0.member(key) == (if key
                    == "examples"@ {
                    Some(Json::single("response"@, Json::single("value"@, example_of(r, t)->0)))
                } else {
                    json::member_of(media_of(r, t), key)
                })
            &&& forall|key: Text|
                key != "content"@ && key != "examples"@ ==> #[trigger] x.member(key) == r.member(
                    key,
                )
        }),
{
    broadcast use laws::group_members;

    response_words();
    let m = json::value_or(r.member("examples"@), Json::Null).members();
    examples_are_added(r, m, 0);
    let x0 = response::examples_from(r, m, 0);
    let x = response::examples_moved(r);
    assert forall|t: Text| #[trigger] named_from(m, 0, t) == example_of(r, t) is Some by {
        looked_up_is_named(m, t);
    }
    assert forall|t: Text| #[trigger] media_of(x, t) == media_of(x0, t) by {}
    assert forall|t: Text| example_of(r, t) is None implies #[trigger] media_of(x, t) == media_of(
        r,
        t,
    ) by {
        assert(!named_from(m, 0, t));
        assert(media_of(x0, t) == media_of(r, t));
    }
    assert forall|t: Text| example_of(r, t) is Some implies (#[trigger] media_of(x, t)) is Some by {
        assert(named_from(m, 0, t));
    }
    assert forall|t: Text, key: Text| example_of(r, t) is Some implies #[trigger] media_of(
        x,
        t,
    )->0.member(key) == (if key == "examples"@ {
        Some(Json::single("response"@, Json::single("value"@, example_of(r, t)->0)))
    } else {
        json::member_of(media_of(r, t), key)
    }) by {
        assert(named_from(m, 0, t));
        assert(media_of(x0, t)->0.member(key) == (if key == "examples"@ {
            Some(Json::single("response"@, Json::single("value"@, json::lookup(m, t)->0)))
        } else {
            json::member_of(media_of(r, t), key)
        }));
    }
}

// --- headers ---------------------------------------------------------------

proof fn headers_are_fixed(r: Json, names: Seq<Text>, i: nat, o: Settings)
    requires
        json::distinct(r.members()),
        r.member("headers"@) matches Some(h) ==> json::distinct(h.members()),
        names.no_duplicates(),
        response::headers_from(r, names, i, o).2 is None,
    ensures
        ({
            let x = response::headers_from(r, names, i, o).0;
            &&& json::distinct(x.members())
            &&& forall|key: Text| key != "headers"@ ==> #[trigger] x.member(key) == r.member(key)
            &&& forall|h: Text|
                !held_from(names, i, h) ==> #[trigger] x.member2("headers"@, h) == r.member2(
                    "headers"@,
                    h,
                )
            &&& forall|h: Text| #[trigger]
                held_from(names, i, h) ==> is_header_of(
                    x.member2("headers"@, h),
                    h,
                    r.member2("headers"@, h),
                )
        }),
    decreases names.len() - i,
{
    broadcast use laws::group_members;

    response_words();
    if i < names.len() {
        held_next(names, i);
        let h0 = names[i as int];
        let x = response::headers_from(r, names, i, o).0;
        assert(!held_from(names, i + 1, h0));
        let (r1, o1) = if text::lowercase(h0) == "status code"@ {
            (
                match r.member("headers"@) {
                    Some(hs) => r.with("headers"@, hs.dropped(h0)),
                    None => r,
                },
                o.patched(),
            )
        } else {
            match r.member2("headers"@, h0) {
                Some(v) => (
                    r.with(
                        "headers"@,
                        r.member("headers"@)->0.with(h0, header::header_fixed(v, o).0),
                    ),
                    header::header_fixed(v, o).1,
                ),
                None => (r, o),
            }
        };
        assert(response::headers_from(r, names, i, o) == response::headers_from(
            r1,
            names,
            i + 1,
            o1,
        ));
        if let Some(hs) = r.member("headers"@) {
            if hs is Object {
                assert(hs.dropped(h0) == hs.without(h0));
            }
        }
        assert(json::distinct(r1.members()));
        assert(r1.member("headers"@) matches Some(h) ==> json::distinct(h.members()));
        assert(is_header_of(r1.member2("headers"@, h0), h0, r.member2("headers"@, h0))) by {
            if text::lowercase(h0) != "status code"@ {
                if let Some(v) = r.member2("headers"@, h0) {
                    assert(is_fixed_header(header::header_fixed(v, o).0, v));
                }
            }
        }
        assert forall|h: Text| h != h0 implies #[trigger] r1.member2("headers"@, h) == r.member2(
            "headers"@,
            h,
        ) by {}
        headers_are_fixed(r1, names, i + 1, o1);
        assert forall|h: Text| !held_from(names, i, h) implies #[trigger] x.member2("headers"@, h)
            == r.member2("headers"@, h) by {
            assert(held_from(names, i, h) == (h == h0 || held_from(names, i + 1, h)));
            assert(r1.member2("headers"@, h) == r.member2("headers"@, h));
        }
        assert forall|h: Text| #[trigger] held_from(names, i, h) implies is_header_of(
            x.member2("headers"@, h),
            h,
            r.member2("headers"@, h),
        ) by {
            if h == h0 {
                assert(x.member2("headers"@, h) == r1.member2("headers"@, h));
            } else {
                assert(held_from(names, i + 1, h));
                assert(r1.member2("headers"@, h) == r.member2("headers"@, h));
            }
        }
        assert forall|key: Text| key != "headers"@ implies #[trigger] x.member(key) == r.member(
            key,
        ) by {
            assert(r1.member(key) == r.member(key));
        }
    }
}

/// Whether a header is a converted one.
pub open spec fn is_fixed_header(x: Json, header: Json) -> bool {
    exists|o: Settings| x == (#[trigger] header::header_fixed(header, o)).0
}

/// What becomes of a header: the status code goes, and any other is converted.
pub open spec fn is_header_of(x: Option<Json>, name: Text, header: Option<Json>) -> bool {
    if text::lowercase(name) == "status code"@ {
        x is None
    } else {
        match (x, header) {
            (Some(v), Some(h)) => is_fixed_header(v, h),
            (None, None) => true,
            _ => false,
        }
    }
}

/// Every header of a response is converted under its name, but the status code, which
/// goes. Nothing else of the response changes.
pub proof fn headers_stay_under_their_names(r: Json, o: Settings)
    requires
        json::distinct(r.members()),
        r.member("headers"@) matches Some(h) ==> json::distinct(h.members()),
        response::headers_processed(r, o).2 is None,
    ensures
        ({
            let x = response::headers_processed(r, o).0;
            &&& forall|h: Text|
                r.member2("headers"@, h) is Some ==> is_header_of(
                    #[trigger] x.member2("headers"@, h),
                    h,
                    r.member2("headers"@, h),
                )
            &&& forall|h: Text|
                r.member2("headers"@, h) is None ==> (#[trigger] x.member2("headers"@, h)) is None
            &&& forall|key: Text| key != "headers"@ ==> #[trigger] x.member(key) == r.member(key)
        }),
{
    let m = json::value_or(r.member("headers"@), Json::Null).members();
    let names = json::keys(m);
    assert(names.no_duplicates()) by {
        assert forall|a: int, b: int|
            0 <= a < names.len() && 0 <= b < names.len() && a != b implies names[a]
            != names[b] by {
            assert(m[a].0 == names[a] && m[b].0 == names[b]);
        }
    }
    headers_are_fixed(r, names, 0, o);
    let x = response::headers_processed(r, o).0;
    assert forall|h: Text| #[trigger] held_from(names, 0, h) == r.member2(
        "headers"@,
        h,
    ) is Some by {
        looked_up_is_named(m, h);
        if named_from(m, 0, h) {
            let q = choose|q: int| 0 <= q < m.len() && #[trigger] m[q].0 == h;
            assert(names[q] == h);
        }
        if held_from(names, 0, h) {
            let q = choose|q: int| 0 <= q < names.len() && #[trigger] names[q] == h;
            assert(m[q].0 == h);
        }
    }
    assert forall|h: Text| r.member2("headers"@, h) is Some implies is_header_of(
        #[trigger] x.member2("headers"@, h),
        h,
        r.member2("headers"@, h),
    ) by {
        assert(held_from(names, 0, h));
    }
    assert forall|h: Text| r.member2("headers"@, h) is None implies (#[trigger] x.member2(
        "headers"@,
        h,
    )) is None by {
        assert(!held_from(names, 0, h));
    }
}

// --- whole responses -------------------------------------------------------

/// Whether a response lacks a description. Under `patch` an empty one is none.
pub open spec fn lacks_description(response: Json, o: Settings) -> bool {
    match response.member("description"@) {
        Some(Json::Null) => true,
        Some(Json::String(s)) => o.patch && s.len() == 0,
        Some(_) => false,
        None => true,
    }
}

/// The settings after a description has been supplied.
pub open spec fn described(response: Json, o: Settings) -> Settings {
    if lacks_description(response, o) {
        o.patched()
    } else {
        o
    }
}

/// A response with a schema that is converted has content for each media type that is
/// listed in `produces`, or for any, with the repaired schema, and for each media type
/// of which it has an example, with that example, and for no other. It has a
/// description, an empty one where it had none. Its schema and its examples go, and
/// everything but its headers stays.
pub proof fn response_gets_content(response: Json, op: Option<Json>, openapi: Json, o: Settings)
    requires
        response is Object,
        is_response(response),
        response.member("headers"@) matches Some(h) ==> json::distinct(h.members()),
        response.text_member("$ref"@) is None,
        response.has("schema"@),
        response::response_processed(response, op, openapi, o).2 is None,
        !(json::text_of(
            fixup::schema_fixed(response.member("schema"@)->0, described(response, o)).0.member(
                "$ref"@,
            ),
        ) matches Some(r) && text::starts(r, "#/responses/"@)),
    ensures
        ({
            let r = response::response_processed(response, op, openapi, o).0;
            let fixed = fixup::schema_fixed(
                response.member("schema"@)->0,
                described(response, o),
            ).0;
            let any = forall|t: Text| !#[trigger] lists_type(op, openapi, "produces"@, t);
            let here = |t: Text|
                lists_type(op, openapi, "produces"@, t) || (any && t == "*/*"@);
            &&& exists|s: Json| #[trigger] stands_for(s, fixed) && forall|t: Text|
                here(t) ==> is_media(#[trigger] media_of(r, t), s, example_of(response, t))
            &&& forall|t: Text|
                (#[trigger] media_of(r, t)) is Some == (here(t) || example_of(response, t) is Some)
            &&& forall|t: Text| example_of(response, t) matches Some(v) ==> #[trigger] media_of(
                r,
                t,
            )->0.member("examples"@) == Some(
                Json::single("response"@, Json::single("value"@, v)),
            )
            &&& !r.has("schema"@) && !r.has("examples"@)
            &&& r.member("description"@) == (if lacks_description(response, o) {
                Some(Json::String(""@))
            } else {
                response.member("description"@)
            })
            &&& forall|key: Text|
                key != "content"@ && key != "examples"@ && key != "schema"@ && key != "description"@
                    && key != "headers"@ ==> #[trigger] r.member(key) == response.member(key)
            &&& forall|h: Text|
                response.member2("headers"@, h) is Some ==> is_header_of(
                    #[trigger] r.member2("headers"@, h),
                    h,
                    response.member2("headers"@, h),
                )
        }),
{
    broadcast use laws::group_members;

    reveal(response::response_processed);
    response_words();
    let (r1, o1, e1) = response::description_supplied(response, o);
    assert(e1 is None && o1 == described(response, o));
    assert(r1.member("schema"@) == response.member("schema"@));
    assert(r1.member("examples"@) == response.member("examples"@));
    assert(is_response(r1));
    assert forall|t: Text| #[trigger] example_of(r1, t) == example_of(response, t) by {}
    let (r2, o2, e2) = response::schema_to_content(r1, op, openapi, o1);
    schema_becomes_content(r1, op, openapi, o1);
    let r3 = response::examples_moved(r2);
    examples_become_content(r2);
    assert(r3.member("headers"@) == response.member("headers"@));
    headers_stay_under_their_names(r3, o2);
    let r = response::response_processed(response, op, openapi, o).0;
    let fixed = fixup::schema_fixed(response.member("schema"@)->0, o1).0;
    let any = forall|t: Text| !#[trigger] lists_type(op, openapi, "produces"@, t);
    let c2 = r2.member("content"@)->0;
    let s = choose|s: Json| #[trigger] stands_for(s, fixed) && forall|t: Text|
        (lists_type(op, openapi, "produces"@, t) || (any && t == "*/*"@)) ==> is_media(
            #[trigger] c2.member(t),
            s,
            example_of(r1, t),
        );
    assert forall|t: Text| #[trigger] media_of(r, t) == media_of(r3, t) by {}
    assert forall|t: Text| #[trigger] c2.member(t) == media_of(r2, t) by {}
    assert forall|t: Text|
        lists_type(op, openapi, "produces"@, t) || (any && t == "*/*"@) implies is_media(
        #[trigger] media_of(r, t),
        s,
        example_of(response, t),
    ) by {
        assert(is_media(c2.member(t), s, example_of(r1, t)));
        assert(example_of(r2, t) is None);
        assert(media_of(r3, t) == media_of(r2, t));
    }
    assert forall|t: Text| (#[trigger] media_of(r, t)) is Some == ((lists_type(
        op,
        openapi,
        "produces"@,
        t,
    ) || (any && t == "*/*"@)) || example_of(response, t) is Some) by {
        assert(c2.has(t) == (lists_type(op, openapi, "produces"@, t) || (any && t == "*/*"@)));
        assert(example_of(r1, t) == example_of(response, t));
        assert(example_of(r2, t) is Some || media_of(r3, t) == media_of(r2, t));
        assert(media_of(r3, t) == media_of(r, t));
    }
    assert forall|t: Text| example_of(response, t) matches Some(v) implies #[trigger] media_of(
        r,
        t,
    )->0.member("examples"@) == Some(
        Json::single("response"@, Json::single("value"@, example_of(response, t)->0)),
    ) by {
        assert(example_of(r1, t) == example_of(response, t));
        if lists_type(op, openapi, "produces"@, t) || (any && t == "*/*"@) {
            assert(is_media(media_of(r, t), s, example_of(response, t)));
        } else {
            assert(example_of(r2, t) == example_of(r1, t));
            assert(media_of(r3, t)->0.member("examples"@) == Some(
                Json::single("response"@, Json::single("value"@, example_of(r2, t)->0)),
            ));
        }
    }
    assert forall|key: Text|
        key != "content"@ && key != "examples"@ && key != "schema"@ && key != "description"@ && key
            != "headers"@ implies #[trigger] r.member(key) == response.member(key) by {
        assert(r3.member(key) == r2.member(key));
        assert(r2.member(key) == r1.member(key));
    }
    assert(r3.member("schema"@) == r2.member("schema"@));
    assert(r3.member("description"@) == r2.member("description"@));
    assert forall|h: Text| response.member2("headers"@, h) is Some implies is_header_of(
        #[trigger] r.member2("headers"@, h),
        h,
        response.member2("headers"@, h),
    ) by {
        assert(r3.member2("headers"@, h) == response.member2("headers"@, h));
    }
}

} // verus!
