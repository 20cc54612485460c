//! Laws of what the repair of a schema makes of its keywords.

use vstd::prelude::*;

use crate::fixup;
use crate::json::{self, Json, Members, Text};
use crate::laws;
use crate::options::Settings;
use crate::text;

verus! {

/// The words that these laws speak of differ.
proof fn schema_words()
    ensures
        "not"@.len() == 3 && "not"@[0] == 'n',
        "xml"@.len() == 3 && "xml"@[0] == 'x',
        "type"@.len() == 4 && "type"@[1] == 'y',
        "null"@.len() == 4 && "null"@[1] == 'u',
        "file"@.len() == 4 && "file"@[1] == 'i',
        "name"@.len() == 4 && "name"@[1] == 'a',
        "items"@.len() == 5 && "items"@[0] == 'i' && "items"@[1] == 't',
        "anyOf"@.len() == 5 && "anyOf"@[0] == 'a' && "anyOf"@[1] == 'n',
        "oneOf"@.len() == 5 && "oneOf"@[0] == 'o' && "oneOf"@[1] == 'n',
        "array"@.len() == 5 && "array"@[0] == 'a' && "array"@[1] == 'r',
        "x-not"@.len() == 5 && "x-not"@[0] == 'x' && "x-not"@[1] == '-',
        "format"@.len() == 6 && "format"@[0] == 'f',
        "string"@.len() == 6 && "string"@[0] == 's',
        "binary"@.len() == 6 && "binary"@[0] == 'b',
        "x-anyOf"@.len() == 7 && "x-anyOf"@[2] == 'a',
        "x-oneOf"@.len() == 7 && "x-oneOf"@[2] == 'o',
        "mapping"@.len() == 7 && "mapping"@[2] == 'p',
        "nullable"@.len() == 8 && "nullable"@[0] == 'n',
        "required"@.len() == 8 && "required"@[0] == 'r',
        "namespace"@.len() == 9,
        "x-required"@.len() == 10 && "x-required"@[2] == 'r',
        "x-nullable"@.len() == 10 && "x-nullable"@[2] == 'n',
        "propertyName"@.len() == 12,
        "discriminator"@.len() == 13,
        "#/definitions/"@.len() == 14,
        "allowEmptyValue"@.len() == 15 && "allowEmptyValue"@[0] == 'a',
        "x-discriminator"@.len() == 15 && "x-discriminator"@[0] == 'x',
        "#/components/schemas/"@.len() == 21,
{
    reveal_strlit("not");
    reveal_strlit("xml");
    reveal_strlit("type");
    reveal_strlit("null");
    reveal_strlit("file");
    reveal_strlit("name");
    reveal_strlit("items");
    reveal_strlit("anyOf");
    reveal_strlit("oneOf");
    reveal_strlit("array");
    reveal_strlit("x-not");
    reveal_strlit("format");
    reveal_strlit("string");
    reveal_strlit("binary");
    reveal_strlit("x-anyOf");
    reveal_strlit("x-oneOf");
    reveal_strlit("mapping");
    reveal_strlit("nullable");
    reveal_strlit("required");
    reveal_strlit("namespace");
    reveal_strlit("x-required");
    reveal_strlit("x-nullable");
    reveal_strlit("propertyName");
    reveal_strlit("discriminator");
    reveal_strlit("#/definitions/");
    reveal_strlit("allowEmptyValue");
    reveal_strlit("x-discriminator");
    reveal_strlit("#/components/schemas/");
}

// --- extensions ------------------------------------------------------------

/// Whether an extension is one that has a standard keyword, other than the lists.
pub open spec fn promotes(schema: Json, from: Text) -> bool {
    ||| (from == "x-anyOf"@ || from == "x-oneOf"@ || from == "x-not"@) && schema.has(from)
    ||| from == "x-nullable"@ && schema.member(from) matches Some(Json::Bool(_))
}

/// The list of required names of a schema.
pub open spec fn required_names(schema: Json) -> Seq<Json> {
    match schema.member("required"@) {
        Some(Json::Array(a)) => a,
        _ => Seq::empty(),
    }
}

/// Extensions become the keywords that they stand for, with their values: `x-anyOf`,
/// `x-oneOf`, `x-not`, and a boolean `x-nullable`. The names of an `x-required` list go
/// behind those that are required already. The extensions go, and the other members
/// stay.
pub proof fn extensions_become_keywords(schema: Json)
    requires
        schema is Object,
        json::distinct(schema.members()),
    ensures
        ({
            let r = fixup::extensions_promoted(schema);
            let listed = schema.member("x-required"@) matches Some(Json::Array(_));
            &&& r is Object && json::distinct(r.members())
            &&& r.member("anyOf"@) == (if schema.has("x-anyOf"@) {
                schema.member("x-anyOf"@)
            } else {
                schema.member("anyOf"@)
            })
            &&& r.member("oneOf"@) == (if schema.has("x-oneOf"@) {
                schema.member("x-oneOf"@)
            } else {
                schema.member("oneOf"@)
            })
            &&& r.member("not"@) == (if schema.has("x-not"@) {
                schema.member("x-not"@)
            } else {
                schema.member("not"@)
            })
            &&& r.member("nullable"@) == (if promotes(schema, "x-nullable"@) {
                schema.member("x-nullable"@)
            } else {
                schema.member("nullable"@)
            })
            &&& r.member("required"@) == (if listed {
                Some(
                    Json::Array(
                        required_names(schema) + schema.member("x-required"@)->0.elements(),
                    ),
                )
            } else {
                schema.member("required"@)
            })
            &&& forall|key: Text| promotes(schema, key) ==> #[trigger] r.member(key) is None
            &&& listed ==> !r.has("x-required"@)
            &&& forall|key: Text|
                !is_promoted_name(key) ==> #[trigger] r.member(key) == schema.member(key)
        }),
{
    broadcast use laws::group_members;

    schema_words();
    let m = schema.members();
    let j1 = Json::Object(fixup::required_merged(m));
    let listed = schema.member("x-required"@) matches Some(Json::Array(_));
    if listed {
        let all = Json::Array(
            required_names(schema) + schema.member("x-required"@)->0.elements(),
        );
        assert(j1 == schema.without("required"@).with("required"@, all).without("x-required"@));
    } else {
        assert(j1 == schema);
    }
    let j2 = Json::Object(fixup::renamed(j1.members(), "x-anyOf"@, "anyOf"@));
    rename_member(j1, "x-anyOf"@, "anyOf"@);
    let j3 = Json::Object(fixup::renamed(j2.members(), "x-oneOf"@, "oneOf"@));
    rename_member(j2, "x-oneOf"@, "oneOf"@);
    let j4 = Json::Object(fixup::renamed(j3.members(), "x-not"@, "not"@));
    rename_member(j3, "x-not"@, "not"@);
    let j5 = Json::Object(fixup::nullable_promoted(j4.members()));
    if j4.member("x-nullable"@) matches Some(Json::Bool(_)) {
        assert(j5 == j4.with("nullable"@, j4.member("x-nullable"@)->0).without("x-nullable"@));
    } else {
        assert(j5 == j4);
    }
    let r = fixup::extensions_promoted(schema);
    assert(r == Json::Object(fixup::discriminator_promoted(j5.members())));
    promoted_discriminator(j5);
}

/// The names that the promotion of extensions is about.
pub open spec fn is_promoted_name(key: Text) -> bool {
    ||| key == "x-anyOf"@ || key == "anyOf"@ || key == "x-oneOf"@ || key == "oneOf"@
    ||| key == "x-not"@ || key == "not"@ || key == "x-nullable"@ || key == "nullable"@
    ||| key == "x-required"@ || key == "required"@ || key == "x-discriminator"@
    ||| key == "discriminator"@
}

proof fn rename_member(j: Json, from: Text, to: Text)
    requires
        j is Object,
        json::distinct(j.members()),
        from != to,
    ensures
        ({
            let r = Json::Object(fixup::renamed(j.members(), from, to));
            &&& json::distinct(r.members())
            &&& forall|key: Text| #[trigger]
                r.member(key) == (if !j.has(from) {
                    j.member(key)
                } else if key == to {
                    j.member(from)
                } else if key == from {
                    None
                } else {
                    j.member(key)
                })
        }),
{
    broadcast use laws::group_members;

    if j.has(from) {
        assert(Json::Object(fixup::renamed(j.members(), from, to)) == j.without(from).with(
            to,
            j.member(from)->0,
        ));
    }
}

proof fn promoted_discriminator(j: Json)
    requires
        j is Object,
        json::distinct(j.members()),
    ensures
        ({
            let r = Json::Object(fixup::discriminator_promoted(j.members()));
            let d = j.member("x-discriminator"@);
            let applies = d matches Some(Json::Object(_)) && json::text_of(
                json::member_of(d, "propertyName"@),
            ) is Some;
            &&& json::distinct(r.members())
            &&& forall|key: Text| key != "discriminator"@ && key != "x-discriminator"@
                ==> #[trigger] r.member(key) == j.member(key)
            &&& applies ==> !r.has("x-discriminator"@) && r.member("discriminator"@) == Some(
                Json::Object(fixup::discriminator_moved(d->0.members())),
            )
            &&& !applies ==> r == j
        }),
{
    broadcast use laws::group_members;

    schema_words();
    let d = j.member("x-discriminator"@);
    let applies = d matches Some(Json::Object(_)) && json::text_of(
        json::member_of(d, "propertyName"@),
    ) is Some;
    if applies {
        let moved = Json::Object(fixup::discriminator_moved(d->0.members()));
        assert(Json::Object(fixup::discriminator_promoted(j.members())) == j.without(
            "x-discriminator"@,
        ).with("discriminator"@, moved));
    }
}

proof fn mapping_is_moved(m: Members, i: nat)
    ensures
        ({
            let r = fixup::mapping_moved(m, i);
            &&& r.len() == m.len()
            &&& forall|k: int| 0 <= k < m.len() ==> (#[trigger] r[k]).0 == m[k].0
            &&& forall|k: int| 0 <= k < m.len() ==> (#[trigger] r[k]).1 == (if k < i {
                m[k].1
            } else {
                fixup::target_moved(m[k].1)
            })
        }),
    decreases m.len() - i,
{
    if i < m.len() {
        let (key, v) = m[i as int];
        let m1 = m.update(i as int, (key, fixup::target_moved(v)));
        mapping_is_moved(m1, i + 1);
        let r = fixup::mapping_moved(m, i);
        assert(r == fixup::mapping_moved(m1, i + 1));
        assert forall|k: int| 0 <= k < m.len() implies (#[trigger] r[k]).1 == (if k < i {
            m[k].1
        } else {
            fixup::target_moved(m[k].1)
        }) && r[k].0 == m[k].0 by {
            assert(r[k].1 == (if k < i + 1 {
                m1[k].1
            } else {
                fixup::target_moved(m1[k].1)
            }));
        }
    }
}

/// A discriminator that is promoted keeps its property and maps the same names. What a
/// name maps to moves from the definitions to the schemas, and stays where it leads
/// elsewhere.
pub proof fn discriminator_maps_to_schemas(schema: Json, m: Members, k: int)
    requires
        schema is Object,
        json::distinct(schema.members()),
        json::text_of(schema.member2("x-discriminator"@, "propertyName"@)) is Some,
        json::member_of(schema.member("x-discriminator"@), "mapping"@) == Some(Json::Object(m)),
        0 <= k < m.len(),
    ensures
        ({
            let r = fixup::extensions_promoted(schema);
            let d = r.member("discriminator"@)->0;
            let x = d.member("mapping"@)->0.members();
            &&& r.has("discriminator"@) && !r.has("x-discriminator"@)
            &&& d.member("propertyName"@) == schema.member2("x-discriminator"@, "propertyName"@)
            &&& x.len() == m.len() && x[k].0 == m[k].0
            &&& forall|rest: Text|
                m[k].1 == Json::String(#[trigger] ("#/definitions/"@ + rest)) ==> x[k].1
                    == Json::String("#/components/schemas/"@ + rest)
            &&& (m[k].1 matches Json::String(s) ==> !text::starts(s, "#/definitions/"@)) ==> x[k].1
                == m[k].1
        }),
{
    broadcast use laws::group_members;

    schema_words();
    reveal_strlit("#/definitions/");
    extensions_become_keywords_head(schema);
    mapping_is_moved(m, 0);
    let d0 = schema.member("x-discriminator"@)->0;
    let moved = Json::Object(fixup::mapping_moved(m, 0));
    let d = Json::Object(fixup::discriminator_moved(d0.members()));
    assert(d == d0.with("mapping"@, moved));
    assert(fixup::extensions_promoted(schema).member("discriminator"@) == Some(d));
    assert forall|rest: Text|
        m[k].1 == Json::String(#[trigger] ("#/definitions/"@ + rest)) implies fixup::target_moved(
        m[k].1,
    ) == Json::String("#/components/schemas/"@ + rest) by {
        let s = "#/definitions/"@ + rest;
        assert(s.subrange(0, 14) =~= "#/definitions/"@);
        assert(s.skip(14) =~= rest);
    }
}

proof fn extensions_become_keywords_head(schema: Json)
    requires
        schema is Object,
        json::distinct(schema.members()),
        json::text_of(schema.member2("x-discriminator"@, "propertyName"@)) is Some,
    ensures
        ({
            let r = fixup::extensions_promoted(schema);
            &&& !r.has("x-discriminator"@)
            &&& r.member("discriminator"@) == Some(
                Json::Object(
                    fixup::discriminator_moved(schema.member("x-discriminator"@)->0.members()),
                ),
            )
        }),
{
    broadcast use laws::group_members;

    schema_words();
    let m = schema.members();
    let j1 = Json::Object(fixup::required_merged(m));
    if schema.member("x-required"@) matches Some(Json::Array(_)) {
        let all = Json::Array(
            required_names(schema) + schema.member("x-required"@)->0.elements(),
        );
        assert(j1 == schema.without("required"@).with("required"@, all).without("x-required"@));
    } else {
        assert(j1 == schema);
    }
    let j2 = Json::Object(fixup::renamed(j1.members(), "x-anyOf"@, "anyOf"@));
    rename_member(j1, "x-anyOf"@, "anyOf"@);
    let j3 = Json::Object(fixup::renamed(j2.members(), "x-oneOf"@, "oneOf"@));
    rename_member(j2, "x-oneOf"@, "oneOf"@);
    let j4 = Json::Object(fixup::renamed(j3.members(), "x-not"@, "not"@));
    rename_member(j3, "x-not"@, "not"@);
    let j5 = Json::Object(fixup::nullable_promoted(j4.members()));
    if j4.member("x-nullable"@) matches Some(Json::Bool(_)) {
        assert(j5 == j4.with("nullable"@, j4.member("x-nullable"@)->0).without("x-nullable"@));
    } else {
        assert(j5 == j4);
    }
    promoted_discriminator(j5);
    assert(j5.member("x-discriminator"@) == schema.member("x-discriminator"@));
}

// --- keywords --------------------------------------------------------------

/// What a list of item schemas becomes: nothing any item, one that item, more a choice.
pub open spec fn is_items_of(x: Json, a: Seq<Json>) -> bool {
    if a.len() == 0 {
        x matches Json::Object(m) && m.len() == 0
    } else if a.len() == 1 {
        x == a[0]
    } else {
        x == Json::single("anyOf"@, Json::Array(a))
    }
}

/// The repair of the keywords of a schema whose type is no list: a discriminator that is
/// a name becomes an object with that property name; a list of items becomes one schema;
/// the type `null` becomes `nullable`; the type `file` becomes a binary string; an array
/// without items gets any; a boolean `required`, an empty XML namespace and
/// `allowEmptyValue` go. Everything else stays.
pub proof fn keywords_are_repaired_to(j: Json, parent: Option<Json>, o: Settings)
    requires
        j is Object,
        json::distinct(j.members()),
        j.member("xml"@) matches Some(x) ==> json::distinct(x.members()),
        !(j.member("type"@) matches Some(Json::Array(_))),
    ensures
        ({
            let (r, p, o1, e) = fixup::keywords_repaired(j, parent, o);
            let null = j.says("type"@, "null"@);
            let file = j.says("type"@, "file"@);
            &&& e is None
            &&& r is Object && json::distinct(r.members())
            &&& r.member("discriminator"@) == (match j.member("discriminator"@) {
                Some(Json::String(s)) => Some(
                    Json::single("propertyName"@, Json::String(s)),
                ),
                other => other,
            })
            &&& r.member("type"@) == (if null {
                None
            } else if file {
                Some(Json::String("string"@))
            } else {
                j.member("type"@)
            })
            &&& r.member("format"@) == (if file {
                Some(Json::String("binary"@))
            } else {
                j.member("format"@)
            })
            &&& r.member("nullable"@) == (if null {
                Some(Json::Bool(true))
            } else {
                j.member("nullable"@)
            })
            &&& match j.member("items"@) {
                Some(Json::Array(a)) => r.member("items"@) matches Some(x) && is_items_of(x, a),
                Some(v) => r.member("items"@) == Some(v),
                None => r.member("items"@) == (if j.says("type"@, "array"@) {
                    Some(Json::empty())
                } else {
                    None
                }),
            }
            &&& r.member("required"@) == (match j.member("required"@) {
                Some(Json::Bool(_)) => None,
                other => other,
            })
            &&& !r.has("allowEmptyValue"@)
            &&& r.member2("xml"@, "namespace"@) == (match j.member2("xml"@, "namespace"@) {
                Some(Json::String(s)) => if s.len() == 0 {
                    None
                } else {
                    Some(Json::String(s))
                },
                other => other,
            })
            &&& r.has("xml"@) == j.has("xml"@)
            &&& forall|key: Text| key != "namespace"@ ==> #[trigger] r.member2("xml"@, key)
                == j.member2("xml"@, key)
            &&& forall|key: Text|
                !is_repaired_name(key) ==> #[trigger] r.member(key) == j.member(key)
        }),
{
    broadcast use laws::group_members;

    schema_words();
    let j1 = fixup::items_fixed(fixup::discriminator_wrapped(j));
    let j2 = fixup::null_type_fixed(j1);
    let j3 = fixup::items_supplied(j2);
    let j4 = fixup::file_type_fixed(j3);
    let j5 = fixup::required_moved(j4, parent).0;
    assert(j5.member("xml"@) == j.member("xml"@));
    let j6 = fixup::namespace_dropped(j5);
    if let Some(x) = j.member("xml"@) {
        if x is Object {
            assert(x.dropped("namespace"@) == x.without("namespace"@));
        }
    }
}

/// The names that the repair of keywords is about.
pub open spec fn is_repaired_name(key: Text) -> bool {
    ||| key == "discriminator"@ || key == "type"@ || key == "format"@ || key == "nullable"@
    ||| key == "items"@ || key == "required"@ || key == "allowEmptyValue"@ || key == "xml"@
}

/// A schema that says that it is required, and has a name, is on the list of required
/// names of its parent after the repair. No other schema changes its parent.
pub proof fn required_name_goes_to_parent(j: Json, parent: Json, o: Settings)
    requires
        j is Object,
        json::distinct(j.members()),
        !(j.member("type"@) matches Some(Json::Array(_))),
        parent is Object,
        !parent.has("required"@) || parent.member("required"@)->0 is Array,
    ensures
        ({
            let p = fixup::keywords_repaired(j, Some(parent), o).1;
            let moves = j.member("required"@) == Some(Json::Bool(true)) && j.text_member(
                "name"@,
            ) is Some;
            &&& !moves ==> p == Some(parent)
            &&& moves ==> p is Some && forall|key: Text| #[trigger]
                p->0.member(key) == (if key == "required"@ {
                    Some(
                        Json::Array(
                            required_names(parent).push(
                                Json::String(j.text_member("name"@)->0),
                            ),
                        ),
                    )
                } else {
                    parent.member(key)
                })
        }),
{
    broadcast use laws::group_members;

    schema_words();
    let j1 = fixup::items_fixed(fixup::discriminator_wrapped(j));
    let j4 = fixup::file_type_fixed(fixup::items_supplied(fixup::null_type_fixed(j1)));
    assert(j4.member("required"@) == j.member("required"@));
    assert(j4.member("name"@) == j.member("name"@));
    let p1 = Json::Object(
        json::insert_new(parent.members(), "required"@, Json::Array(Seq::empty())),
    );
    assert(p1 == parent.with_new("required"@, Json::Array(Seq::empty())));
    assert(p1.member("required"@) == Some(Json::Array(required_names(parent))));
    let list = Json::Array(required_names(parent).push(Json::String(j.text_member("name"@)->0)));
    assert(Json::Object(json::insert(p1.members(), "required"@, list)) == p1.with(
        "required"@,
        list,
    ));
}

// --- lists of types --------------------------------------------------------

/// The types of a list from position `i` on that are not `null`.
pub open spec fn other_types(types: Seq<Json>, i: nat) -> Seq<Json>
    decreases types.len() - i,
{
    if i >= types.len() {
        Seq::empty()
    } else if types[i as int] == Json::String("null"@) {
        other_types(types, i + 1)
    } else {
        seq![types[i as int]] + other_types(types, i + 1)
    }
}

/// The schema for each of some types.
pub open spec fn schema_of_type(t: Json) -> Json {
    Json::single("type"@, t)
}

proof fn types_are_split(types: Seq<Json>, i: nat, j: Json, branches: Seq<Json>)
    requires
        json::distinct(j.members()),
    ensures
        ({
            let (r, b) = fixup::types_split(types, i, j, branches);
            let others = other_types(types, i);
            &&& json::distinct(r.members())
            &&& b == branches + others.map_values(|t: Json| schema_of_type(t))
            &&& forall|key: Text| key != "nullable"@ ==> #[trigger] r.member(key) == j.member(key)
            &&& r.member("nullable"@) == (if exists|k: int|
                i <= k < types.len() && #[trigger] types[k] == Json::String("null"@) {
                Some(Json::Bool(true))
            } else {
                j.member("nullable"@)
            })
            &&& j is Object ==> r is Object
        }),
    decreases types.len() - i,
{
    broadcast use laws::group_members;

    let others = other_types(types, i);
    if i >= types.len() {
        assert(branches + others.map_values(|t: Json| schema_of_type(t)) =~= branches);
    } else if types[i as int] == Json::String("null"@) {
        let j1 = j.with("nullable"@, Json::Bool(true));
        types_are_split(types, i + 1, j1, branches);
    } else {
        let b = branches.push(schema_of_type(types[i as int]));
        types_are_split(types, i + 1, j, b);
        let rest = other_types(types, i + 1);
        assert(b + rest.map_values(|t: Json| schema_of_type(t)) =~= branches + others.map_values(
            |t: Json| schema_of_type(t),
        ));
        if exists|k: int| i <= k < types.len() && #[trigger] types[k] == Json::String("null"@) {
            let k = choose|k: int|
                i <= k < types.len() && #[trigger] types[k] == Json::String("null"@);
            assert(i + 1 <= k);
        }
    }
}

/// A list of types is taken apart: the schema is nullable where the list has `null`, a
/// single other type stays the type, and several become a choice of one schema for
/// each. This is so of a schema without a choice of its own.
pub proof fn type_lists_are_taken_apart(j: Json, types: Seq<Json>, o: Settings)
    requires
        j is Object,
        json::distinct(j.members()),
        j.member("type"@) == Some(Json::Array(types)),
        !j.has("oneOf"@),
        forall|k: int| 0 <= k < types.len() ==> (#[trigger] types[k]) is String,
    ensures
        ({
            let (r, e) = fixup::type_array_fixed(j, o);
            let others = other_types(types, 0);
            &&& e is None
            &&& r.member("nullable"@) == (if types.contains(Json::String("null"@)) {
                Some(Json::Bool(true))
            } else {
                j.member("nullable"@)
            })
            &&& r.member("type"@) == (if others.len() == 1 {
                Some(others[0])
            } else {
                None
            })
            &&& r.member("oneOf"@) == (if others.len() > 1 {
                Some(Json::Array(others.map_values(|t: Json| schema_of_type(t))))
            } else {
                None
            })
            &&& forall|key: Text| key != "nullable"@ && key != "type"@ && key != "oneOf"@
                ==> #[trigger] r.member(key) == j.member(key)
        }),
{
    broadcast use laws::group_members;

    schema_words();
    let none = Seq::<Json>::empty();
    types_are_split(types, 0, j, none);
    let others = other_types(types, 0);
    let all = others.map_values(|t: Json| schema_of_type(t));
    assert(none + all =~= all);
    others_are_texts(types, 0);
    assert((exists|k: int| 0 <= k < types.len() && #[trigger] types[k] == Json::String("null"@))
        == types.contains(Json::String("null"@)));
    if types.len() > 0 && others.len() == 1 {
        assert(all[0] == schema_of_type(others[0]));
        assert(all[0].members().len() == 1);
    }
}

proof fn others_are_texts(types: Seq<Json>, i: nat)
    requires
        forall|k: int| 0 <= k < types.len() ==> (#[trigger] types[k]) is String,
    ensures
        forall|k: int|
            0 <= k < other_types(types, i).len() ==> (#[trigger] other_types(types, i)[k]) is String,
    decreases types.len() - i,
{
    if i < types.len() {
        others_are_texts(types, i + 1);
        let rest = other_types(types, i + 1);
        if types[i as int] != Json::String("null"@) {
            let all = seq![types[i as int]] + rest;
            assert forall|k: int| 0 <= k < all.len() implies (#[trigger] all[k]) is String by {
                if k > 0 {
                    assert(all[k] == rest[k - 1]);
                }
            }
        }
    }
}

} // verus!
