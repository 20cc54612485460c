//! Laws of schema repair.

use vstd::prelude::*;

use crate::common;
use crate::error;
use crate::fixup::{self, Fixer};
use crate::json::{self, Json, Members, Text};
use crate::laws;
use crate::options::Settings;
use crate::schema_walker::{self, SchemaVisitor};

verus! {

// --- names -----------------------------------------------------------------

/// Whether every object of a document has distinct names.
pub open spec fn well_named(j: Json) -> bool
    decreases j,
{
    match j {
        Json::Array(a) => forall|i: int| 0 <= i < a.len() ==> well_named(#[trigger] a[i]),
        Json::Object(m) => json::distinct(m) && forall|i: int|
            0 <= i < m.len() ==> well_named((#[trigger] m[i]).1),
        _ => true,
    }
}

/// Whether a document is an object, and every object in it has distinct names.
pub open spec fn sound(j: Json) -> bool {
    j is Object && well_named(j)
}

proof fn well_named_member(j: Json, key: Text)
    requires
        well_named(j),
    ensures
        j.member(key) matches Some(v) ==> well_named(v),
{
    if let Json::Object(m) = j {
        laws::index_found(m, key, 0);
        if json::has_key(m, key) {
            assert(well_named(m[json::index_of(m, key)].1));
        }
    }
}

/// Setting a member keeps a document sound and the other members as they are.
proof fn with_sound(j: Json, key: Text, v: Json)
    requires
        sound(j),
        well_named(v),
    ensures
        sound(j.with(key, v)),
        j.with(key, v).member(key) == Some(v),
        forall|k: Text| k != key ==> #[trigger] j.with(key, v).member(k) == j.member(k),
{
    let m = j.members();
    let m2 = json::insert(m, key, v);
    laws::index_found(m, key, 0);
    laws::insert_keeps_distinct(m, key, v);
    laws::lookup_after_insert(m, key, v);
    assert forall|i: int| 0 <= i < m2.len() implies well_named((#[trigger] m2[i]).1) by {
        if i < m.len() {
            assert(well_named(m[i].1));
        }
    }
    assert forall|k: Text| k != key implies #[trigger] j.with(key, v).member(k) == j.member(
        k,
    ) by {
        laws::lookup_insert_other(m, key, v, k);
    }
}

/// Dropping a member keeps a document sound and the other members as they are.
proof fn without_sound(j: Json, key: Text)
    requires
        sound(j),
    ensures
        sound(j.without(key)),
        j.without(key).member(key) is None,
        forall|k: Text| k != key ==> #[trigger] j.without(key).member(k) == j.member(k),
{
    let m = j.members();
    let m2 = json::remove(m, key);
    laws::index_found(m, key, 0);
    laws::remove_keeps_distinct(m, key);
    laws::lookup_after_remove(m, key);
    assert forall|i: int| 0 <= i < m2.len() implies well_named((#[trigger] m2[i]).1) by {
        assert(well_named(m[i].1));
        assert(well_named(m[m.len() - 1].1));
    }
    assert forall|k: Text| k != key implies #[trigger] j.without(key).member(k) == j.member(
        k,
    ) by {
        laws::lookup_remove_other(m, key, k);
    }
}

// --- a repaired schema -----------------------------------------------------

/// Whether a schema holds none of what the repair of one schema removes.
pub open spec fn is_repaired(j: Json) -> bool {
    &&& is_promoted(j)
    &&& keywords_are_repaired(j)
}

/// Whether a schema holds none of what the repair of its keywords removes.
pub open spec fn keywords_are_repaired(j: Json) -> bool {
    &&& j.text_member("discriminator"@) is None
    &&& !j.says("type"@, "null"@)
    &&& !j.says("type"@, "file"@)
    &&& j.says("type"@, "array"@) ==> j.has("items"@)
    &&& !(j.member("required"@) matches Some(Json::Bool(_)))
    &&& !(json::text_of(j.member2("xml"@, "namespace"@)) matches Some(s) && s.len() == 0)
    &&& !j.has("allowEmptyValue"@)
}

/// Whether a schema holds no `x-` extension that has a standard keyword.
pub open spec fn is_promoted(j: Json) -> bool {
    &&& !j.has("x-anyOf"@)
    &&& !j.has("x-oneOf"@)
    &&& !j.has("x-not"@)
    &&& !(j.member("x-required"@) matches Some(Json::Array(_)))
    &&& !(j.member("x-nullable"@) matches Some(Json::Bool(_)))
    &&& json::text_of(j.member2("x-discriminator"@, "propertyName"@)) is None
}

/// Whether a name is one of the extensions that have a standard keyword.
pub open spec fn is_extension(key: Text) -> bool {
    key == "x-anyOf"@ || key == "x-oneOf"@ || key == "x-not"@ || key == "x-required"@ || key
        == "x-nullable"@ || key == "x-discriminator"@
}

/// Whether a name is one of the keywords that a repaired schema is judged by.
pub open spec fn is_keyword(key: Text) -> bool {
    is_extension(key) || key == "discriminator"@ || key == "type"@ || key == "items"@ || key
        == "required"@ || key == "xml"@ || key == "allowEmptyValue"@
}

proof fn keywords_differ()
    ensures
        "required"@ != "x-required"@,
        forall|k: Text|
            k == "required"@ || k == "anyOf"@ || k == "oneOf"@ || k == "not"@ || k == "nullable"@
                || k == "discriminator"@ || k == "items"@ || k == "type"@ || k == "format"@ || k
                == "xml"@ || k == "allowEmptyValue"@ ==> !#[trigger] is_extension(k),
        "x-anyOf"@ != "x-oneOf"@,
        "x-anyOf"@ != "x-not"@,
        "x-anyOf"@ != "x-required"@,
        "x-anyOf"@ != "x-nullable"@,
        "x-anyOf"@ != "x-discriminator"@,
        "x-oneOf"@ != "x-not"@,
        "x-oneOf"@ != "x-required"@,
        "x-oneOf"@ != "x-nullable"@,
        "x-oneOf"@ != "x-discriminator"@,
        "x-not"@ != "x-required"@,
        "x-not"@ != "x-nullable"@,
        "x-not"@ != "x-discriminator"@,
        "x-required"@ != "x-nullable"@,
        "x-required"@ != "x-discriminator"@,
        "x-nullable"@ != "x-discriminator"@,
        "discriminator"@ != "items"@,
        "discriminator"@ != "type"@,
        "discriminator"@ != "oneOf"@,
        "discriminator"@ != "nullable"@,
        "discriminator"@ != "required"@,
        "discriminator"@ != "format"@,
        "discriminator"@ != "xml"@,
        "discriminator"@ != "allowEmptyValue"@,
        "type"@ != "nullable"@,
        "type"@ != "items"@,
        "type"@ != "format"@,
        "type"@ != "required"@,
        "type"@ != "xml"@,
        "type"@ != "allowEmptyValue"@,
        "items"@ != "nullable"@,
        "items"@ != "format"@,
        "items"@ != "required"@,
        "items"@ != "xml"@,
        "items"@ != "allowEmptyValue"@,
        "required"@ != "xml"@,
        "required"@ != "allowEmptyValue"@,
        "xml"@ != "allowEmptyValue"@,
        "oneOf"@ != "type"@,
        "oneOf"@ != "items"@,
        "oneOf"@ != "nullable"@,
        "string"@ != "null"@,
        "string"@ != "array"@,
        "string"@ != "file"@,
{
    reveal_strlit("x-required");
    reveal_strlit("required");
    reveal_strlit("x-anyOf");
    reveal_strlit("anyOf");
    reveal_strlit("x-oneOf");
    reveal_strlit("oneOf");
    reveal_strlit("x-not");
    reveal_strlit("not");
    reveal_strlit("x-nullable");
    reveal_strlit("nullable");
    reveal_strlit("x-discriminator");
    reveal_strlit("discriminator");
    reveal_strlit("items");
    reveal_strlit("type");
    reveal_strlit("format");
    reveal_strlit("xml");
    reveal_strlit("allowEmptyValue");
    reveal_strlit("string");
    reveal_strlit("null");
    reveal_strlit("array");
    reveal_strlit("file");
    assert("x-required"@.len() == 10 && "required"@.len() == 8 && "x-anyOf"@.len() == 7);
    assert("anyOf"@.len() == 5 && "x-oneOf"@.len() == 7 && "oneOf"@.len() == 5);
    assert("x-not"@.len() == 5 && "not"@.len() == 3 && "x-nullable"@.len() == 10);
    assert("nullable"@.len() == 8 && "x-discriminator"@.len() == 15);
    assert("discriminator"@.len() == 13 && "items"@.len() == 5 && "type"@.len() == 4);
    assert("format"@.len() == 6 && "xml"@.len() == 3 && "allowEmptyValue"@.len() == 15);
    assert("x-required"@[2] == 'r' && "x-nullable"@[2] == 'n' && "required"@[0] == 'r');
    assert("nullable"@[0] == 'n' && "x-anyOf"@[2] == 'a' && "x-oneOf"@[2] == 'o');
    assert("anyOf"@[0] == 'a' && "oneOf"@[0] == 'o' && "x-not"@[0] == 'x');
    assert("items"@[0] == 'i' && "not"@[0] == 'n' && "xml"@[0] == 'x');
    assert("x-discriminator"@[0] == 'x' && "allowEmptyValue"@[0] == 'a');
    assert("string"@.len() == 6 && "null"@.len() == 4 && "array"@.len() == 5);
    assert("file"@.len() == 4);
}

// --- promotion -------------------------------------------------------------

proof fn renaming_promotes(m: Members, from: Text, to: Text)
    requires
        sound(Json::Object(m)),
        from != to,
    ensures
        sound(Json::Object(fixup::renamed(m, from, to))),
        json::lookup(fixup::renamed(m, from, to), from) is None,
        forall|k: Text|
            k != from && k != to ==> #[trigger] json::lookup(fixup::renamed(m, from, to), k)
                == json::lookup(m, k),
{
    let j = Json::Object(m);
    if let Some(v) = json::lookup(m, from) {
        well_named_member(j, from);
        without_sound(j, from);
        with_sound(j.without(from), to, v);
        let r = fixup::renamed(m, from, to);
        assert(j.without(from).with(to, v).members() == r);
        assert(j.without(from).with(to, v).member(from) is None);
        assert forall|k: Text| k != from && k != to implies #[trigger] json::lookup(r, k)
            == json::lookup(m, k) by {
            assert(j.without(from).with(to, v).member(k) == j.without(from).member(k));
            assert(j.without(from).member(k) == j.member(k));
        }
    }
}

proof fn merging_promotes(m: Members)
    requires
        sound(Json::Object(m)),
    ensures
        sound(Json::Object(fixup::required_merged(m))),
        !(json::lookup(fixup::required_merged(m), "x-required"@) matches Some(Json::Array(_))),
        forall|k: Text|
            k != "required"@ && k != "x-required"@ ==> #[trigger] json::lookup(
                fixup::required_merged(m),
                k,
            ) == json::lookup(m, k),
{
    keywords_differ();
    let j = Json::Object(m);
    if let Some(Json::Array(extra)) = json::lookup(m, "x-required"@) {
        let required = match json::lookup(m, "required"@) {
            Some(v) => v.elements(),
            None => Seq::empty(),
        };
        let all = required + extra;
        well_named_member(j, "x-required"@);
        well_named_member(j, "required"@);
        assert forall|i: int| 0 <= i < all.len() implies well_named(#[trigger] all[i]) by {
            if i < required.len() {
                assert(well_named(required[i]));
            } else {
                assert(well_named(extra[i - required.len()]));
            }
        }
        let j1 = j.without("required"@);
        let j2 = j1.with("required"@, Json::Array(all));
        let j3 = j2.without("x-required"@);
        without_sound(j, "required"@);
        with_sound(j1, "required"@, Json::Array(all));
        without_sound(j2, "x-required"@);
        let r = fixup::required_merged(m);
        assert(j3.members() == r);
        assert(j3.member("x-required"@) is None);
        assert forall|k: Text| k != "required"@ && k != "x-required"@ implies #[trigger] json::lookup(
            r,
            k,
        ) == json::lookup(m, k) by {
            assert(j3.member(k) == j2.member(k));
            assert(j2.member(k) == j1.member(k));
            assert(j1.member(k) == j.member(k));
        }
    }
}

proof fn nullability_promotes(m: Members)
    requires
        sound(Json::Object(m)),
    ensures
        sound(Json::Object(fixup::nullable_promoted(m))),
        !(json::lookup(fixup::nullable_promoted(m), "x-nullable"@) matches Some(Json::Bool(_))),
        forall|k: Text|
            k != "nullable"@ && k != "x-nullable"@ ==> #[trigger] json::lookup(
                fixup::nullable_promoted(m),
                k,
            ) == json::lookup(m, k),
{
    let j = Json::Object(m);
    if let Some(Json::Bool(b)) = json::lookup(m, "x-nullable"@) {
        let j1 = j.with("nullable"@, Json::Bool(b));
        let j2 = j1.without("x-nullable"@);
        with_sound(j, "nullable"@, Json::Bool(b));
        without_sound(j1, "x-nullable"@);
        let r = fixup::nullable_promoted(m);
        assert(j2.members() == r);
        assert(j2.member("x-nullable"@) is None);
        assert forall|k: Text| k != "nullable"@ && k != "x-nullable"@ implies #[trigger] json::lookup(
            r,
            k,
        ) == json::lookup(m, k) by {
            assert(j2.member(k) == j1.member(k));
            assert(j1.member(k) == j.member(k));
        }
    }
}

proof fn moved_mapping_is_sound(m: Members, i: nat)
    requires
        sound(Json::Object(m)),
    ensures
        sound(Json::Object(fixup::mapping_moved(m, i))),
    decreases m.len() - i,
{
    if i < m.len() {
        let (key, v) = m[i as int];
        let m2 = m.update(i as int, (key, fixup::target_moved(v)));
        assert(well_named(m[i as int].1));
        assert forall|a: int, b: int| 0 <= a < b < m2.len() implies (#[trigger] m2[a]).0 != (
        #[trigger] m2[b]).0 by {
            assert(m[a].0 != m[b].0);
        }
        assert forall|k: int| 0 <= k < m2.len() implies well_named((#[trigger] m2[k]).1) by {
            assert(well_named(m[k].1));
        }
        moved_mapping_is_sound(m2, i + 1);
    }
}

proof fn discrimination_promotes(m: Members)
    requires
        sound(Json::Object(m)),
    ensures
        sound(Json::Object(fixup::discriminator_promoted(m))),
        json::text_of(
            Json::Object(fixup::discriminator_promoted(m)).member2(
                "x-discriminator"@,
                "propertyName"@,
            ),
        ) is None,
        forall|k: Text|
            k != "discriminator"@ && k != "x-discriminator"@ ==> #[trigger] json::lookup(
                fixup::discriminator_promoted(m),
                k,
            ) == json::lookup(m, k),
{
    keywords_differ();
    let j = Json::Object(m);
    let x = "x-discriminator"@;
    if let Some(Json::Object(d)) = json::lookup(m, x) {
        if json::text_of(json::lookup(d, "propertyName"@)) is Some {
            well_named_member(j, x);
            let dj = Json::Object(d);
            if let Some(Json::Object(mapping)) = json::lookup(d, "mapping"@) {
                well_named_member(dj, "mapping"@);
                moved_mapping_is_sound(mapping, 0);
                with_sound(dj, "mapping"@, Json::Object(fixup::mapping_moved(mapping, 0)));
            }
            let moved = Json::Object(fixup::discriminator_moved(d));
            assert(well_named(moved));
            let j1 = j.without(x);
            let j2 = j1.with("discriminator"@, moved);
            without_sound(j, x);
            with_sound(j1, "discriminator"@, moved);
            let r = fixup::discriminator_promoted(m);
            assert(j2.members() == r);
            assert(is_extension(x));
            assert(!is_extension("discriminator"@));
            assert(j2.member(x) is None);
            assert forall|k: Text| k != "discriminator"@ && k != x implies #[trigger] json::lookup(
                r,
                k,
            ) == json::lookup(m, k) by {
                assert(j2.member(k) == j1.member(k));
                assert(j1.member(k) == j.member(k));
            }
        }
    }
}

/// The promotion of extensions leaves none that has a standard keyword.
pub proof fn promotion_leaves_none(j: Json)
    requires
        sound(j),
    ensures
        sound(fixup::extensions_promoted(j)),
        is_promoted(fixup::extensions_promoted(j)),
{
    keywords_differ();
    let m = j->Object_0;
    assert(!is_extension("required"@) && !is_extension("anyOf"@) && !is_extension("oneOf"@));
    assert(!is_extension("not"@) && !is_extension("nullable"@) && !is_extension("discriminator"@));
    let m1 = fixup::required_merged(m);
    merging_promotes(m);
    let m2 = fixup::renamed(m1, "x-anyOf"@, "anyOf"@);
    renaming_promotes(m1, "x-anyOf"@, "anyOf"@);
    let m3 = fixup::renamed(m2, "x-oneOf"@, "oneOf"@);
    renaming_promotes(m2, "x-oneOf"@, "oneOf"@);
    let m4 = fixup::renamed(m3, "x-not"@, "not"@);
    renaming_promotes(m3, "x-not"@, "not"@);
    let m5 = fixup::nullable_promoted(m4);
    nullability_promotes(m4);
    let m6 = fixup::discriminator_promoted(m5);
    discrimination_promotes(m5);
    let r = Json::Object(m6);
    assert(json::lookup(m6, "x-required"@) == json::lookup(m1, "x-required"@));
    assert(json::lookup(m6, "x-anyOf"@) == json::lookup(m2, "x-anyOf"@));
    assert(json::lookup(m6, "x-oneOf"@) == json::lookup(m3, "x-oneOf"@));
    assert(json::lookup(m6, "x-not"@) == json::lookup(m4, "x-not"@));
    assert(json::lookup(m6, "x-nullable"@) == json::lookup(m5, "x-nullable"@));
}

// --- keywords --------------------------------------------------------------

/// Whether two schemas have the same extensions.
spec fn same_extensions(a: Json, b: Json) -> bool {
    forall|k: Text| is_extension(k) ==> #[trigger] b.member(k) == a.member(k)
}

proof fn promoted_alike(a: Json, b: Json)
    requires
        is_promoted(a),
        same_extensions(a, b),
    ensures
        is_promoted(b),
{
    assert(is_extension("x-anyOf"@) && is_extension("x-oneOf"@) && is_extension("x-not"@));
    assert(is_extension("x-required"@) && is_extension("x-nullable"@));
    assert(is_extension("x-discriminator"@));
    assert(b.member("x-anyOf"@) == a.member("x-anyOf"@));
    assert(b.member("x-oneOf"@) == a.member("x-oneOf"@));
    assert(b.member("x-not"@) == a.member("x-not"@));
    assert(b.member("x-required"@) == a.member("x-required"@));
    assert(b.member("x-nullable"@) == a.member("x-nullable"@));
    assert(b.member("x-discriminator"@) == a.member("x-discriminator"@));
}

/// A member with one member is well named when that is.
proof fn single_is_well_named(key: Text, v: Json)
    requires
        well_named(v),
    ensures
        sound(Json::single(key, v)),
{
    let m = Json::single(key, v).members();
    assert forall|i: int| 0 <= i < m.len() implies well_named((#[trigger] m[i]).1) by {}
    assert(json::distinct(m));
}

proof fn first_repairs(j: Json)
    requires
        sound(j),
    ensures
        ({
            let r = fixup::items_fixed(fixup::discriminator_wrapped(j));
            &&& sound(r)
            &&& same_extensions(j, r)
            &&& r.text_member("discriminator"@) is None
        }),
{
    keywords_differ();
    assert(!is_extension("discriminator"@) && !is_extension("items"@));
    let j1 = fixup::discriminator_wrapped(j);
    if let Some(name) = j.text_member("discriminator"@) {
        let v = Json::single("propertyName"@, Json::String(name));
        single_is_well_named("propertyName"@, Json::String(name));
        with_sound(j, "discriminator"@, v);
    }
    assert(same_extensions(j, j1));
    assert(j1.text_member("discriminator"@) is None);
    if let Some(Json::Array(a)) = j1.member("items"@) {
        well_named_member(j1, "items"@);
        let v = fixup::items_collapsed(a);
        if a.len() == 1 {
            assert(well_named(a[0]));
        } else if a.len() > 1 {
            single_is_well_named("anyOf"@, Json::Array(a));
        }
        with_sound(j1, "items"@, v);
    }
}

proof fn split_is_sound(types: Seq<Json>, i: nat, j: Json, branches: Seq<Json>)
    requires
        sound(j),
        forall|k: int| 0 <= k < types.len() ==> well_named(#[trigger] types[k]),
        forall|k: int| 0 <= k < branches.len() ==> well_named(#[trigger] branches[k]),
    ensures
        ({
            let (j1, b1) = fixup::types_split(types, i, j, branches);
            &&& sound(j1)
            &&& forall|k: int| 0 <= k < b1.len() ==> well_named(#[trigger] b1[k])
            &&& forall|k: Text| k != "nullable"@ ==> #[trigger] j1.member(k) == j.member(k)
        }),
    decreases types.len() - i,
{
    if i < types.len() {
        if types[i as int].text() == Some("null"@) {
            with_sound(j, "nullable"@, Json::Bool(true));
            split_is_sound(types, i + 1, j.with("nullable"@, Json::Bool(true)), branches);
        } else {
            single_is_well_named("type"@, types[i as int]);
            split_is_sound(
                types,
                i + 1,
                j,
                branches.push(Json::single("type"@, types[i as int])),
            );
        }
    }
}

proof fn attached_is_sound(j: Json, branches: Seq<Json>, o: Settings)
    requires
        sound(j),
        forall|k: int| 0 <= k < branches.len() ==> well_named(#[trigger] branches[k]),
    ensures
        ({
            let j1 = fixup::branches_attached(j, branches, o).0;
            &&& sound(j1)
            &&& forall|k: Text|
                k != "oneOf"@ && k != "type"@ && k != o.warning_key() ==> #[trigger] j1.member(k)
                    == j.member(k)
        }),
{
    if branches.len() == 0 {
        without_sound(j, "oneOf"@);
    } else if branches.len() < 2 {
        assert(well_named(branches[0]));
        well_named_member(branches[0], "type"@);
        let j1 = match branches[0].member("type"@) {
            Some(ty) => j.with("type"@, ty),
            None => j,
        };
        if let Some(ty) = branches[0].member("type"@) {
            with_sound(j, "type"@, ty);
        }
        let message = Json::String("Lost properties from oneOf"@);
        with_sound(j1, o.warning_key(), message);
        assert(error::warned(j1, "Lost properties from oneOf"@, o).0 == j1 || error::warned(
            j1,
            "Lost properties from oneOf"@,
            o,
        ).0 == j1.with(o.warning_key(), message));
        without_sound(j1, "oneOf"@);
        without_sound(j1.with(o.warning_key(), message), "oneOf"@);
    } else {
        with_sound(j, "oneOf"@, Json::Array(branches));
    }
}

proof fn type_array_is_sound(j: Json, o: Settings)
    requires
        sound(j),
        !is_keyword(o.warning_key()),
        j.text_member("discriminator"@) is None,
    ensures
        ({
            let j1 = fixup::type_array_fixed(j, o).0;
            &&& sound(j1)
            &&& same_extensions(j, j1)
            &&& j1.text_member("discriminator"@) is None
        }),
{
    keywords_differ();
    assert(!is_extension("nullable"@) && !is_extension("oneOf"@) && !is_extension("type"@));
    if let Some(Json::Array(types)) = j.member("type"@) {
        if types.len() == 0 {
            without_sound(j, "type"@);
        } else {
            well_named_member(j, "type"@);
            well_named_member(j, "oneOf"@);
            let old_branches = json::value_or(j.member("oneOf"@), Json::Null).elements();
            split_is_sound(types, 0, j, old_branches);
            let (j1, branches) = fixup::types_split(types, 0, j, old_branches);
            without_sound(j1, "type"@);
            let j2 = j1.without("type"@);
            attached_is_sound(j2, branches, o);
            let (j3, e) = fixup::branches_attached(j2, branches, o);
            assert(same_extensions(j, j3)) by {
                assert forall|k: Text| is_extension(k) implies #[trigger] j3.member(k)
                    == j.member(k) by {
                    assert(j3.member(k) == j2.member(k));
                    assert(j2.member(k) == j1.member(k));
                }
            }
            assert(j3.member("discriminator"@) == j2.member("discriminator"@));
            assert(j2.member("discriminator"@) == j1.member("discriminator"@));
            if let Some(Json::Array(t)) = j3.member("type"@) {
                well_named_member(j3, "type"@);
                if t.len() == 1 {
                    assert(well_named(t[0]));
                    with_sound(j3, "type"@, t[0]);
                }
            }
        }
    }
}

proof fn types_repaired(j: Json)
    requires
        sound(j),
        j.text_member("discriminator"@) is None,
    ensures
        ({
            let r = fixup::file_type_fixed(fixup::items_supplied(fixup::null_type_fixed(j)));
            &&& sound(r)
            &&& same_extensions(j, r)
            &&& r.text_member("discriminator"@) is None
            &&& !r.says("type"@, "null"@)
            &&& !r.says("type"@, "file"@)
            &&& r.says("type"@, "array"@) ==> r.has("items"@)
            &&& no_arrays(j) ==> no_arrays(r)
        }),
{
    keywords_differ();
    assert(!is_extension("nullable"@) && !is_extension("type"@) && !is_extension("items"@));
    assert(!is_extension("format"@));
    let j1 = fixup::null_type_fixed(j);
    without_sound(j, "type"@);
    with_sound(j.without("type"@), "nullable"@, Json::Bool(true));
    assert(sound(j1) && same_extensions(j, j1));
    assert(!j1.says("type"@, "null"@));
    let j2 = fixup::items_supplied(j1);
    assert(well_named(Json::empty()));
    with_sound(j1, "items"@, Json::empty());
    assert(sound(j2) && same_extensions(j, j2));
    assert(!j2.says("type"@, "null"@));
    let text = Json::String("string"@);
    with_sound(j2, "type"@, text);
    with_sound(j2.with("type"@, text), "format"@, Json::String("binary"@));
}

proof fn rest_repairs(j: Json, parent: Option<Json>, o: Settings)
    requires
        sound(j),
        j.text_member("discriminator"@) is None,
    ensures
        sound(fixup::rest_repaired(j, parent, o).0),
        keywords_are_repaired(fixup::rest_repaired(j, parent, o).0),
        same_extensions(j, fixup::rest_repaired(j, parent, o).0),
        no_arrays(j) ==> no_arrays(fixup::rest_repaired(j, parent, o).0),
{
    keywords_differ();
    assert(!is_extension("required"@) && !is_extension("xml"@));
    assert(!is_extension("allowEmptyValue"@));
    types_repaired(j);
    let j1 = fixup::file_type_fixed(fixup::items_supplied(fixup::null_type_fixed(j)));
    let j2 = fixup::required_moved(j1, parent).0;
    without_sound(j1, "required"@);
    assert(same_extensions(j, j2));
    let j3 = fixup::namespace_dropped(j2);
    if let Some(xml) = j2.member("xml"@) {
        well_named_member(j2, "xml"@);
        if xml is Object {
            without_sound(xml, "namespace"@);
            assert(xml.dropped("namespace"@) == xml.without("namespace"@));
            with_sound(j2, "xml"@, xml.dropped("namespace"@));
        }
    }
    assert(sound(j3) && same_extensions(j, j3));
    without_sound(j3, "allowEmptyValue"@);
}

/// The repair of one schema leaves none of what it removes. A warning that goes under
/// one of the keywords would, so the settings name another place for it.
pub proof fn repair_leaves_none(j: Json, parent: Option<Json>, o: Settings)
    requires
        sound(j),
        !is_keyword(o.warning_key()),
        fixup::keywords_repaired(fixup::extensions_promoted(j), parent, o).3 is None,
    ensures
        sound(fixup::keywords_repaired(fixup::extensions_promoted(j), parent, o).0),
        is_repaired(fixup::keywords_repaired(fixup::extensions_promoted(j), parent, o).0),
{
    promotion_leaves_none(j);
    let j0 = fixup::extensions_promoted(j);
    let o1 = if common::is_truthy(j0.member("nullable"@)) {
        o.patched()
    } else {
        o
    };
    first_repairs(j0);
    let j1 = fixup::items_fixed(fixup::discriminator_wrapped(j0));
    promoted_alike(j0, j1);
    if j1.member("type"@) matches Some(Json::Array(_)) {
        let o2 = o1.patched();
        assert(o2.warning_key() == o.warning_key());
        type_array_is_sound(j1, o2);
        let j2 = fixup::type_array_fixed(j1, o2).0;
        promoted_alike(j1, j2);
        rest_repairs(j2, parent, o2);
        promoted_alike(j2, fixup::rest_repaired(j2, parent, o2).0);
    } else {
        rest_repairs(j1, parent, o1);
        promoted_alike(j1, fixup::rest_repaired(j1, parent, o1).0);
    }
}

/// Whether neither `type` nor `items` is an array.
pub open spec fn no_arrays(j: Json) -> bool {
    !(j.member("type"@) matches Some(Json::Array(_))) && !(j.member("items"@) matches Some(
        Json::Array(_),
    ))
}

/// Whether a schema has no `oneOf`, a `type` array holds texts only and an `items`
/// array objects only.
pub open spec fn is_flat(j: Json) -> bool {
    &&& !j.has("oneOf"@)
    &&& j.member("type"@) matches Some(Json::Array(a)) ==> forall|i: int|
        0 <= i < a.len() ==> (#[trigger] a[i]) is String
    &&& j.member("items"@) matches Some(Json::Array(a)) ==> forall|i: int|
        0 <= i < a.len() ==> (#[trigger] a[i]) is Object
}

/// Whether a branch has a text for its `type` and nothing else.
spec fn is_text_branch(j: Json) -> bool {
    j matches Json::Object(m) && m.len() == 1 && m[0].0 == "type"@ && m[0].1 is String
}

/// The branches that texts split into have a text for their `type` and nothing else.
proof fn text_branches(types: Seq<Json>, i: nat, j: Json, branches: Seq<Json>)
    requires
        forall|k: int| 0 <= k < types.len() ==> (#[trigger] types[k]) is String,
        forall|k: int| 0 <= k < branches.len() ==> is_text_branch(#[trigger] branches[k]),
    ensures
        ({
            let b1 = fixup::types_split(types, i, j, branches).1;
            forall|k: int| 0 <= k < b1.len() ==> is_text_branch(#[trigger] b1[k])
        }),
    decreases types.len() - i,
{
    let r = fixup::types_split(types, i, j, branches).1;
    if i >= types.len() {
        assert(r == branches);
    } else if types[i as int].text() == Some("null"@) {
        let j1 = j.with("nullable"@, Json::Bool(true));
        text_branches(types, i + 1, j1, branches);
        assert(r == fixup::types_split(types, i + 1, j1, branches).1);
    } else {
        let b = branches.push(Json::single("type"@, types[i as int]));
        assert(types[i as int] is String);
        assert forall|k: int| 0 <= k < b.len() implies is_text_branch(#[trigger] b[k]) by {
            if k < branches.len() {
                assert(b[k] == branches[k]);
            }
        }
        text_branches(types, i + 1, j, b);
        assert(r == fixup::types_split(types, i + 1, j, b).1);
    }
}

/// A `type` array of texts is repaired without a failure and leaves no array.
proof fn flat_types(j: Json, o: Settings)
    requires
        sound(j),
        is_flat(j),
        !(j.member("items"@) matches Some(Json::Array(_))),
    ensures
        ({
            let (j1, e) = fixup::type_array_fixed(j, o);
            &&& sound(j1)
            &&& no_arrays(j1)
            &&& e is None
            &&& j1.member("discriminator"@) == j.member("discriminator"@)
        }),
{
    keywords_differ();
    if let Some(Json::Array(types)) = j.member("type"@) {
        if types.len() == 0 {
            without_sound(j, "type"@);
        } else {
            well_named_member(j, "type"@);
            let none = Seq::<Json>::empty();
            assert(json::value_or(j.member("oneOf"@), Json::Null).elements() =~= none);
            split_is_sound(types, 0, j, none);
            text_branches(types, 0, j, none);
            let (j1, branches) = fixup::types_split(types, 0, j, none);
            let j2 = j1.without("type"@);
            without_sound(j1, "type"@);
            if branches.len() == 0 {
                without_sound(j2, "oneOf"@);
            } else if branches.len() == 1 {
                assert(is_text_branch(branches[0]));
                let t = branches[0].members()[0].1->String_0;
                laws::index_is_first(branches[0].members(), "type"@, 0, 0);
                assert(branches[0].member("type"@) == Some(Json::String(t)));
                with_sound(j2, "type"@, Json::String(t));
                without_sound(j2.with("type"@, Json::String(t)), "oneOf"@);
            } else {
                with_sound(j2, "oneOf"@, Json::Array(branches));
            }
        }
    }
}

/// The repair of the keywords of a flat schema under `patch` succeeds, leaves none of
/// what it removes and no array under `type` or `items`, and changes nothing when it
/// is made again.
pub proof fn keyword_repair_is_final(j: Json, parent: Option<Json>, o: Settings)
    requires
        sound(j),
        is_flat(j),
        o.patch,
    ensures
        ({
            let (r, p, o1, e) = fixup::keywords_repaired(j, parent, o);
            &&& e is None
            &&& sound(r)
            &&& keywords_are_repaired(r)
            &&& no_arrays(r)
            &&& forall|q: Option<Json>, s: Settings|
                {
                    let again = #[trigger] fixup::keywords_repaired(r, q, s);
                    again.0 == r && again.1 == q && again.3 is None
                }
        }),
{
    keywords_differ();
    first_repairs(j);
    let o1 = if common::is_truthy(j.member("nullable"@)) {
        o.patched()
    } else {
        o
    };
    let j1 = fixup::items_fixed(fixup::discriminator_wrapped(j));
    flat_items(j);
    if j1.member("type"@) matches Some(Json::Array(_)) {
        let o2 = o1.patched();
        flat_types(j1, o2);
        rest_repairs(fixup::type_array_fixed(j1, o2).0, parent, o2);
    } else {
        rest_repairs(j1, parent, o1);
    }
    let r = fixup::keywords_repaired(j, parent, o).0;
    assert forall|q: Option<Json>, s: Settings|
        {
            let again = #[trigger] fixup::keywords_repaired(r, q, s);
            again.0 == r && again.1 == q && again.3 is None
        } by {
        repaired_stays(r, q, s);
    }
}

proof fn flat_items(j: Json)
    requires
        sound(j),
        is_flat(j),
    ensures
        ({
            let r = fixup::items_fixed(fixup::discriminator_wrapped(j));
            &&& is_flat(r)
            &&& !(r.member("items"@) matches Some(Json::Array(_)))
        }),
{
    keywords_differ();
    let j1 = fixup::discriminator_wrapped(j);
    if let Some(name) = j.text_member("discriminator"@) {
        single_is_well_named("propertyName"@, Json::String(name));
        with_sound(j, "discriminator"@, Json::single("propertyName"@, Json::String(name)));
    }
    assert(is_flat(j1));
    if let Some(Json::Array(a)) = j1.member("items"@) {
        well_named_member(j1, "items"@);
        let v = fixup::items_collapsed(a);
        if a.len() == 1 {
            assert(a[0] is Object);
            assert(well_named(a[0]));
        } else if a.len() > 1 {
            single_is_well_named("anyOf"@, Json::Array(a));
        }
        with_sound(j1, "items"@, v);
    }
}

/// The repair of keywords leaves a schema that needs none as it is.
pub proof fn repaired_stays(j: Json, parent: Option<Json>, o: Settings)
    requires
        keywords_are_repaired(j),
        no_arrays(j),
    ensures
        fixup::keywords_repaired(j, parent, o).0 == j,
        fixup::keywords_repaired(j, parent, o).1 == parent,
        fixup::keywords_repaired(j, parent, o).3 is None,
{
}

// --- every subschema -------------------------------------------------------

/// Whether a schema and every subschema is repaired. What stands next to a `$ref` is
/// no part of a schema.
pub open spec fn all_repaired(j: Json) -> bool
    decreases j, 0nat,
{
    match j {
        Json::Object(m) => j.text_member("$ref"@) is Some || (is_repaired(j) && forall|i: int|
            0 <= i < m.len() ==> below_repaired((#[trigger] m[i]).0, m[i].1)),
        _ => true,
    }
}

/// Whether every subschema in the member named `key` is repaired.
pub open spec fn below_repaired(key: Text, v: Json) -> bool
    decreases v, 1nat,
{
    &&& schema_walker::single_key(key) ==> all_repaired(v)
    &&& (key == "properties"@ || key == "patternProperties"@) ==> match v {
        Json::Object(m) => forall|i: int| 0 <= i < m.len() ==> all_repaired((#[trigger] m[i]).1),
        _ => true,
    }
    &&& (key == "allOf"@ || key == "anyOf"@ || key == "oneOf"@) ==> match v {
        Json::Array(a) => forall|i: int| 0 <= i < a.len() ==> all_repaired(#[trigger] a[i]),
        _ => true,
    }
}

/// Whether the member named `key` is repaired, when there is one.
spec fn member_repaired(j: Json, key: Text) -> bool {
    j.member(key) matches Some(v) ==> below_repaired(key, v)
}

/// Whether only the members `key` and `required` changed, `key` is where it was and
/// `required` became no boolean.
spec fn advanced(a: Json, b: Json, key: Text) -> bool {
    &&& sound(b)
    &&& b.has(key) == a.has(key)
    &&& forall|k: Text| k != key && k != "required"@ ==> #[trigger] b.member(k) == a.member(k)
    &&& b.member("required"@) matches Some(Json::Bool(_)) ==> a.member("required"@) matches Some(
        Json::Bool(_),
    )
}

/// Whether a walk of a child kept its parent: only `required` changed, and became no
/// boolean.
spec fn kept_parent(a: Option<Json>, b: Option<Json>) -> bool {
    match (a, b) {
        (Some(x), Some(y)) => {
            &&& sound(y)
            &&& forall|k: Text| k != "required"@ ==> #[trigger] y.member(k) == x.member(k)
            &&& y.member("required"@) matches Some(Json::Bool(_)) ==> x.member(
                "required"@,
            ) matches Some(Json::Bool(_))
        },
        (None, None) => true,
        _ => false,
    }
}

/// Whether a name is one of those under which a walk goes on.
spec fn is_below(key: Text) -> bool {
    schema_walker::single_key(key) || schema_walker::plural_key(key)
}

proof fn below_differ()
    ensures
        forall|k: Text| #[trigger] is_below(k) ==> !is_extension(k) && k != "discriminator"@ && k
            != "type"@ && k != "required"@ && k != "xml"@ && k != "allowEmptyValue"@,
        !schema_walker::single_key("properties"@),
        !schema_walker::single_key("patternProperties"@),
        !schema_walker::single_key("allOf"@),
        !schema_walker::single_key("anyOf"@),
        !schema_walker::single_key("oneOf"@),
        !schema_walker::plural_key("items"@),
        !schema_walker::plural_key("additionalItems"@),
        !schema_walker::plural_key("additionalProperties"@),
        !schema_walker::plural_key("not"@),
        "items"@ != "additionalItems"@,
        "items"@ != "additionalProperties"@,
        "items"@ != "not"@,
        "additionalItems"@ != "additionalProperties"@,
        "additionalItems"@ != "not"@,
        "additionalProperties"@ != "not"@,
        "properties"@ != "patternProperties"@,
        "properties"@ != "allOf"@,
        "properties"@ != "anyOf"@,
        "properties"@ != "oneOf"@,
        "patternProperties"@ != "allOf"@,
        "patternProperties"@ != "anyOf"@,
        "patternProperties"@ != "oneOf"@,
        "allOf"@ != "anyOf"@,
        "allOf"@ != "oneOf"@,
        "anyOf"@ != "oneOf"@,
{
    reveal_strlit("items");
    reveal_strlit("additionalItems");
    reveal_strlit("additionalProperties");
    reveal_strlit("properties");
    reveal_strlit("patternProperties");
    reveal_strlit("allOf");
    reveal_strlit("anyOf");
    reveal_strlit("oneOf");
    reveal_strlit("not");
    reveal_strlit("x-anyOf");
    reveal_strlit("x-oneOf");
    reveal_strlit("x-not");
    reveal_strlit("x-required");
    reveal_strlit("x-nullable");
    reveal_strlit("x-discriminator");
    reveal_strlit("discriminator");
    reveal_strlit("type");
    reveal_strlit("required");
    reveal_strlit("xml");
    reveal_strlit("allowEmptyValue");
    assert("items"@.len() == 5 && "not"@.len() == 3 && "properties"@.len() == 10);
    assert("allOf"@.len() == 5 && "anyOf"@.len() == 5 && "oneOf"@.len() == 5);
    assert("additionalItems"@.len() == 15 && "additionalProperties"@.len() == 20);
    assert("patternProperties"@.len() == 17 && "type"@.len() == 4 && "xml"@.len() == 3);
    assert("x-anyOf"@.len() == 7 && "x-oneOf"@.len() == 7 && "x-not"@.len() == 5);
    assert("x-required"@.len() == 10 && "x-nullable"@.len() == 10 && "required"@.len() == 8);
    assert("x-discriminator"@.len() == 15 && "discriminator"@.len() == 13);
    assert("allowEmptyValue"@.len() == 15);
    assert("items"@[0] == 'i' && "allOf"@[0] == 'a' && "anyOf"@[0] == 'a' && "oneOf"@[0] == 'o');
    assert("allOf"@[1] == 'l' && "anyOf"@[1] == 'n' && "x-not"@[0] == 'x' && "not"@[0] == 'n');
    assert("properties"@[0] == 'p' && "x-required"@[0] == 'x' && "x-nullable"@[0] == 'x');
    assert("additionalItems"@[1] == 'd' && "x-discriminator"@[1] == '-');
    assert("allowEmptyValue"@[1] == 'l' && "xml"@[0] == 'x');
}

/// A schema stays repaired when a walk advances under one of its names.
proof fn repaired_advances(a: Json, b: Json, key: Text)
    requires
        is_repaired(a),
        is_below(key),
        advanced(a, b, key),
    ensures
        is_repaired(b),
{
    below_differ();
    keywords_differ();
    assert(!is_extension("required"@));
    assert(same_extensions(a, b));
    promoted_alike(a, b);
    assert(b.member("discriminator"@) == a.member("discriminator"@));
    assert(b.member("type"@) == a.member("type"@));
    assert(b.member("xml"@) == a.member("xml"@));
    assert(b.member("allowEmptyValue"@) == a.member("allowEmptyValue"@));
    if key != "items"@ {
        assert(b.member("items"@) == a.member("items"@));
    }
}

/// A visit keeps the parent.
proof fn visit_keeps_parent(s: (Settings, Option<Text>), j: Json, parent: Option<Json>)
    requires
        parent matches Some(p) ==> sound(p),
    ensures
        kept_parent(parent, fixup::sub_schema_fixed(s, j, parent).2),
        fixup::sub_schema_fixed(s, j, parent).0.0.warning_key() == s.0.warning_key(),
        s.1 is Some ==> fixup::sub_schema_fixed(s, j, parent).0.1 is Some,
{
    assert forall|name: Text| kept_parent(
        parent,
        #[trigger] fixup::name_required(parent, name),
    ) by {
        if let Some(p) = parent {
            let e = Json::Array(Seq::empty());
            assert(well_named(e));
            with_sound(p, "required"@, e);
            let p1 = Json::Object(json::insert_new(p.members(), "required"@, e));
            assert(p1 == p || p1 == p.with("required"@, e));
            if let Some(Json::Array(a)) = p1.member("required"@) {
                well_named_member(p1, "required"@);
                let b = a.push(Json::String(name));
                assert forall|i: int| 0 <= i < b.len() implies well_named(#[trigger] b[i]) by {
                    if i < a.len() {
                        assert(well_named(a[i]));
                    }
                }
                with_sound(p1, "required"@, Json::Array(b));
            }
        }
    }
}

/// A visit of an array, which has no members, leaves it as it is.
proof fn array_visit(s: (Settings, Option<Text>), j: Json, parent: Option<Json>)
    requires
        j is Array,
    ensures
        fixup::sub_schema_fixed(s, j, parent).1 == j,
{
    laws::index_found(j.members(), "type"@, 0);
    assert(forall|k: Text| j.member(k) is None);
}

/// What holds before a walk that has not failed.
spec fn ready(h: nat, s: (Settings, Option<Text>), j: Json, parent: Option<Json>) -> bool {
    &&& !is_keyword(s.0.warning_key())
    &&& s.1 is None ==> {
        &&& schema_walker::rank(j) <= h
        &&& well_named(j)
        &&& parent matches Some(p) ==> sound(p)
    }
}

/// What a walk does to the state: a failure stays.
spec fn follows(s: (Settings, Option<Text>), t: (Settings, Option<Text>)) -> bool {
    t.0.warning_key() == s.0.warning_key() && (s.1 is Some ==> t.1 is Some)
}

proof fn walk_repairs(h: nat, s: (Settings, Option<Text>), j: Json, parent: Option<Json>)
    requires
        ready(h, s, j, parent),
    ensures
        ({
            let (t, c, p) = schema_walker::walked::<Fixer>(h, s, j, parent);
            &&& follows(s, t)
            &&& p is Some == parent is Some
            &&& t.1 is None ==> well_named(c) && all_repaired(c) && kept_parent(parent, p)
            &&& t.1 is None && j is Object && j.text_member("$ref"@) is None ==> forall|k: Text|
                !is_below(k) && k != "required"@ ==> #[trigger] c.member(k)
                    == fixup::sub_schema_fixed(s, j, parent).1.member(k)
        }),
    decreases h, 3nat, 0nat,
{
    if j is Object || j is Array {
        if j.text_member("$ref"@) is Some {
            let copy = Json::single("$ref"@, j.member("$ref"@)->0);
            visit_state(s, copy, parent);
            if s.1 is None {
                visit_keeps_parent(s, copy, parent);
            }
        } else {
            visit_state(s, j, parent);
            let (s1, j1, p1) = fixup::sub_schema_fixed(s, j, parent);
            if s.1 is None {
                visit_keeps_parent(s, j, parent);
            }
            if s1.1 is None {
                <Fixer as SchemaVisitor>::visit_is_bounded(s, j, parent);
                if j is Object {
                    repair_leaves_none(j, parent, s.0);
                    assert forall|key: Text| is_below(key) && #[trigger] j1.member(
                        key,
                    ) is Some implies schema_walker::fits(key, j1.member(key)->0, h) by {
                        laws::index_found(j1.members(), key, 0);
                        let k = json::index_of(j1.members(), key);
                        assert(schema_walker::fits(
                            j1.members()[k].0,
                            j1.members()[k].1,
                            schema_walker::rank(j),
                        ));
                    }
                } else {
                    array_visit(s, j, parent);
                }
            }
            children_repair(h, s1, j1);
        }
    }
}

/// What a visit does to the state and whether it keeps the parent.
proof fn visit_state(s: (Settings, Option<Text>), j: Json, parent: Option<Json>)
    ensures
        follows(s, fixup::sub_schema_fixed(s, j, parent).0),
        fixup::sub_schema_fixed(s, j, parent).2 is Some == parent is Some,
        s.1 is Some ==> fixup::sub_schema_fixed(s, j, parent) == (s, j, parent),
{
}

/// What holds before a walk of children that has not failed.
spec fn children_ready(h: nat, s: (Settings, Option<Text>), j: Json) -> bool {
    &&& !is_keyword(s.0.warning_key())
    &&& s.1 is None ==> {
        ||| j is Array
        ||| sound(j) && is_repaired(j) && forall|key: Text|
            is_below(key) && #[trigger] j.member(key) is Some ==> schema_walker::fits(
                key,
                j.member(key)->0,
                h,
            )
    }
}

proof fn children_repair(h: nat, s: (Settings, Option<Text>), j: Json)
    requires
        children_ready(h, s, j),
        s.1 is None && j is Array ==> well_named(j),
    ensures
        ({
            let (t, c) = schema_walker::children_walked::<Fixer>(h, s, j);
            &&& follows(s, t)
            &&& t.1 is None ==> well_named(c) && all_repaired(c)
            &&& t.1 is None && j is Object ==> forall|k: Text|
                !is_below(k) && k != "required"@ ==> #[trigger] c.member(k) == j.member(k)
        }),
    decreases h, 2nat, 0nat,
{
    below_differ();
    assert(is_below("items"@) && is_below("additionalItems"@) && is_below("not"@));
    assert(is_below("additionalProperties"@) && is_below("properties"@));
    assert(is_below("patternProperties"@) && is_below("allOf"@) && is_below("anyOf"@));
    assert(is_below("oneOf"@));
    let (s1, j1) = schema_walker::child_walked::<Fixer>(h, s, j, "items"@);
    child_repairs(h, s, j, "items"@);
    let (s2, j2) = schema_walker::container_walked::<Fixer>(h, s1, j1, "additionalItems"@);
    container_repairs(h, s1, j1, "additionalItems"@);
    let (s3, j3) = schema_walker::container_walked::<Fixer>(h, s2, j2, "additionalProperties"@);
    container_repairs(h, s2, j2, "additionalProperties"@);
    let (s4, j4) = schema_walker::map_walked::<Fixer>(h, s3, j3, "properties"@);
    map_repairs(h, s3, j3, "properties"@);
    let (s5, j5) = schema_walker::map_walked::<Fixer>(h, s4, j4, "patternProperties"@);
    map_repairs(h, s4, j4, "patternProperties"@);
    let (s6, j6) = schema_walker::array_walked::<Fixer>(h, s5, j5, "allOf"@);
    array_repairs(h, s5, j5, "allOf"@);
    let (s7, j7) = schema_walker::array_walked::<Fixer>(h, s6, j6, "anyOf"@);
    array_repairs(h, s6, j6, "anyOf"@);
    let (s8, j8) = schema_walker::array_walked::<Fixer>(h, s7, j7, "oneOf"@);
    array_repairs(h, s7, j7, "oneOf"@);
    let (s9, j9) = schema_walker::child_walked::<Fixer>(h, s8, j8, "not"@);
    child_repairs(h, s8, j8, "not"@);
    if s9.1 is None && j is Object {
        assert(member_repaired(j9, "items"@));
        assert(member_repaired(j9, "additionalItems"@));
        assert(member_repaired(j9, "additionalProperties"@));
        assert(member_repaired(j9, "properties"@));
        assert(member_repaired(j9, "patternProperties"@));
        assert(member_repaired(j9, "allOf"@));
        assert(member_repaired(j9, "anyOf"@));
        assert(member_repaired(j9, "oneOf"@));
        assert(member_repaired(j9, "not"@));
        members_make_schema(j9);
        assert forall|k: Text| !is_below(k) && k != "required"@ implies #[trigger] j9.member(k)
            == j.member(k) by {
            assert(j9.member(k) == j8.member(k));
            assert(j8.member(k) == j7.member(k));
            assert(j7.member(k) == j6.member(k));
            assert(j6.member(k) == j5.member(k));
            assert(j5.member(k) == j4.member(k));
            assert(j4.member(k) == j3.member(k));
            assert(j3.member(k) == j2.member(k));
            assert(j2.member(k) == j1.member(k));
        }
    }
}

/// A repaired schema with repaired members is repaired throughout.
proof fn members_make_schema(j: Json)
    requires
        sound(j),
        is_repaired(j),
        member_repaired(j, "items"@),
        member_repaired(j, "additionalItems"@),
        member_repaired(j, "additionalProperties"@),
        member_repaired(j, "properties"@),
        member_repaired(j, "patternProperties"@),
        member_repaired(j, "allOf"@),
        member_repaired(j, "anyOf"@),
        member_repaired(j, "oneOf"@),
        member_repaired(j, "not"@),
    ensures
        all_repaired(j),
{
    let m = j.members();
    assert forall|i: int| 0 <= i < m.len() implies below_repaired(
        (#[trigger] m[i]).0,
        m[i].1,
    ) by {
        laws::index_is_first(m, m[i].0, 0, i);
        assert(j.member(m[i].0) == Some(m[i].1));
    }
}

/// What a walk of the child under `key` leads to.
spec fn stepped(
    s: (Settings, Option<Text>),
    j: Json,
    key: Text,
    t: (Settings, Option<Text>),
    c: Json,
) -> bool {
    &&& follows(s, t)
    &&& t.1 is None ==> if j is Array {
        c == j
    } else {
        &&& is_repaired(c)
        &&& advanced(j, c, key)
        &&& member_repaired(c, key)
    }
}

/// What holds before a walk of the child under `key` that has not failed.
spec fn step_ready(h: nat, s: (Settings, Option<Text>), j: Json, key: Text) -> bool {
    &&& !is_keyword(s.0.warning_key())
    &&& s.1 is None ==> {
        ||| j is Array
        ||| sound(j) && is_repaired(j) && (j.member(key) matches Some(v) ==> schema_walker::fits(
            key,
            v,
            h,
        ))
    }
}

/// Putting a walked child back advances its schema.
proof fn reattaching_advances(j: Json, key: Text, p: Json, c: Json)
    requires
        sound(j),
        is_repaired(j),
        j.has(key),
        is_below(key),
        kept_parent(Some(j.dropped(key)), Some(p)),
        well_named(c),
        below_repaired(key, c),
    ensures
        is_repaired(schema_walker::reattached(p, key, c)),
        advanced(j, schema_walker::reattached(p, key, c), key),
        member_repaired(schema_walker::reattached(p, key, c), key),
{
    below_differ();
    without_sound(j, key);
    assert(j.dropped(key) == j.without(key));
    with_sound(p, key, c);
    let r = p.with(key, c);
    assert(r == schema_walker::reattached(p, key, c));
    assert forall|k: Text| k != key && k != "required"@ implies #[trigger] r.member(k)
        == j.member(k) by {
        assert(r.member(k) == p.member(k));
        assert(p.member(k) == j.without(key).member(k));
    }
    assert(r.member("required"@) == p.member("required"@));
    assert(j.without(key).member("required"@) == j.member("required"@));
    assert(advanced(j, r, key));
    repaired_advances(j, r, key);
}

proof fn child_repairs(h: nat, s: (Settings, Option<Text>), j: Json, key: Text)
    requires
        step_ready(h, s, j, key),
        schema_walker::single_key(key),
    ensures
        ({
            let (t, c) = schema_walker::child_walked::<Fixer>(h, s, j, key);
            stepped(s, j, key, t, c)
        }),
    decreases h, 1nat, 0nat,
{
    below_differ();
    assert(is_below(key));
    if let Some(child) = j.member(key) {
        if h > 0 {
            let d = (h - 1) as nat;
            if s.1 is None {
                well_named_member(j, key);
                without_sound(j, key);
            }
            walk_repairs(d, s, child, Some(j.dropped(key)));
            let (t, c, p) = schema_walker::walked::<Fixer>(d, s, child, Some(j.dropped(key)));
            if t.1 is None {
                reattaching_advances(j, key, p->0, c);
            }
        }
    }
}

proof fn container_repairs(h: nat, s: (Settings, Option<Text>), j: Json, key: Text)
    requires
        step_ready(h, s, j, key),
        schema_walker::single_key(key),
    ensures
        ({
            let (t, c) = schema_walker::container_walked::<Fixer>(h, s, j, key);
            stepped(s, j, key, t, c)
        }),
    decreases h, 1nat, 1nat,
{
    below_differ();
    assert(is_below(key));
    child_repairs(h, s, j, key);
}

proof fn map_repairs(h: nat, s: (Settings, Option<Text>), j: Json, key: Text)
    requires
        step_ready(h, s, j, key),
        key == "properties"@ || key == "patternProperties"@,
    ensures
        ({
            let (t, c) = schema_walker::map_walked::<Fixer>(h, s, j, key);
            stepped(s, j, key, t, c)
        }),
    decreases h, 1nat, 0nat,
{
    below_differ();
    assert(is_below(key));
    if let Some(child) = j.member(key) {
        let parent = j.dropped(key);
        if s.1 is None {
            well_named_member(j, key);
            without_sound(j, key);
        }
        match child {
            Json::Object(m) => {
                let names = json::keys(m);
                if s.1 is None {
                    schema_walker::members_rank_bound(m, 0, schema_walker::members_rank(m, 0));
                    assert forall|i: int| 0 <= i < m.len() implies waits(
                        h,
                        names,
                        0,
                        #[trigger] m[i],
                    ) by {
                        assert(names[i] == m[i].0);
                        assert(pending(names, 0, m[i].0));
                        assert(schema_walker::member_rank(
                            m[i].0,
                            m[i].1,
                            schema_walker::rank(m[i].1),
                        ) <= schema_walker::members_rank(m, 0));
                    }
                    assert forall|a: int, b: int| 0 <= a < b < names.len() implies (
                    #[trigger] names[a]) != (#[trigger] names[b]) by {
                        assert(m[a].0 != m[b].0);
                    }
                }
                members_repair(h, names, 0, s, m, parent);
                let (t, m1, p) = schema_walker::members_walked::<Fixer>(
                    h,
                    names,
                    0,
                    s,
                    m,
                    parent,
                );
                if t.1 is None {
                    reattaching_advances(j, key, p, Json::Object(m1));
                }
            },
            _ => {
                if s.1 is None {
                    reattaching_advances(j, key, parent, child);
                }
            },
        }
    }
}

/// Whether a name is still to be walked.
spec fn pending(names: Seq<Text>, i: nat, name: Text) -> bool {
    exists|k: int| i <= k < names.len() && #[trigger] names[k] == name
}

/// Whether a member is still to be walked and ranks low enough, or is repaired.
spec fn waits(h: nat, names: Seq<Text>, i: nat, member: (Text, Json)) -> bool {
    if pending(names, i, member.0) {
        schema_walker::rank(member.1) < h
    } else {
        all_repaired(member.1)
    }
}

proof fn members_repair(
    h: nat,
    names: Seq<Text>,
    i: nat,
    s: (Settings, Option<Text>),
    m: Members,
    parent: Json,
)
    requires
        !is_keyword(s.0.warning_key()),
        s.1 is None ==> {
            &&& sound(Json::Object(m))
            &&& sound(parent)
            &&& forall|k: int| 0 <= k < m.len() ==> waits(h, names, i, #[trigger] m[k])
            &&& forall|a: int, b: int|
                0 <= a < b < names.len() ==> (#[trigger] names[a]) != (#[trigger] names[b])
        },
    ensures
        ({
            let (t, m1, p) = schema_walker::members_walked::<Fixer>(h, names, i, s, m, parent);
            &&& follows(s, t)
            &&& t.1 is None ==> {
                &&& well_named(Json::Object(m1))
                &&& kept_parent(Some(parent), Some(p))
                &&& forall|k: int| 0 <= k < m1.len() ==> all_repaired((#[trigger] m1[k]).1)
            }
        }),
    decreases h, 0nat, names.len() - i,
{
    if i < names.len() {
        let name = names[i as int];
        match json::lookup(m, name) {
            Some(sub) => {
                if s.1 is None {
                    well_named_member(Json::Object(m), name);
                    laws::index_found(m, name, 0);
                    assert(waits(h, names, i, m[json::index_of(m, name)]));
                    assert(pending(names, i, name));
                }
                if h > 0 {
                    let d = (h - 1) as nat;
                    walk_repairs(d, s, sub, Some(parent));
                    let (s1, c1, p1) = schema_walker::walked::<Fixer>(d, s, sub, Some(parent));
                    let m2 = json::insert(json::remove(m, name), name, c1);
                    if s1.1 is None {
                        replaced_member(h, names, i, m, c1);
                    }
                    members_repair(h, names, i + 1, s1, m2, p1->0);
                }
            },
            None => {
                if s.1 is None {
                    assert forall|k: int| 0 <= k < m.len() implies waits(
                        h,
                        names,
                        i + 1,
                        #[trigger] m[k],
                    ) by {
                        assert(waits(h, names, i, m[k]));
                        laws::index_found(m, name, 0);
                        assert(m[k].0 != name);
                        pending_after(names, i, m[k].0);
                    }
                }
                members_repair(h, names, i + 1, s, m, parent);
            },
        }
    } else if s.1 is None {
        assert forall|k: int| 0 <= k < m.len() implies all_repaired((#[trigger] m[k]).1) by {
            assert(waits(h, names, i, m[k]));
        }
    }
}

proof fn pending_after(names: Seq<Text>, i: nat, name: Text)
    requires
        i < names.len(),
        names[i as int] != name,
    ensures
        pending(names, i, name) == pending(names, i + 1, name),
{
    if pending(names, i, name) {
        let k = choose|k: int| i <= k < names.len() && #[trigger] names[k] == name;
        assert(i + 1 <= k && names[k] == name);
    }
}

/// A walked member goes to the end, and the others wait as they did.
proof fn replaced_member(h: nat, names: Seq<Text>, i: nat, m: Members, c: Json)
    requires
        i < names.len(),
        sound(Json::Object(m)),
        well_named(c),
        all_repaired(c),
        forall|k: int| 0 <= k < m.len() ==> waits(h, names, i, #[trigger] m[k]),
        forall|a: int, b: int|
            0 <= a < b < names.len() ==> (#[trigger] names[a]) != (#[trigger] names[b]),
    ensures
        ({
            let name = names[i as int];
            let m2 = json::insert(json::remove(m, name), name, c);
            &&& sound(Json::Object(m2))
            &&& forall|k: int| 0 <= k < m2.len() ==> waits(h, names, i + 1, #[trigger] m2[k])
        }),
{
    let name = names[i as int];
    let j = Json::Object(m);
    let m1 = json::remove(m, name);
    let m2 = json::insert(m1, name, c);
    without_sound(j, name);
    with_sound(j.without(name), name, c);
    assert(j.without(name).with(name, c) == Json::Object(m2));
    laws::index_found(m1, name, 0);
    assert(!json::has_key(m1, name));
    assert(!pending(names, i + 1, name)) by {
        if pending(names, i + 1, name) {
            let k = choose|k: int| i + 1 <= k < names.len() && #[trigger] names[k] == name;
            assert(names[i as int] != names[k]);
        }
    }
    assert forall|k: int| 0 <= k < m2.len() implies waits(h, names, i + 1, #[trigger] m2[k]) by {
        if k < m1.len() {
            assert(m2[k] == m1[k]);
            assert(m1[k].0 != name);
            laws::index_found(m, name, 0);
            let q = if json::has_key(m, name) && k == json::index_of(m, name) {
                m.len() - 1
            } else {
                k
            };
            assert(m1[k] == m[q]);
            assert(waits(h, names, i, m[q]));
            pending_after(names, i, m1[k].0);
        }
    }
}

proof fn array_repairs(h: nat, s: (Settings, Option<Text>), j: Json, key: Text)
    requires
        step_ready(h, s, j, key),
        key == "allOf"@ || key == "anyOf"@ || key == "oneOf"@,
    ensures
        ({
            let (t, c) = schema_walker::array_walked::<Fixer>(h, s, j, key);
            stepped(s, j, key, t, c)
        }),
    decreases h, 1nat, 0nat,
{
    below_differ();
    assert(is_below(key));
    if let Some(child) = j.member(key) {
        let parent = j.dropped(key);
        if s.1 is None {
            well_named_member(j, key);
            without_sound(j, key);
        }
        match child {
            Json::Array(a) => {
                if s.1 is None {
                    schema_walker::elements_rank_bound(a, 0, schema_walker::elements_rank(a, 0));
                }
                elements_repair(h, 0, s, a, parent);
                let (t, a1, p) = schema_walker::elements_walked::<Fixer>(h, 0, s, a, parent);
                if t.1 is None {
                    reattaching_advances(j, key, p, Json::Array(a1));
                }
            },
            _ => {
                if s.1 is None {
                    reattaching_advances(j, key, parent, child);
                }
            },
        }
    }
}

proof fn well_named_element(a: Seq<Json>, k: int)
    requires
        well_named(Json::Array(a)),
        0 <= k < a.len(),
    ensures
        well_named(a[k]),
{
    let j = Json::Array(a);
    if let Json::Array(b) = j {
        assert(well_named(b[k]));
    }
}

proof fn elements_repair(
    h: nat,
    i: nat,
    s: (Settings, Option<Text>),
    a: Seq<Json>,
    parent: Json,
)
    requires
        !is_keyword(s.0.warning_key()),
        s.1 is None ==> {
            &&& well_named(Json::Array(a))
            &&& sound(parent)
            &&& forall|k: int| i <= k < a.len() ==> schema_walker::rank(#[trigger] a[k]) < h
            &&& forall|k: int| 0 <= k < i && k < a.len() ==> all_repaired(#[trigger] a[k])
        },
    ensures
        ({
            let (t, a1, p) = schema_walker::elements_walked::<Fixer>(h, i, s, a, parent);
            &&& follows(s, t)
            &&& t.1 is None ==> {
                &&& well_named(Json::Array(a1))
                &&& kept_parent(Some(parent), Some(p))
                &&& forall|k: int| 0 <= k < a1.len() ==> all_repaired(#[trigger] a1[k])
            }
        }),
    decreases h, 0nat, a.len() - i,
{
    if i < a.len() {
        if h > 0 {
            let d = (h - 1) as nat;
            let sub = a[i as int];
            if s.1 is None {
                well_named_element(a, i as int);
            }
            walk_repairs(d, s, sub, Some(parent));
            let (s1, c1, p1) = schema_walker::walked::<Fixer>(d, s, sub, Some(parent));
            let a2 = a.update(i as int, c1);
            if s1.1 is None {
                assert forall|k: int| 0 <= k < a2.len() implies well_named(#[trigger] a2[k]) by {
                    well_named_element(a, k);
                }
            }
            elements_repair(h, i + 1, s1, a2, p1->0);
        }
    }
}

/// A schema that was repaired without a failure is repaired, and so is every subschema
/// of it. A warning that goes under one of the keywords would undo that, so the
/// settings name another place for it.
pub proof fn repair_reaches_every_subschema(j: Json, o: Settings)
    requires
        well_named(j),
        !is_keyword(o.warning_key()),
        fixup::schema_fixed(j, o).2 is None,
    ensures
        all_repaired(fixup::schema_fixed(j, o).0),
        well_named(fixup::schema_fixed(j, o).0),
{
    walk_repairs(schema_walker::rank(j), (o, None), j, None);
}

/// The repair of a schema and of its subschemas leaves the other members of the schema
/// as the repair of the schema alone does, but for the list of required names, which
/// subschemas may add to.
pub proof fn subschemas_change_no_other_member(j: Json, o: Settings, key: Text)
    requires
        sound(j),
        j.text_member("$ref"@) is None,
        !is_keyword(o.warning_key()),
        fixup::schema_fixed(j, o).2 is None,
        key != "required"@,
        !schema_walker::single_key(key) && !schema_walker::plural_key(key),
    ensures
        fixup::schema_fixed(j, o).0.member(key) == fixup::keywords_repaired(
            fixup::extensions_promoted(j),
            None,
            o,
        ).0.member(key),
{
    walk_repairs(schema_walker::rank(j), (o, None), j, None);
    assert(!is_below(key));
}

} // verus!
