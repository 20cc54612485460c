//! Laws of references.

use vstd::prelude::*;

use crate::common;
use crate::convert::components;
use crate::convert::parameter;
use crate::convert::refs::{self, RefCollector};
use crate::error;
use crate::fixup;
use crate::jptr::{self, Target};
use crate::json::{self, Json, Members, Text};
use crate::laws;
use crate::name_laws::{self, is_name};
use crate::options::{RefSiblings, Settings};
use crate::output_laws;
use crate::path_laws;
use crate::recurse::{self, Visitor};
use crate::suffix;
use crate::text;
use crate::text_laws;
use crate::traversal_laws;

verus! {

// --- names in pointers -----------------------------------------------------

proof fn name_escapes_to_itself(s: Text, i: int)
    requires
        0 <= i <= s.len(),
        is_name(s),
    ensures
        jptr::escape_from(s, i) == s.skip(i),
    decreases s.len() - i,
{
    if i < s.len() {
        name_escapes_to_itself(s, i + 1);
        assert(common::name_char(s[i]));
        assert(seq![s[i]] + s.skip(i + 1) =~= s.skip(i));
    } else {
        assert(s.skip(i) =~= Seq::empty());
    }
}

proof fn name_encodes_to_itself(s: Text, bytes: Seq<u8>, i: int)
    requires
        0 <= i <= s.len(),
        is_name(s),
        bytes.len() == s.len(),
        forall|k: int| 0 <= k < s.len() ==> #[trigger] bytes[k] == s[k] as u8,
    ensures
        common::encode_from(bytes, i) == s.skip(i),
    decreases s.len() - i,
{
    if i < s.len() {
        name_encodes_to_itself(s, bytes, i + 1);
        assert(common::name_char(s[i]));
        assert(bytes[i] == s[i] as u8);
        assert(bytes[i] as char == s[i]);
        assert(seq![s[i]] + s.skip(i + 1) =~= s.skip(i));
    } else {
        assert(s.skip(i) =~= Seq::empty());
    }
}

/// A component name stands in a pointer as it is.
pub proof fn name_is_segment(s: Text)
    requires
        is_name(s),
    ensures
        common::uri_encoded(jptr::escaped(s)) == s,
{
    name_escapes_to_itself(s, 0);
    assert(s.skip(0) =~= s);
    assert forall|i: int| 0 <= i < s.len() implies '\0' <= #[trigger] s[i] <= '\u{7f}' by {
        assert(common::name_char(s[i]));
    }
    assert(vstd::utf8::is_ascii_chars(s));
    vstd::utf8::is_ascii_chars_encode_utf8(s);
    name_encodes_to_itself(s, vstd::utf8::encode_utf8(s), 0);
}

/// The component of a bucket.
pub open spec fn component_of(openapi: Json, bucket: Text, name: Text) -> Option<Json> {
    json::member_of(openapi.member2("components"@, bucket), name)
}

/// A pointer to a component reads that component.
pub proof fn pointer_reads_component(openapi: Json, bucket: Text, name: Text)
    requires
        is_name(bucket),
        is_name(name),
        openapi is Object,
        openapi.member("components"@) matches Some(c) ==> c is Object,
        openapi.member2("components"@, bucket) matches Some(b) ==> b is Object,
    ensures
        jptr::read(openapi, "#/components/"@ + bucket + "/"@ + name) == component_of(
            openapi,
            bucket,
            name,
        ),
{
    let keys = seq!["components"@, bucket, name];
    reveal_strlit("components");
    reveal_strlit("#");
    reveal_strlit("/");
    reveal_strlit("#/components/");
    name_is_segment("components"@);
    name_is_segment(bucket);
    name_is_segment(name);
    reveal_with_fuel(path_laws::path_of, 4);
    let k1 = keys.drop_last();
    let k2 = k1.drop_last();
    assert(k2.drop_last().len() == 0);
    assert(k2.last() == "components"@ && k1.last() == bucket && keys.last() == name);
    assert("#/components/"@ =~= "#"@ + "/"@ + "components"@ + "/"@);
    let p = "#/components/"@ + bucket + "/"@ + name;
    assert(path_laws::path_of(keys) =~= p);
    path_laws::path_addresses_keys(keys);
    reveal_with_fuel(jptr::resolve, 4);
    assert(keys[0] == "components"@ && keys[1] == bucket && keys[2] == name);
}

// --- buckets ---------------------------------------------------------------

/// The bucket of a document.
pub open spec fn bucket_of(openapi: Json, bucket: Text) -> Option<Json> {
    openapi.member2("components"@, bucket)
}

/// What stands at the path of a bucket, and what a write there changes.
pub proof fn bucket_at(openapi: Json, bucket: Text, v: Json)
    ensures
        json::value_at(openapi, components::bucket_path(bucket), 0) == bucket_of(openapi, bucket),
        bucket_of(openapi, bucket) is Some ==> {
            let d = json::with_at(openapi, components::bucket_path(bucket), 0, v);
            &&& bucket_of(d, bucket) == Some(v)
            &&& forall|b: Text| b != bucket ==> #[trigger] bucket_of(d, b) == bucket_of(openapi, b)
            &&& d is Object
            &&& d.member("components"@) matches Some(c) && c is Object
            &&& forall|key: Text| key != "components"@ ==> #[trigger] d.member(key)
                == openapi.member(key)
        },
{
    broadcast use laws::group_members;

    let at = components::bucket_path(bucket);
    assert(at.len() == 2 && at[0] == "components"@ && at[1] == bucket);
    reveal_with_fuel(json::value_at, 3);
    reveal_with_fuel(json::with_at, 3);
}

/// What stands at the path of a component, and what a write there changes.
pub proof fn component_at(openapi: Json, bucket: Text, name: Text, v: Json)
    ensures
        json::value_at(openapi, components::component_path(bucket, name), 0) == component_of(
            openapi,
            bucket,
            name,
        ),
        bucket_of(openapi, bucket) matches Some(b) ==> {
            let d = json::with_at(openapi, components::component_path(bucket, name), 0, v);
            &&& bucket_of(d, bucket) == Some(b.with(name, v))
            &&& forall|x: Text| x != bucket ==> #[trigger] bucket_of(d, x) == bucket_of(openapi, x)
            &&& d is Object
            &&& d.member("components"@) matches Some(c) && c is Object
            &&& forall|key: Text| key != "components"@ ==> #[trigger] d.member(key)
                == openapi.member(key)
        },
{
    broadcast use laws::group_members;

    let at = components::component_path(bucket, name);
    assert(at.len() == 3 && at[0] == "components"@ && at[1] == bucket && at[2] == name);
    reveal_with_fuel(json::value_at, 4);
    reveal_with_fuel(json::with_at, 4);
}

// --- schemas ---------------------------------------------------------------

proof fn decimal_is_name(n: nat)
    ensures
        is_name(text::decimal(n)),
    decreases n,
{
    let d = (n % 10) as int;
    assert(text::digit(d) as int == '0' as int + d);
    if n >= 10 {
        decimal_is_name(n / 10);
        let t = text::decimal(n / 10);
        assert forall|i: int| 0 <= i < t.push(text::digit(d)).len() implies common::name_char(
            #[trigger] t.push(text::digit(d))[i],
        ) by {
            if i < t.len() {
                assert(t.push(text::digit(d))[i] == t[i]);
            }
        }
    }
}

proof fn final_name_is_name(openapi: Json, s: Text)
    ensures
        is_name(components::schema_final_name(openapi, s)),
        is_name(s) ==> components::schema_final_name(openapi, s) == s,
        s == common::sanitised_all(s) ==> components::schema_final_name(openapi, s) == s,
{
    name_laws::sanitised_all_is_name(s);
    let sname = common::sanitised_all(s);
    if is_name(s) {
        name_laws::name_is_sanitised(s);
    }
    if s != sname {
        if let Some(Json::Object(m)) = json::value_at(
            openapi,
            components::bucket_path("schemas"@),
            0,
        ) {
            let k = suffix::first_free(
                |k: nat| json::has_key(m, sname + suffix::suffix_at(None, k)),
            );
            let x = suffix::suffix_at(None, k);
            if k > 0 {
                decimal_is_name(k + 1);
            }
            let n = sname + x;
            assert forall|i: int| 0 <= i < n.len() implies common::name_char(#[trigger] n[i]) by {
                if i < sname.len() {
                    assert(n[i] == sname[i]);
                } else {
                    assert(n[i] == x[i - sname.len()]);
                }
            }
        }
    }
}

/// One schema is renamed and repaired.
proof fn schema_step(openapi: Json, s: Text, o: Settings)
    requires
        bucket_of(openapi, "schemas"@) matches Some(Json::Object(m)) && json::distinct(m)
            && json::has_key(m, s),
    ensures
        ({
            let m = bucket_of(openapi, "schemas"@)->0.members();
            let name = components::schema_final_name(openapi, s);
            let d1 = components::schema_renamed(openapi, s, name);
            let at = components::component_path("schemas"@, name);
            let v = json::lookup(m, s)->0;
            let d2 = json::with_at(d1, at, 0, fixup::schema_fixed(v, o).0);
            let m2 = bucket_of(d2, "schemas"@)->0.members();
            &&& is_name(name)
            &&& is_name(s) ==> name == s
            &&& name != s ==> !json::has_key(m, name)
            &&& json::value_at(d1, at, 0) == Some(v)
            &&& bucket_of(d2, "schemas"@) matches Some(Json::Object(_))
            &&& json::distinct(m2)
            &&& json::lookup(m2, name) == Some(fixup::schema_fixed(v, o).0)
            &&& forall|n: Text| n != name && n != s ==> #[trigger] json::lookup(m2, n)
                == json::lookup(m, n)
            &&& d2 is Object
            &&& d2.member("components"@) matches Some(c) && c is Object
        }),
{
    let m = bucket_of(openapi, "schemas"@)->0.members();
    let name = components::schema_final_name(openapi, s);
    let v = json::lookup(m, s)->0;
    bucket_at(openapi, "schemas"@, Json::Null);
    final_name_is_name(openapi, s);
    if s != common::sanitised_all(s) {
        output_laws::schema_name_is_free(openapi, s);
    }
    let m1 = if s == common::sanitised_all(s) {
        m
    } else {
        json::insert(json::remove(m, s), name, v)
    };
    laws::remove_keeps_distinct(m, s);
    laws::insert_keeps_distinct(json::remove(m, s), name, v);
    let d1 = components::schema_renamed(openapi, s, name);
    bucket_at(openapi, "schemas"@, Json::Object(m1));
    assert(bucket_of(d1, "schemas"@) == Some(Json::Object(m1)));
    laws::lookup_after_insert(json::remove(m, s), name, v);
    assert(json::lookup(m1, name) == Some(v));
    let fixed = fixup::schema_fixed(v, o).0;
    component_at(d1, "schemas"@, name, fixed);
    let m2 = json::insert(m1, name, fixed);
    laws::insert_keeps_distinct(m1, name, fixed);
    laws::lookup_after_insert(m1, name, fixed);
    assert forall|n: Text| n != name && n != s implies #[trigger] json::lookup(m2, n)
        == json::lookup(m, n) by {
        laws::lookup_insert_other(m1, name, fixed, n);
        laws::lookup_insert_other(json::remove(m, s), name, v, n);
        laws::lookup_remove_other(m, s, n);
    }
}

/// The names that the schemas from position `i` on get, after those before.
proof fn schemas_are_named(
    openapi: Json,
    names: Seq<Text>,
    i: nat,
    renamed: Members,
    o: Settings,
    done: Seq<Text>,
) -> (all: Seq<Text>)
    requires
        bucket_of(openapi, "schemas"@) matches Some(Json::Object(m)) && json::distinct(m) && (
        forall|k: int| 0 <= k < i ==> json::has_key(m, #[trigger] done[k])) && (forall|j: int|
            i <= j < names.len() ==> json::has_key(m, #[trigger] names[j])),
        openapi is Object,
        openapi.member("components"@) matches Some(c) && c is Object,
        names.no_duplicates(),
        i <= names.len(),
        done.len() == i,
        done.no_duplicates(),
        forall|k: int|
            0 <= k < i ==> json::lookup(renamed, names[k]) == Some(
                Json::String(#[trigger] done[k]),
            ) && is_name(done[k]),
        forall|k: int, j: int|
            0 <= k < i && i <= j < names.len() ==> #[trigger] done[k] != #[trigger] names[j],
        components::schemas_from(openapi, names, i, renamed, o).3 is None,
    ensures
        ({
            let (d, r, o1, e) = components::schemas_from(openapi, names, i, renamed, o);
            let m = bucket_of(openapi, "schemas"@)->0.members();
            let x = bucket_of(d, "schemas"@)->0.members();
            &&& all.len() == names.len()
            &&& all.no_duplicates()
            &&& all.take(i as int) == done
            &&& bucket_of(d, "schemas"@) matches Some(Json::Object(_))
            &&& json::distinct(x)
            &&& d is Object
            &&& d.member("components"@) matches Some(c) && c is Object
            &&& forall|k: int|
                0 <= k < names.len() ==> json::lookup(r, names[k]) == Some(
                    Json::String(#[trigger] all[k]),
                ) && is_name(all[k])
            &&& forall|k: int|
                0 <= k < i ==> json::lookup(x, #[trigger] all[k]) == json::lookup(m, all[k])
            &&& forall|k: int|
                i <= k < names.len() ==> is_repaired_schema(
                    json::lookup(x, #[trigger] all[k]),
                    json::lookup(m, names[k])->0,
                )
            &&& forall|k: int|
                i <= k < names.len() && is_name(names[k]) ==> #[trigger] all[k] == names[k]
        }),
    decreases names.len() - i,
{
    if i >= names.len() {
        assert(done.take(i as int) =~= done);
        done
    } else {
        let s = names[i as int];
        let m = bucket_of(openapi, "schemas"@)->0.members();
        schema_step(openapi, s, o);
        let name = components::schema_final_name(openapi, s);
        let d1 = components::schema_renamed(openapi, s, name);
        let at = components::component_path("schemas"@, name);
        let v = json::lookup(m, s)->0;
        let (fixed, o2, e2) = fixup::schema_fixed(v, o);
        let d2 = json::with_at(d1, at, 0, fixed);
        let renamed1 = json::insert(renamed, s, Json::String(name));
        let done1 = done.push(name);
        let m2 = bucket_of(d2, "schemas"@)->0.members();
        assert(components::schemas_from(openapi, names, i, renamed, o)
            == components::schemas_from(d2, names, i + 1, renamed1, o2));
        assert forall|k: int| 0 <= k < i implies #[trigger] done[k] != name && done[k] != s by {
            assert(done[k] != names[i as int]);
            assert(json::has_key(m, done[k]));
        }
        assert forall|k: int| 0 <= k < i + 1 implies json::has_key(m2, #[trigger] done1[k]) by {
            if k < i {
                assert(done1[k] == done[k]);
                assert(json::lookup(m2, done[k]) == json::lookup(m, done[k]));
            }
        }
        assert forall|j: int| i + 1 <= j < names.len() implies #[trigger] names[j] != name
            && json::lookup(m2, names[j]) == json::lookup(m, names[j]) && json::has_key(
            m2,
            names[j],
        ) by {
            assert(names[j] != names[i as int]);
            assert(json::has_key(m, names[j]));
        }
        assert forall|k: int| 0 <= k < i + 1 implies json::lookup(renamed1, names[k]) == Some(
            Json::String(#[trigger] done1[k]),
        ) && is_name(done1[k]) by {
            laws::lookup_after_insert(renamed, s, Json::String(name));
            if k < i {
                assert(done1[k] == done[k]);
                assert(names[k] != names[i as int]);
                laws::lookup_insert_other(renamed, s, Json::String(name), names[k]);
            }
        }
        assert forall|k: int, j: int|
            0 <= k < i + 1 && i + 1 <= j < names.len() implies #[trigger] done1[k]
            != #[trigger] names[j] by {
            if k < i {
                assert(done1[k] == done[k]);
            }
        }
        assert(done1.no_duplicates()) by {
            assert forall|a: int, b: int|
                0 <= a < done1.len() && 0 <= b < done1.len() && a != b implies done1[a]
                != done1[b] by {
                if a < i && b < i {
                    assert(done[a] != done[b]);
                }
            }
        }
        let all = schemas_are_named(d2, names, i + 1, renamed1, o2, done1);
        let x = bucket_of(
            components::schemas_from(openapi, names, i, renamed, o).0,
            "schemas"@,
        )->0.members();
        assert(all.take((i + 1) as int)[i as int] == done1[i as int]);
        assert(all[i as int] == name);
        assert(all.take(i as int) =~= done) by {
            assert forall|k: int| 0 <= k < i implies all.take(i as int)[k] == done[k] by {
                assert(all.take((i + 1) as int)[k] == done1[k]);
            }
        }
        assert forall|k: int| 0 <= k < i implies json::lookup(x, #[trigger] all[k])
            == json::lookup(m, all[k]) by {
            assert(all.take(i as int)[k] == done[k]);
            assert(json::lookup(m2, done[k]) == json::lookup(m, done[k]));
        }
        assert forall|k: int| i <= k < names.len() implies is_repaired_schema(
            json::lookup(x, #[trigger] all[k]),
            json::lookup(m, names[k])->0,
        ) by {
            if k == i {
                assert(json::lookup(x, all[k]) == json::lookup(m2, all[k]));
                assert(json::lookup(m2, name) == Some(fixup::schema_fixed(v, o).0));
            } else {
                assert(json::lookup(m2, names[k]) == json::lookup(m, names[k]));
            }
        }
        assert forall|k: int| i <= k < names.len() && is_name(names[k]) implies #[trigger] all[k]
            == names[k] by {}
        all
    }
}

/// Whether a value is a repaired schema.
pub open spec fn is_repaired_schema(x: Option<Json>, schema: Json) -> bool {
    exists|o: Settings| x == Some((#[trigger] fixup::schema_fixed(schema, o)).0)
}

/// The new name of a definition.
pub open spec fn new_name_of(names: Members, d: Text) -> Option<Text> {
    json::text_of(json::lookup(names, d))
}

/// Each definition has a new name under which it stands, repaired, among the schemas.
/// The new names are component names, no two are equal, and a definition that has a
/// component name keeps it.
pub proof fn definitions_are_renamed(openapi: Json, o: Settings)
    requires
        openapi is Object,
        openapi.member("components"@) matches Some(c) && c is Object,
        bucket_of(openapi, "schemas"@) matches Some(Json::Object(m)) && json::distinct(m),
        components::schemas_processed(openapi, o).3 is None,
    ensures
        ({
            let (d, names, o1, e) = components::schemas_processed(openapi, o);
            let m = bucket_of(openapi, "schemas"@)->0.members();
            &&& d is Object
            &&& d.member("components"@) matches Some(c) && c is Object
            &&& bucket_of(d, "schemas"@) matches Some(Json::Object(_))
            &&& forall|s: Text|
                json::has_key(m, s) ==> {
                    &&& (#[trigger] new_name_of(names, s)) is Some
                    &&& is_name(new_name_of(names, s)->0)
                    &&& is_name(s) ==> new_name_of(names, s) == Some(s)
                    &&& is_repaired_schema(
                        component_of(d, "schemas"@, new_name_of(names, s)->0),
                        json::lookup(m, s)->0,
                    )
                }
            &&& forall|s: Text, t: Text|
                json::has_key(m, s) && json::has_key(m, t) && s != t ==> #[trigger] new_name_of(
                    names,
                    s,
                ) != #[trigger] new_name_of(names, t)
        }),
{
    let m = bucket_of(openapi, "schemas"@)->0.members();
    bucket_at(openapi, "schemas"@, Json::Null);
    let keys = components::bucket_names(openapi, "schemas"@);
    assert(keys == json::keys(m));
    assert(keys.no_duplicates()) by {
        assert forall|a: int, b: int|
            0 <= a < keys.len() && 0 <= b < keys.len() && a != b implies keys[a] != keys[b] by {
            assert(m[a].0 == keys[a] && m[b].0 == keys[b]);
        }
    }
    assert forall|j: int| 0 <= j < keys.len() implies json::has_key(m, #[trigger] keys[j]) by {
        assert(m[j].0 == keys[j]);
        laws::index_is_first(m, keys[j], 0, j);
    }
    let all = schemas_are_named(openapi, keys, 0, Seq::empty(), o, Seq::empty());
    let (d, names, o1, e) = components::schemas_processed(openapi, o);
    assert forall|s: Text| json::has_key(m, s) implies {
        &&& (#[trigger] new_name_of(names, s)) is Some
        &&& is_name(new_name_of(names, s)->0)
        &&& is_name(s) ==> new_name_of(names, s) == Some(s)
        &&& is_repaired_schema(
            component_of(d, "schemas"@, new_name_of(names, s)->0),
            json::lookup(m, s)->0,
        )
    } by {
        laws::index_found(m, s, 0);
        let k = json::index_of(m, s);
        assert(keys[k] == s);
        assert(json::lookup(names, keys[k]) == Some(Json::String(all[k])));
    }
    assert forall|s: Text, t: Text|
        json::has_key(m, s) && json::has_key(m, t) && s != t implies #[trigger] new_name_of(
        names,
        s,
    ) != #[trigger] new_name_of(names, t) by {
        laws::index_found(m, s, 0);
        laws::index_found(m, t, 0);
        let k = json::index_of(m, s);
        let q = json::index_of(m, t);
        assert(keys[k] == s && keys[q] == t);
        assert(json::lookup(names, keys[k]) == Some(Json::String(all[k])));
        assert(json::lookup(names, keys[q]) == Some(Json::String(all[q])));
        assert(all[k] != all[q]);
    }
}

// --- references to definitions ---------------------------------------------

/// Whether a segment of a pointer spells a name: escaped, percent-encoded, or both.
pub open spec fn spells(seg: Text, name: Text) -> bool {
    &&& forall|i: int| 0 <= i < seg.len() ==> #[trigger] seg[i] != '/'
    &&& common::uri_decoded(jptr::unescaped(seg)) == name
}

proof fn one_piece(s: Text)
    requires
        forall|i: int| 0 <= i < s.len() ==> #[trigger] s[i] != '/',
    ensures
        text::pieces(s, '/') == seq![s],
{
    path_laws::no_separator(s, '/', 0, 0, s.len() as int);
    assert(s.subrange(0, s.len() as int) =~= s);
}

/// A definition reference is none that stays, and none to the media types.
proof fn definition_prefix(rest: Text)
    ensures
        ({
            let r = "#/definitions/"@ + rest;
            &&& !text::starts(r, "#/components/"@)
            &&& r != "#/consumes"@ && r != "#/produces"@
            &&& text::stripped(r, "#/definitions/"@) == Some(rest)
        }),
{
    reveal_strlit("#/definitions/");
    reveal_strlit("#/components/");
    reveal_strlit("#/consumes");
    reveal_strlit("#/produces");
    let r = "#/definitions/"@ + rest;
    assert(r[2] == 'd');
    if text::starts(r, "#/components/"@) {
        assert(r.subrange(0, 13)[2] == 'c');
    }
    assert("#/consumes"@[2] == 'c' && "#/produces"@[2] == 'p');
    assert(r.subrange(0, 14) =~= "#/definitions/"@);
    assert(r.skip(14) =~= rest);
}

/// A reference to a definition becomes a reference to the schema that the definition
/// became, and its siblings stay.
pub proof fn definition_reference_is_renamed(
    openapi: Json,
    container: Json,
    seg: Text,
    d: Text,
    names: Members,
    refmap: Members,
    o: Settings,
)
    requires
        spells(seg, d),
        new_name_of(names, d) is Some,
    ensures
        ({
            let r = "#/definitions/"@ + seg;
            let (d1, c1, m1, o1, e1) = refs::ref_rewritten(
                openapi,
                container,
                r,
                names,
                refmap,
                o,
            );
            &&& d1 == openapi && m1 == refmap && o1 == o && e1 is None
            &&& forall|key: Text| #[trigger]
                c1.member(key) == (if key == "$ref"@ {
                    Some(
                        Json::String("#/components/schemas/"@ + new_name_of(names, d)->0),
                    )
                } else {
                    container.member(key)
                })
        }),
{
    broadcast use laws::group_members;

    definition_prefix(seg);
    one_piece(seg);
    let n = new_name_of(names, d)->0;
    assert(seq![seg].update(0, n) =~= seq![n]);
    assert(text::joined(seq![n], "/"@) == n);
}

/// A reference that addressed a definition addresses the schema that the definition
/// became. Reading the rewritten pointer gives the repaired definition, and is never
/// missing.
pub proof fn definition_reference_reaches_schema(
    openapi: Json,
    o: Settings,
    d: Text,
    seg: Text,
    container: Json,
    refmap: Members,
    o2: Settings,
)
    requires
        openapi is Object,
        openapi.member("components"@) matches Some(c) && c is Object,
        bucket_of(openapi, "schemas"@) matches Some(Json::Object(m)) && json::distinct(m)
            && json::has_key(m, d),
        components::schemas_processed(openapi, o).3 is None,
        spells(seg, d),
    ensures
        ({
            let definition = component_of(openapi, "schemas"@, d)->0;
            let (doc, names, o1, e) = components::schemas_processed(openapi, o);
            let (d3, c3, m3, o3, e3) = refs::ref_rewritten(
                doc,
                container,
                "#/definitions/"@ + seg,
                names,
                refmap,
                o2,
            );
            &&& e3 is None && d3 == doc
            &&& c3.text_member("$ref"@) matches Some(p) && is_repaired_schema(
                jptr::read(doc, p),
                definition,
            )
        }),
{
    definitions_are_renamed(openapi, o);
    let (doc, names, o1, e) = components::schemas_processed(openapi, o);
    definition_reference_is_renamed(doc, container, seg, d, names, refmap, o2);
    let n = new_name_of(names, d)->0;
    reveal_strlit("schemas");
    reveal_strlit("#/components/");
    reveal_strlit("/");
    reveal_strlit("#/components/schemas/");
    assert(is_name("schemas"@));
    pointer_reads_component(doc, "schemas"@, n);
    assert("#/components/"@ + "schemas"@ + "/"@ + n =~= "#/components/schemas/"@ + n);
    let c3 = refs::ref_rewritten(
        doc,
        container,
        "#/definitions/"@ + seg,
        names,
        refmap,
        o2,
    ).1;
    assert(c3.member("$ref"@) == Some(Json::String("#/components/schemas/"@ + n)));
}

// --- deeper references -----------------------------------------------------

proof fn joined_front(x: Text, tail: Seq<Text>, sep: Text)
    requires
        tail.len() > 0,
    ensures
        text::joined(seq![x] + tail, sep) == x + sep + text::joined(tail, sep),
    decreases tail.len(),
{
    let all = seq![x] + tail;
    if tail.len() == 1 {
        assert(all.drop_last() =~= seq![x]);
        reveal_with_fuel(text::joined, 2);
    } else {
        let front = tail.drop_last();
        joined_front(x, front, sep);
        assert(all.drop_last() =~= seq![x] + front);
        assert(all.last() == tail.last());
        assert(text::joined(all, sep) =~= x + sep + (text::joined(front, sep) + sep
            + tail.last()));
    }
}

/// The pieces of a text give the text back when they are joined.
pub proof fn pieces_join_again(s: Text, start: int, i: int)
    requires
        0 <= start <= i <= s.len(),
    ensures
        text::joined(text::split_from(s, '/', start, i), "/"@) == s.subrange(
            start,
            s.len() as int,
        ),
    decreases s.len() - i,
{
    reveal_strlit("/");
    assert("/"@ =~= seq!['/']);
    if i < s.len() {
        if s[i] == '/' {
            let tail = text::split_from(s, '/', i + 1, i + 1);
            pieces_join_again(s, i + 1, i + 1);
            text::pieces_nonempty(s, '/', i + 1, i + 1);
            joined_front(s.subrange(start, i), tail, "/"@);
            assert(s.subrange(start, i) + "/"@ + s.subrange(i + 1, s.len() as int) =~= s.subrange(
                start,
                s.len() as int,
            ));
        } else {
            pieces_join_again(s, start, i + 1);
        }
    }
}

proof fn split_is_relative(s: Text, at: int, start: int, i: int)
    requires
        0 <= at,
        0 <= start <= i,
        at + i <= s.len(),
    ensures
        text::split_from(s, '/', at + start, at + i) == text::split_from(s.skip(at), '/', start, i),
    decreases s.len() - at - i,
{
    let t = s.skip(at);
    if at + i < s.len() {
        assert(t[i] == s[at + i]);
        if s[at + i] == '/' {
            split_is_relative(s, at, i + 1, i + 1);
            assert(s.subrange(at + start, at + i) =~= t.subrange(start, i));
        } else {
            split_is_relative(s, at, start, i + 1);
        }
    } else {
        assert(s.subrange(at + start, s.len() as int) =~= t.subrange(start, t.len() as int));
    }
}

/// The pieces of a text with a first segment.
proof fn first_piece(seg: Text, rest: Text)
    requires
        forall|i: int| 0 <= i < seg.len() ==> #[trigger] seg[i] != '/',
    ensures
        text::pieces(seg + "/"@ + rest, '/') == seq![seg] + text::pieces(rest, '/'),
{
    reveal_strlit("/");
    let s = seg + "/"@ + rest;
    let n = seg.len() as int;
    assert forall|k: int| 0 <= k < n implies #[trigger] s[k] != '/' by {
        assert(s[k] == seg[k]);
    }
    path_laws::no_separator(s, '/', 0, 0, n);
    assert(s[n] == '/');
    assert(s.subrange(0, n) =~= seg);
    split_is_relative(s, n + 1, 0, 0);
    assert(s.skip(n + 1) =~= rest);
}

/// A reference into a definition becomes a reference to the same place of the schema
/// that the definition became.
pub proof fn deep_definition_reference_is_renamed(
    openapi: Json,
    container: Json,
    seg: Text,
    rest: Text,
    d: Text,
    names: Members,
    refmap: Members,
    o: Settings,
)
    requires
        spells(seg, d),
        new_name_of(names, d) is Some,
    ensures
        ({
            let r = "#/definitions/"@ + (seg + "/"@ + rest);
            let (d1, c1, m1, o1, e1) = refs::ref_rewritten(
                openapi,
                container,
                r,
                names,
                refmap,
                o,
            );
            &&& d1 == openapi && m1 == refmap && o1 == o && e1 is None
            &&& c1.text_member("$ref"@) == Some(
                "#/components/schemas/"@ + (new_name_of(names, d)->0 + "/"@ + rest),
            )
        }),
{
    broadcast use laws::group_members;

    definition_prefix(seg + "/"@ + rest);
    first_piece(seg, rest);
    let n = new_name_of(names, d)->0;
    let tail = text::pieces(rest, '/');
    assert((seq![seg] + tail).update(0, n) =~= seq![n] + tail);
    text::pieces_nonempty(rest, '/', 0, 0);
    joined_front(n, tail, "/"@);
    pieces_join_again(rest, 0, 0);
    assert(rest.subrange(0, rest.len() as int) =~= rest);
}

/// A reference to no definition is a problem: an error, or a warning beside the
/// reference.
pub proof fn missing_definition_is_a_problem(
    openapi: Json,
    container: Json,
    seg: Text,
    d: Text,
    names: Members,
    refmap: Members,
    o: Settings,
)
    requires
        spells(seg, d),
        new_name_of(names, d) is None,
    ensures
        ({
            let r = "#/definitions/"@ + seg;
            let (d1, c1, m1, o1, e1) = refs::ref_rewritten(
                openapi,
                container,
                r,
                names,
                refmap,
                o,
            );
            &&& (e1 is Some) == !o.warn_only
            &&& o.warn_only ==> c1.text_member("$ref"@) == Some("#/components/schemas/"@ + seg)
            &&& o.warn_only && container is Object && o.warning_key() != "$ref"@ ==> c1.member(
                o.warning_key(),
            ) == Some(Json::String("Could not resolve reference "@ + r))
        }),
{
    broadcast use laws::group_members;

    definition_prefix(seg);
    one_piece(seg);
    assert(text::joined(seq![seg], "/"@) == seg);
    let message = "Could not resolve reference "@ + ("#/definitions/"@ + seg);
    error::warn_only_never_fails(container, message, o);
}

// --- references to parameters and responses --------------------------------

proof fn sanitised_is_name(s: Text)
    requires
        forall|i: int| 0 <= i < s.len() ==> #[trigger] s[i] != '/',
    ensures
        is_name(common::sanitised(s)),
{
    assert(common::slashes_flattened(s) =~= s);
    name_laws::sanitised_all_is_name(s);
}

proof fn other_prefix(word: Text, rest: Text)
    requires
        word == "parameters"@ || word == "responses"@,
    ensures
        ({
            let r = "#/"@ + word + "/"@ + rest;
            &&& !text::starts(r, "#/components/"@)
            &&& r != "#/consumes"@ && r != "#/produces"@
            &&& text::stripped(r, "#/definitions/"@) is None
            &&& word == "parameters"@ ==> r == "#/parameters/"@ + rest && text::stripped(
                r,
                "#/parameters/"@,
            ) == Some(rest)
            &&& word == "responses"@ ==> r == "#/responses/"@ + rest && text::stripped(
                r,
                "#/parameters/"@,
            ) is None && text::stripped(r, "#/responses/"@) == Some(rest)
        }),
{
    reveal_strlit("parameters");
    reveal_strlit("responses");
    reveal_strlit("#/");
    reveal_strlit("/");
    reveal_strlit("#/definitions/");
    reveal_strlit("#/components/");
    reveal_strlit("#/parameters/");
    reveal_strlit("#/responses/");
    reveal_strlit("#/consumes");
    reveal_strlit("#/produces");
    let r = "#/"@ + word + "/"@ + rest;
    assert(r[2] == word[0]);
    if text::starts(r, "#/components/"@) {
        assert(r.subrange(0, 13)[2] == 'c');
    }
    if text::starts(r, "#/definitions/"@) {
        assert(r.subrange(0, 14)[2] == 'd');
    }
    assert("#/consumes"@[2] == 'c');
    assert("#/produces"@.len() == 10);
    assert("parameters"@.len() == 10 && "responses"@.len() == 9 && "parameters"@[0] == 'p'
        && "responses"@[0] == 'r');
    if word == "parameters"@ {
        assert(r =~= "#/parameters/"@ + rest);
        assert(r.subrange(0, 13) =~= "#/parameters/"@);
        assert(r.skip(13) =~= rest);
        assert(r.len() >= 13);
    } else {
        assert(r =~= "#/responses/"@ + rest);
        assert(r.subrange(0, 12) =~= "#/responses/"@);
        assert(r.skip(12) =~= rest);
        if text::starts(r, "#/parameters/"@) {
            assert(r.subrange(0, 13)[2] == 'p');
        }
        assert("#/produces"@[2] == 'p');
    }
}

/// A reference to a parameter or a response of the document addresses the component
/// that has the sanitised name, and its siblings stay.
pub proof fn shared_reference_reaches_component(
    openapi: Json,
    container: Json,
    bucket: Text,
    seg: Text,
    names: Members,
    refmap: Members,
    o: Settings,
)
    requires
        bucket == "parameters"@ || bucket == "responses"@,
        forall|i: int| 0 <= i < seg.len() ==> #[trigger] seg[i] != '/',
        forall|i: int|
            0 <= i < common::uri_decoded(seg).len() ==> #[trigger] common::uri_decoded(seg)[i]
                != '/',
        openapi is Object,
        openapi.member("components"@) matches Some(c) ==> c is Object,
        bucket_of(openapi, bucket) matches Some(b) ==> b is Object,
    ensures
        ({
            let name = common::sanitised(common::uri_decoded(seg));
            let (d1, c1, m1, o1, e1) = refs::ref_rewritten(
                openapi,
                container,
                "#/"@ + bucket + "/"@ + seg,
                names,
                refmap,
                o,
            );
            &&& d1 == openapi && m1 == refmap && o1 == o && e1 is None
            &&& forall|key: Text| key != "$ref"@ ==> #[trigger] c1.member(key)
                == container.member(key)
            &&& c1.text_member("$ref"@) matches Some(p) && jptr::read(openapi, p)
                == component_of(openapi, bucket, name)
        }),
{
    broadcast use laws::group_members;

    other_prefix(bucket, seg);
    one_piece(seg);
    let name = common::sanitised(common::uri_decoded(seg));
    sanitised_is_name(common::uri_decoded(seg));
    assert(seq![seg].update(0, name) =~= seq![name]);
    assert(text::joined(seq![name], "/"@) == name);
    reveal_strlit("parameters");
    reveal_strlit("responses");
    assert(is_name(bucket)) by {
        assert forall|i: int| 0 <= i < bucket.len() implies common::name_char(
            #[trigger] bucket[i],
        ) by {
            assert("parameters"@.len() == 10 && "responses"@.len() == 9);
        }
    }
    pointer_reads_component(openapi, bucket, name);
    reveal_strlit("#/components/");
    reveal_strlit("/");
    reveal_strlit("#/components/parameters/");
    reveal_strlit("#/components/responses/");
    assert("#/components/parameters/"@ =~= "#/components/"@ + "parameters"@ + "/"@);
    assert("#/components/responses/"@ =~= "#/components/"@ + "responses"@ + "/"@);
    assert(parameter::ref_path_sanitised(seg) == name);
}

/// A reference that is converted already stays, and so does one that leads out of the
/// document.
pub proof fn other_references_stay(
    openapi: Json,
    container: Json,
    r: Text,
    names: Members,
    refmap: Members,
    o: Settings,
)
    requires
        text::starts(r, "#/components/"@) || !text::starts(r, "#"@),
    ensures
        refs::ref_rewritten(openapi, container, r, names, refmap, o) == (
            openapi,
            container,
            refmap,
            o,
            None::<Text>,
        ),
{
    reveal_strlit("#");
    reveal_strlit("#/components/");
    reveal_strlit("#/consumes");
    reveal_strlit("#/produces");
    reveal_strlit("#/definitions/");
    reveal_strlit("#/parameters/");
    reveal_strlit("#/responses/");
    if !text::starts(r, "#"@) {
        if r.len() > 0 && r[0] == '#' {
            assert(r.subrange(0, 1) =~= "#"@);
        }
        assert(r.len() == 0 || r[0] != '#');
        if text::starts(r, "#/definitions/"@) {
            assert(r.subrange(0, 14)[0] == '#');
        }
        if text::starts(r, "#/parameters/"@) {
            assert(r.subrange(0, 13)[0] == '#');
        }
        if text::starts(r, "#/responses/"@) {
            assert(r.subrange(0, 12)[0] == '#');
        }
        assert("#/consumes"@[0] == '#' && "#/produces"@[0] == '#');
    }
}

// --- siblings --------------------------------------------------------------

/// The siblings of a reference are dropped, or stay, or stand beside the reference
/// under `allOf` in a schema. A container without a reference, or without a sibling,
/// stays. The provenance of an inlined reference goes in any case.
pub proof fn siblings_of_reference(container: Json, in_schema: bool, how: RefSiblings)
    requires
        container is Object,
        json::distinct(container.members()),
    ensures
        ({
            let x = refs::siblings_handled(container, in_schema, how);
            let bare = container.without("x-miro"@);
            let alone = Json::single("$ref"@, container.member("$ref"@)->0);
            let sibling = exists|key: Text|
                key != "$ref"@ && key != "x-miro"@ && #[trigger] container.has(key);
            &&& container.text_member("$ref"@) is None || !sibling || how == RefSiblings::Preserve
                ==> x == bare
            &&& container.text_member("$ref"@) is Some && sibling ==> {
                &&& how == RefSiblings::Remove ==> x == alone
                &&& how == RefSiblings::AllOf && !in_schema ==> x == alone
                &&& how == RefSiblings::AllOf && in_schema ==> x == Json::single(
                    "allOf"@,
                    Json::Array(seq![alone, bare.without("$ref"@)]),
                )
            }
        }),
{
    broadcast use laws::group_members;

    reveal_strlit("x-miro");
    reveal_strlit("$ref");
    assert("x-miro"@.len() == 6 && "$ref"@.len() == 4);
    let c = container.dropped("x-miro"@);
    assert(c == container.without("x-miro"@));
    if container.text_member("$ref"@) is Some {
        let m = c.members();
        assert(c.member("$ref"@) == container.member("$ref"@));
        laws::index_found(m, "$ref"@, 0);
        let k = json::index_of(m, "$ref"@);
        if m.len() > 1 {
            let q: int = if k == 0 {
                1
            } else {
                0
            };
            let key = m[q].0;
            assert(key != "$ref"@) by {
                if q < k {
                    assert(m[q].0 != m[k].0);
                } else {
                    assert(m[k].0 != m[q].0);
                }
            }
            laws::index_is_first(m, key, 0, q);
            assert(c.has(key));
            assert(container.has(key));
            assert(key != "x-miro"@);
        } else {
            assert forall|key: Text| key != "$ref"@ && key != "x-miro"@ implies !#[trigger]
                container.has(key) by {
                if container.has(key) {
                    assert(c.has(key));
                    laws::index_found(m, key, 0);
                }
            }
        }
    }
}

// --- sites -----------------------------------------------------------------

proof fn readable_is_writable(j: Json, parts: Seq<Text>, i: int, v: Json)
    requires
        0 <= i < parts.len(),
        jptr::resolve(j, parts, i) is Some,
    ensures
        jptr::assign(j, parts, i, v).1,
        !path_laws::appends(j, parts, i),
    decreases parts.len() - i,
{
    reveal_strlit("-");
    let comp = parts[i];
    if comp == "-"@ {
        assert(!text::ascii_digit(comp[0]));
        reveal_with_fuel(jptr::digits_from, 2);
        assert(jptr::index_value(comp) is None);
    }
    if i + 1 < parts.len() {
        let c = jptr::child(j, comp)->0;
        readable_is_writable(c, parts, i + 1, v);
    }
}

/// A reference that is rewritten stands, with what is left of its siblings, where it
/// was read.
pub proof fn rewritten_reference_stands(
    openapi: Json,
    site: (Text, bool),
    names: Members,
    refmap: Members,
    o: Settings,
)
    requires
        jptr::read(openapi, site.0) matches Some(c) && c.text_member("$ref"@) is Some
            && !c.has("x-ms-odata"@),
        refs::site_rewritten(openapi, site, names, refmap, o).3 is None,
    ensures
        ({
            let c = jptr::read(openapi, site.0)->0;
            let r = c.text_member("$ref"@)->0;
            let (d2, c2, m2, o2, e2) = refs::ref_rewritten(openapi, c, r, names, refmap, o);
            let (d3, m3, o3, e3) = refs::site_rewritten(openapi, site, names, refmap, o);
            jptr::read(d2, site.0) is Some ==> jptr::read(d3, site.0) == Some(
                refs::siblings_handled(c2, site.1, o2.ref_siblings),
            )
        }),
{
    let c = jptr::read(openapi, site.0)->0;
    let r = c.text_member("$ref"@)->0;
    let (d2, c2, m2, o2, e2) = refs::ref_rewritten(openapi, c, r, names, refmap, o);
    let v = refs::siblings_handled(c2, site.1, o2.ref_siblings);
    if jptr::read(d2, site.0) is Some {
        path_laws::pointer_outcomes(site.0);
        if let Target::Path(parts) = jptr::target(site.0) {
            readable_is_writable(d2, parts, 0, v);
        }
        path_laws::read_after_write(d2, site.0, v);
    }
}

// --- places of references --------------------------------------------------

proof fn sites_stay(
    s: Seq<(Text, bool)>,
    root: Json,
    all: Seq<Seq<Text>>,
    i: nat,
    site: (Text, bool),
)
    requires
        s.contains(site),
    ensures
        traversal_laws::run::<RefCollector>(s, root, all, i).contains(site),
    decreases all.len() - i,
{
    if i < all.len() {
        let keys = all[i as int];
        let container = traversal_laws::descend(root, keys.drop_last())->0;
        let s1 = <RefCollector as Visitor>::visited(
            s,
            container,
            keys.last(),
            path_laws::path_of(keys),
        ).0;
        let q = choose|q: int| 0 <= q < s.len() && s[q] == site;
        assert(s1[q] == site);
        sites_stay(s1, root, all, i + 1, site);
    }
}

proof fn site_is_found(s: Seq<(Text, bool)>, root: Json, all: Seq<Seq<Text>>, i: nat, q: int)
    requires
        i <= q < all.len(),
        recurse::names_ref(
            traversal_laws::descend(root, all[q].drop_last())->0,
            all[q].last(),
        ),
    ensures
        ({
            let path = path_laws::path_of(all[q]);
            traversal_laws::run::<RefCollector>(s, root, all, i).contains(
                (refs::container_path(path), text::occurs(path, "/schema"@)),
            )
        }),
    decreases all.len() - i,
{
    let keys = all[i as int];
    let container = traversal_laws::descend(root, keys.drop_last())->0;
    let path = path_laws::path_of(keys);
    let s1 = <RefCollector as Visitor>::visited(s, container, keys.last(), path).0;
    if i == q {
        let site = (refs::container_path(path), text::occurs(path, "/schema"@));
        assert(s1[s.len() as int] == site);
        sites_stay(s1, root, all, i + 1, site);
    } else {
        site_is_found(s1, root, all, i + 1, q);
    }
}

proof fn last_slash(a: Text, b: Text, i: int)
    requires
        a.len() < i <= a.len() + 1 + b.len(),
        forall|k: int| 0 <= k < b.len() ==> #[trigger] b[k] != '/',
    ensures
        text::rfind_from(a + seq!['/'] + b, '/', i) == Some(a.len() as int),
    decreases i,
{
    let s = a + seq!['/'] + b;
    if i - 1 > a.len() {
        assert(s[i - 1] == b[i - 2 - a.len()]);
        last_slash(a, b, i - 1);
    } else {
        assert(s[i - 1] == '/');
    }
}

/// Every place of a document that holds a reference is a site whose path leads to the
/// container of the reference.
pub proof fn every_reference_is_a_site(openapi: Json, keys: Seq<Text>)
    requires
        traversal_laws::addressable(openapi),
        keys.len() > 0,
        keys.last() == "$ref"@,
        traversal_laws::is_place(openapi, keys),
        traversal_laws::descend(openapi, keys.drop_last())->0.text_member("$ref"@) is Some,
    ensures
        exists|in_schema: bool| #[trigger]
            refs::ref_sites(openapi).contains(
                (path_laws::path_of(keys.drop_last()), in_schema),
            ),
{
    let none = Seq::<(Text, bool)>::empty();
    assert(traversal_laws::only_reads::<RefCollector>());
    traversal_laws::traversal_visits_places::<RefCollector>(none, openapi);
    traversal_laws::places_are_the_keys(openapi, keys);
    let all = traversal_laws::all_places(openapi);
    let q = choose|q: int| 0 <= q < all.len() && all[q] == keys;
    site_is_found(none, openapi, all, 0, q);
    let path = path_laws::path_of(keys);
    let parent = path_laws::path_of(keys.drop_last());
    let e = common::uri_encoded(jptr::escaped("$ref"@));
    text_laws::encoded_text_alphabet(jptr::escaped("$ref"@));
    reveal_strlit("/");
    reveal_strlit("#");
    assert("/"@ =~= seq!['/']);
    assert(path == parent + seq!['/'] + e);
    assert forall|k: int| 0 <= k < e.len() implies #[trigger] e[k] != '/' by {
        assert(text_laws::in_alphabet(e, k));
    }
    last_slash(parent, e, path.len() as int);
    assert(parent.len() > 0);
    assert(path.take(parent.len() as int) =~= parent);
    assert(refs::ref_sites(openapi).contains((parent, text::occurs(path, "/schema"@))));
}

// --- relocation ------------------------------------------------------------

/// Whether a bucket takes the targets of direct references.
pub open spec fn takes_targets(bucket: Text) -> bool {
    bucket == "headers"@ || bucket == "examples"@ || bucket == "parameters"@ || bucket
        == "schemas"@
}

proof fn buckets_are_names()
    ensures
        is_name("headers"@),
        is_name("examples"@),
        is_name("parameters"@),
        is_name("schemas"@),
        is_name("headers"@.drop_last()),
        is_name("examples"@.drop_last()),
        is_name("parameters"@.drop_last()),
        is_name("schemas"@.drop_last()),
        "headers"@.len() == 7 && "headers"@[0] == 'h',
        "examples"@.len() == 8,
        "parameters"@.len() == 10 && "parameters"@[0] == 'p',
        "schemas"@.len() == 7 && "schemas"@[0] == 's',
        "responses"@.len() == 9,
        "extensions"@.len() == 10 && "extensions"@[0] == 'e',
{
    reveal_strlit("headers");
    reveal_strlit("examples");
    reveal_strlit("parameters");
    reveal_strlit("schemas");
    reveal_strlit("responses");
    reveal_strlit("extensions");
}

/// The target of a direct reference moves to a component that was free before: the
/// reference leads to it, and what is read there is the target, repaired where it is a
/// schema. The components that there are stay, and the move is noted.
pub proof fn direct_reference_reaches_target(
    openapi: Json,
    container: Json,
    r: Text,
    refmap: Members,
    o: Settings,
)
    requires
        openapi is Object,
        openapi.member("components"@) matches Some(c) && c is Object,
        bucket_of(openapi, refs::ref_bucket(r)) matches Some(Json::Object(_)),
        takes_targets(refs::ref_bucket(r)),
        jptr::read(openapi, r) matches Some(t) && (refs::ref_bucket(r) == "parameters"@ && t.has(
            "name"@,
        ) ==> is_name(t.text_member("name"@)->0)),
        json::text_of(json::lookup(refmap, r)) is None,
        container.text_member("x-miro"@) is None,
        refs::ref_relocated(openapi, container, r, refmap, o).4 is None,
    ensures
        ({
            let (d, c, m, o1, e) = refs::ref_relocated(openapi, container, r, refmap, o);
            let bucket = refs::ref_bucket(r);
            let target = jptr::read(openapi, r)->0;
            let moved = if bucket == "schemas"@ {
                fixup::schema_fixed(target, o).0
            } else {
                target
            };
            &&& exists|name: Text| {
                &&& is_name(name)
                &&& component_of(openapi, bucket, name) is None
                &&& bucket != "examples"@ ==> {
                    &&& c.text_member("$ref"@) == Some(
                        "#/components/"@ + bucket + "/"@ + name,
                    )
                    &&& (#[trigger] component_of(d, bucket, name)) == Some(moved)
                    &&& jptr::read(d, "#/components/"@ + bucket + "/"@ + name) == Some(moved)
                }
                &&& bucket == "examples"@ ==> {
                    &&& c.text_member("$ref"@) == Some(
                        "#/components/"@ + bucket + "/"@ + name + "/value"@,
                    )
                    &&& component_of(d, bucket, name) == Some(Json::single("value"@, moved))
                }
                &&& forall|n: Text| n != name ==> #[trigger] component_of(d, bucket, n)
                    == component_of(openapi, bucket, n)
            }
            &&& forall|key: Text| key != "$ref"@ ==> #[trigger] c.member(key)
                == container.member(key)
            &&& json::lookup(m, r) == c.member("$ref"@)
        }),
{
    broadcast use laws::group_members;

    buckets_are_names();
    let bucket = refs::ref_bucket(r);
    let target = jptr::read(openapi, r)->0;
    let moved = if bucket == "schemas"@ {
        fixup::schema_fixed(target, o).0
    } else {
        target
    };
    let stem = refs::relocation_stem(bucket, moved, container);
    if let Some(n) = moved.text_member("name"@) {
        if is_name(n) {
            name_escapes_to_itself(n, 0);
            assert(n.skip(0) =~= n);
            name_is_segment(n);
        }
    }
    assert(is_name(stem));
    let free = refs::free_suffix(openapi, bucket, stem, Some(1));
    let k = suffix::first_free(
        |k: nat|
            jptr::read(
                openapi,
                refs::component_pointer(bucket, stem + suffix::suffix_at(Some(1), k)),
            ) is Some,
    );
    decimal_is_name(1 + k);
    let name = stem + free;
    assert(is_name(name)) by {
        assert forall|i: int| 0 <= i < name.len() implies common::name_char(#[trigger] name[i]) by {
            if i < stem.len() {
                assert(name[i] == stem[i]);
            } else {
                assert(name[i] == free[i - stem.len()]);
            }
        }
    }
    refs::relocated_is_free(openapi, r, moved, container);
    pointer_reads_component(openapi, bucket, name);
    assert(component_of(openapi, bucket, name) is None);
    let pointer = refs::component_pointer(bucket, name);
    let placed = if bucket == "examples"@ {
        Json::single("value"@, moved)
    } else {
        moved
    };
    component_is_written(openapi, bucket, name, placed);
    let d = jptr::write(openapi, pointer, placed).0;
    pointer_reads_component(d, bucket, name);
    laws::lookup_after_insert(
        refmap,
        r,
        refs::ref_relocated(openapi, container, r, refmap, o).1.member("$ref"@)->0,
    );
    let (d1, c, m, o1, e) = refs::ref_relocated(openapi, container, r, refmap, o);
    assert(d1 == d);
    assert(component_of(d, bucket, name) == Some(placed));
}

/// A write at the pointer of a component sets that component.
pub proof fn component_is_written(openapi: Json, bucket: Text, name: Text, v: Json)
    requires
        is_name(bucket),
        is_name(name),
        openapi is Object,
        openapi.member("components"@) matches Some(c) && c is Object,
        bucket_of(openapi, bucket) matches Some(Json::Object(_)),
    ensures
        ({
            let d = jptr::write(openapi, "#/components/"@ + bucket + "/"@ + name, v).0;
            &&& d is Object
            &&& d.member("components"@) matches Some(c) && c is Object
            &&& bucket_of(d, bucket) == Some(bucket_of(openapi, bucket)->0.with(name, v))
            &&& forall|n: Text| #[trigger]
                component_of(d, bucket, n) == (if n == name {
                    Some(v)
                } else {
                    component_of(openapi, bucket, n)
                })
        }),
{
    broadcast use laws::group_members;

    let keys = seq!["components"@, bucket, name];
    component_path_is(bucket, name);
    reveal_with_fuel(jptr::assign, 4);
    assert(keys[0] == "components"@ && keys[1] == bucket && keys[2] == name);
    let c = openapi.member("components"@)->0;
    let b = c.member(bucket)->0;
    let d = jptr::write(openapi, "#/components/"@ + bucket + "/"@ + name, v).0;
    assert(d == openapi.with("components"@, c.with(bucket, b.with(name, v))));
}

proof fn component_path_is(bucket: Text, name: Text)
    requires
        is_name(bucket),
        is_name(name),
    ensures
        jptr::target("#/components/"@ + bucket + "/"@ + name) == Target::Path(
            seq!["components"@, bucket, name],
        ),
{
    let keys = seq!["components"@, bucket, name];
    reveal_strlit("components");
    reveal_strlit("#");
    reveal_strlit("/");
    reveal_strlit("#/components/");
    name_is_segment("components"@);
    name_is_segment(bucket);
    name_is_segment(name);
    reveal_with_fuel(path_laws::path_of, 4);
    let k1 = keys.drop_last();
    let k2 = k1.drop_last();
    assert(k2.drop_last().len() == 0);
    assert(k2.last() == "components"@ && k1.last() == bucket && keys.last() == name);
    assert("#/components/"@ =~= "#"@ + "/"@ + "components"@ + "/"@);
    assert(path_laws::path_of(keys) =~= "#/components/"@ + bucket + "/"@ + name);
    path_laws::path_addresses_keys(keys);
}

/// A direct reference whose target has moved already leads to the place that is noted.
pub proof fn moved_target_is_shared(
    openapi: Json,
    container: Json,
    r: Text,
    refmap: Members,
    o: Settings,
)
    requires
        jptr::read(openapi, r) is Some,
        json::text_of(json::lookup(refmap, r)) is Some,
    ensures
        ({
            let (d, c, m, o1, e) = refs::ref_relocated(openapi, container, r, refmap, o);
            &&& d == openapi && m == refmap && o1 == o && e is None
            &&& c.member("$ref"@) == json::lookup(refmap, r)
        }),
{
    broadcast use laws::group_members;

}

} // verus!
