//! Schema and subschema traversal.
//!
//! [`walk_schema`] visits a schema and every subschema, handing each to a
//! [`SchemaVisitor`]. A subschema that holds a `$ref` short-circuits: the visitor
//! runs on a throwaway `{ "$ref": ... }` copy and the real subschema keeps its
//! other members untouched. Child order follows `items`, `additionalItems`,
//! `additionalProperties`, `properties`, `patternProperties`, `allOf`, `anyOf`,
//! `oneOf`, then `not`.

use vstd::prelude::*;

use crate::json::{self, Json, Members, Text};
use crate::laws;
use crate::value::{self, JsonValue, Object};

verus! {

// --- rank ------------------------------------------------------------------

/// A bound on how deep a walk goes: the number of levels, where an `items` array
/// counts one more.
pub open spec fn rank(j: Json) -> nat
    decreases j, 0nat,
{
    match j {
        Json::Array(a) => 1 + elements_rank(a, 0),
        Json::Object(m) => 1 + members_rank(m, 0),
        _ => 1,
    }
}

/// What the member named `key` of rank `r` adds to the rank of its object.
pub open spec fn member_rank(key: Text, v: Json, r: nat) -> nat {
    if key == "items"@ && v is Array {
        r + 1
    } else {
        r
    }
}

/// The greatest rank of an element from position `i` on.
pub open spec fn elements_rank(a: Seq<Json>, i: nat) -> nat
    decreases a, a.len() - i,
{
    if i >= a.len() {
        0
    } else {
        json::max(rank(a[i as int]), elements_rank(a, i + 1))
    }
}

/// The greatest rank of a member from position `i` on.
pub open spec fn members_rank(m: Members, i: nat) -> nat
    decreases m, m.len() - i,
{
    if i >= m.len() {
        0
    } else {
        json::max(
            member_rank(m[i as int].0, m[i as int].1, rank(m[i as int].1)),
            members_rank(m, i + 1),
        )
    }
}

/// Whether `key` names a single subschema.
pub open spec fn single_key(key: Text) -> bool {
    key == "items"@ || key == "additionalItems"@ || key == "additionalProperties"@ || key == "not"@
}

/// Whether `key` names several subschemas.
pub open spec fn plural_key(key: Text) -> bool {
    key == "properties"@ || key == "patternProperties"@ || key == "allOf"@ || key == "anyOf"@ || key
        == "oneOf"@
}

/// Whether the value of the member named `key` holds only subschemas that rank
/// below `n`.
pub open spec fn fits(key: Text, v: Json, n: nat) -> bool {
    &&& single_key(key) ==> rank(v) < n
    &&& plural_key(key) ==> rank(v) <= n
}

/// Whether every subschema of `j` ranks below `n`.
pub open spec fn ranks_below(j: Json, n: nat) -> bool {
    forall|i: int|
        0 <= i < j.members().len() ==> fits((#[trigger] j.members()[i]).0, j.members()[i].1, n)
}

/// Whether two parents have the same subschemas.
pub open spec fn same_subschemas(a: Option<Json>, b: Option<Json>) -> bool {
    match (a, b) {
        (Some(x), Some(y)) => forall|key: Text|
            single_key(key) || plural_key(key) ==> #[trigger] x.member(key) == y.member(key),
        (None, None) => true,
        _ => false,
    }
}

// --- visitors --------------------------------------------------------------

/// What a walk does at each schema.
///
/// `State` models the visitor and `visited` what one visit does to it, to the
/// schema and to the parent. A visit leaves the subschemas of the parent alone
/// and makes no subschema rank as high as the schema did, so every walk ends.
pub trait SchemaVisitor: Sized {
    type State;

    /// The model of the visitor.
    spec fn state(&self) -> Self::State;

    /// The visitor, the schema and the parent after a visit.
    spec fn visited(s: Self::State, schema: Json, parent: Option<Json>) -> (
        Self::State,
        Json,
        Option<Json>,
    );

    /// A visit leaves only lower subschemas.
    proof fn visit_is_bounded(s: Self::State, schema: Json, parent: Option<Json>)
        ensures
            ranks_below(Self::visited(s, schema, parent).1, rank(schema)),
            same_subschemas(parent, Self::visited(s, schema, parent).2),
    ;

    /// Visit `schema`. The parent is `None` at the root.
    fn visit(&mut self, schema: &mut JsonValue, parent: Option<&mut JsonValue>)
        ensures
            match parent {
                Some(p) => (final(self).state(), final(schema)@, Some(final(p)@)) == Self::visited(
                    old(self).state(),
                    old(schema)@,
                    Some(p@),
                ),
                None => (final(self).state(), final(schema)@, None::<Json>) == Self::visited(
                    old(self).state(),
                    old(schema)@,
                    None,
                ),
            },
    ;
}

// --- what a walk does ------------------------------------------------------

/// The parent with the child put back under `key`. Only an object takes it.
pub open spec fn reattached(parent: Json, key: Text, child: Json) -> Json {
    match parent {
        Json::Object(m) => Json::Object(json::insert(m, key, child)),
        _ => parent,
    }
}

/// The visitor, the schema and the parent after a walk of a schema of rank at
/// most `h`.
pub open spec fn walked<V: SchemaVisitor>(h: nat, s: V::State, schema: Json, parent: Option<Json>) -> (
    V::State,
    Json,
    Option<Json>,
)
    decreases h, 3nat, 0nat,
{
    if !(schema is Object || schema is Array) {
        (s, schema, parent)
    } else if schema.text_member("$ref"@) is Some {
        let copy = Json::single("$ref"@, schema.member("$ref"@)->0);
        let (s1, _, p1) = V::visited(s, copy, parent);
        (s1, schema, p1)
    } else {
        let (s1, j1, p1) = V::visited(s, schema, parent);
        let (s2, j2) = children_walked::<V>(h, s1, j1);
        (s2, j2, p1)
    }
}

/// The visitor and the schema after a walk of the children of the schema.
pub open spec fn children_walked<V: SchemaVisitor>(h: nat, s: V::State, schema: Json) -> (
    V::State,
    Json,
)
    decreases h, 2nat, 0nat,
{
    let (s1, j1) = child_walked::<V>(h, s, schema, "items"@);
    let (s2, j2) = container_walked::<V>(h, s1, j1, "additionalItems"@);
    let (s3, j3) = container_walked::<V>(h, s2, j2, "additionalProperties"@);
    let (s4, j4) = map_walked::<V>(h, s3, j3, "properties"@);
    let (s5, j5) = map_walked::<V>(h, s4, j4, "patternProperties"@);
    let (s6, j6) = array_walked::<V>(h, s5, j5, "allOf"@);
    let (s7, j7) = array_walked::<V>(h, s6, j6, "anyOf"@);
    let (s8, j8) = array_walked::<V>(h, s7, j7, "oneOf"@);
    child_walked::<V>(h, s8, j8, "not"@)
}

/// The visitor and the schema after a walk of the child under `key`. The child
/// is off its parent during the walk.
pub open spec fn child_walked<V: SchemaVisitor>(h: nat, s: V::State, schema: Json, key: Text) -> (
    V::State,
    Json,
)
    decreases h, 1nat, 0nat,
{
    match schema.member(key) {
        Some(child) => if h > 0 {
            let (s1, c1, p1) = walked::<V>(
                (h - 1) as nat,
                s,
                child,
                Some(schema.dropped(key)),
            );
            (s1, reattached(p1->0, key, c1))
        } else {
            (s, schema)
        },
        None => (s, schema),
    }
}

/// The visitor and the schema after a walk of the child under `key`, when that
/// is an object or an array.
pub open spec fn container_walked<V: SchemaVisitor>(h: nat, s: V::State, schema: Json, key: Text) -> (
    V::State,
    Json,
)
    decreases h, 1nat, 1nat,
{
    match schema.member(key) {
        Some(child) => if child is Object || child is Array {
            child_walked::<V>(h, s, schema, key)
        } else {
            (s, schema)
        },
        None => (s, schema),
    }
}

/// The visitor and the schema after a walk of the members of the child under
/// `key`.
pub open spec fn map_walked<V: SchemaVisitor>(h: nat, s: V::State, schema: Json, key: Text) -> (
    V::State,
    Json,
)
    decreases h, 1nat, 0nat,
{
    match schema.member(key) {
        Some(child) => match child {
            Json::Object(m) => {
                let (s1, m1, p1) = members_walked::<V>(
                    h,
                    json::keys(m),
                    0,
                    s,
                    m,
                    schema.dropped(key),
                );
                (s1, reattached(p1, key, Json::Object(m1)))
            },
            _ => (s, reattached(schema.dropped(key), key, child)),
        },
        None => (s, schema),
    }
}

/// The visitor, the members and the parent after a walk of the members with the
/// names from position `i` on. A member is off its object during the walk.
pub open spec fn members_walked<V: SchemaVisitor>(
    h: nat,
    names: Seq<Text>,
    i: nat,
    s: V::State,
    m: Members,
    parent: Json,
) -> (V::State, Members, Json)
    decreases h, 0nat, names.len() - i,
{
    if i >= names.len() {
        (s, m, parent)
    } else {
        let name = names[i as int];
        match json::lookup(m, name) {
            Some(sub) => if h > 0 {
                let (s1, c1, p1) = walked::<V>((h - 1) as nat, s, sub, Some(parent));
                members_walked::<V>(
                    h,
                    names,
                    i + 1,
                    s1,
                    json::insert(json::remove(m, name), name, c1),
                    p1->0,
                )
            } else {
                (s, m, parent)
            },
            None => members_walked::<V>(h, names, i + 1, s, m, parent),
        }
    }
}

/// The visitor and the schema after a walk of the elements of the child under
/// `key`.
pub open spec fn array_walked<V: SchemaVisitor>(h: nat, s: V::State, schema: Json, key: Text) -> (
    V::State,
    Json,
)
    decreases h, 1nat, 0nat,
{
    match schema.member(key) {
        Some(child) => match child {
            Json::Array(a) => {
                let (s1, a1, p1) = elements_walked::<V>(h, 0, s, a, schema.dropped(key));
                (s1, reattached(p1, key, Json::Array(a1)))
            },
            _ => (s, reattached(schema.dropped(key), key, child)),
        },
        None => (s, schema),
    }
}

/// The visitor, the elements and the parent after a walk of the elements from
/// position `i` on.
pub open spec fn elements_walked<V: SchemaVisitor>(
    h: nat,
    i: nat,
    s: V::State,
    a: Seq<Json>,
    parent: Json,
) -> (V::State, Seq<Json>, Json)
    decreases h, 0nat, a.len() - i,
{
    if i >= a.len() {
        (s, a, parent)
    } else if h > 0 {
        let (s1, c1, p1) = walked::<V>((h - 1) as nat, s, a[i as int], Some(parent));
        elements_walked::<V>(h, i + 1, s1, a.update(i as int, c1), p1->0)
    } else {
        (s, a, parent)
    }
}

/// The visitor and the schema after a walk from the root.
pub open spec fn schema_walked<V: SchemaVisitor>(s: V::State, schema: Json) -> (V::State, Json) {
    let (s1, j1, _) = walked::<V>(rank(schema), s, schema, None);
    (s1, j1)
}

// --- rank lemmas -----------------------------------------------------------

/// The rank of elements is the least bound on their ranks.
pub proof fn elements_rank_bound(a: Seq<Json>, i: nat, n: nat)
    ensures
        elements_rank(a, i) <= n <==> forall|k: int|
            i <= k < a.len() ==> rank(#[trigger] a[k]) <= n,
    decreases a.len() - i,
{
    if i < a.len() {
        elements_rank_bound(a, i + 1, n);
        if elements_rank(a, i) <= n {
            assert forall|k: int| i <= k < a.len() implies rank(#[trigger] a[k]) <= n by {
                if k > i {
                    assert(i + 1 <= k < a.len());
                }
            }
        }
    }
}

/// The rank of members is the least bound on what they add.
pub proof fn members_rank_bound(m: Members, i: nat, n: nat)
    ensures
        members_rank(m, i) <= n <==> forall|k: int|
            i <= k < m.len() ==> member_rank(
                (#[trigger] m[k]).0,
                m[k].1,
                rank(m[k].1),
            ) <= n,
    decreases m.len() - i,
{
    if i < m.len() {
        members_rank_bound(m, i + 1, n);
        if members_rank(m, i) <= n {
            assert forall|k: int| i <= k < m.len() implies member_rank(
                (#[trigger] m[k]).0,
                m[k].1,
                rank(m[k].1),
            ) <= n by {
                if k > i {
                    assert(i + 1 <= k < m.len());
                }
            }
        }
    }
}

/// A member ranks below its object.
pub proof fn member_ranks_below(m: Members, key: Text)
    requires
        json::has_key(m, key),
    ensures
        member_rank(key, json::lookup(m, key)->0, rank(json::lookup(m, key)->0)) < rank(
            Json::Object(m),
        ),
        rank(json::lookup(m, key)->0) < rank(Json::Object(m)),
{
    laws::index_found(m, key, 0);
    members_rank_bound(m, 0, members_rank(m, 0));
    let k = json::index_of(m, key);
    assert(member_rank(m[k].0, m[k].1, rank(m[k].1)) <= members_rank(m, 0));
}

/// Every member fits where every subschema ranks low enough.
proof fn member_fits(j: Json, n: nat, key: Text)
    requires
        ranks_below(j, n),
        j.member(key) is Some,
    ensures
        fits(key, j.member(key)->0, n),
{
    laws::index_found(j.members(), key, 0);
    assert(fits(
        j.members()[json::index_of(j.members(), key)].0,
        j.members()[json::index_of(j.members(), key)].1,
        n,
    ));
}

/// The names of the subschema members differ.
proof fn keys_differ()
    ensures
        !plural_key("items"@),
        !plural_key("additionalItems"@),
        !plural_key("additionalProperties"@),
        !plural_key("not"@),
        "items"@ != "additionalItems"@,
        "items"@ != "additionalProperties"@,
        "items"@ != "not"@,
        "additionalItems"@ != "additionalProperties"@,
        "additionalItems"@ != "not"@,
        "additionalProperties"@ != "not"@,
        "properties"@ != "patternProperties"@,
        "properties"@ != "allOf"@,
        "properties"@ != "anyOf"@,
        "properties"@ != "oneOf"@,
        "patternProperties"@ != "allOf"@,
        "patternProperties"@ != "anyOf"@,
        "patternProperties"@ != "oneOf"@,
        "allOf"@ != "anyOf"@,
        "allOf"@ != "oneOf"@,
        "anyOf"@ != "oneOf"@,
{
    reveal_strlit("items");
    reveal_strlit("additionalItems");
    reveal_strlit("additionalProperties");
    reveal_strlit("properties");
    reveal_strlit("patternProperties");
    reveal_strlit("allOf");
    reveal_strlit("anyOf");
    reveal_strlit("oneOf");
    reveal_strlit("not");
    assert("items"@.len() == 5 && "not"@.len() == 3 && "properties"@.len() == 10);
    assert("allOf"@.len() == 5 && "anyOf"@.len() == 5 && "oneOf"@.len() == 5);
    assert("additionalItems"@.len() == 15 && "additionalProperties"@.len() == 20);
    assert("patternProperties"@.len() == 17);
    assert("items"@[0] == 'i');
    assert("allOf"@[0] == 'a' && "allOf"@[1] == 'l');
    assert("anyOf"@[0] == 'a' && "anyOf"@[1] == 'n');
    assert("oneOf"@[0] == 'o');
}

// --- the walk --------------------------------------------------------------

/// Walk `schema` and its subschemas, handing each to `visitor`.
pub fn walk_schema<V: SchemaVisitor>(schema: &mut JsonValue, visitor: &mut V)
    ensures
        (final(visitor).state(), final(schema)@) == schema_walked::<V>(
            old(visitor).state(),
            old(schema)@,
        ),
{
    let ghost h = rank(schema@);
    walk(schema, None, visitor, Ghost(h));
}

/// Recursive worker. `parent` is the schema one level up, when present.
fn walk<V: SchemaVisitor>(
    schema: &mut JsonValue,
    parent: Option<&mut JsonValue>,
    visitor: &mut V,
    Ghost(h): Ghost<nat>,
)
    requires
        rank(old(schema)@) <= h,
    ensures
        match parent {
            Some(p) => {
                &&& (final(visitor).state(), final(schema)@, Some(final(p)@)) == walked::<V>(
                    h,
                    old(visitor).state(),
                    old(schema)@,
                    Some(p@),
                )
                &&& same_subschemas(Some(p@), Some(final(p)@))
            },
            None => (final(visitor).state(), final(schema)@, None::<Json>) == walked::<V>(
                h,
                old(visitor).state(),
                old(schema)@,
                None,
            ),
        },
    decreases h, 3nat, 0nat,
{
    if !schema.is_object() && !schema.is_array() {
        return;
    }
    let ghost before = match &parent {
        Some(p) => Some(p@),
        None => None,
    };

    // A $ref short-circuits: visit a throwaway copy, ignore other members.
    if let Some(reference) = schema.get_str("$ref") {
        let mut copy = JsonValue::single("$ref", JsonValue::text(reference));
        proof {
            V::visit_is_bounded(visitor.state(), copy@, before);
        }
        visitor.visit(&mut copy, parent);
        return;
    }
    proof {
        V::visit_is_bounded(visitor.state(), schema@, before);
    }
    visitor.visit(schema, parent);
    walk_children(schema, visitor, Ghost(h));
}

/// Visit the children in the fixed order.
fn walk_children<V: SchemaVisitor>(schema: &mut JsonValue, visitor: &mut V, Ghost(h): Ghost<nat>)
    requires
        ranks_below(old(schema)@, h),
    ensures
        (final(visitor).state(), final(schema)@) == children_walked::<V>(
            h,
            old(visitor).state(),
            old(schema)@,
        ),
    decreases h, 2nat, 0nat,
{
    proof {
        keys_differ();
        assert forall|key: Text| #[trigger] schema@.member(key) is Some implies fits(
            key,
            schema@.member(key)->0,
            h,
        ) by {
            member_fits(schema@, h, key);
        }
    }
    visit_named(schema, "items", visitor, Ghost(h));
    visit_object_only(schema, "additionalItems", visitor, Ghost(h));
    visit_object_only(schema, "additionalProperties", visitor, Ghost(h));
    visit_map(schema, "properties", visitor, Ghost(h));
    visit_map(schema, "patternProperties", visitor, Ghost(h));
    visit_array(schema, "allOf", visitor, Ghost(h));
    visit_array(schema, "anyOf", visitor, Ghost(h));
    visit_array(schema, "oneOf", visitor, Ghost(h));
    visit_named(schema, "not", visitor, Ghost(h));
}

/// Whether the subschemas other than those under `key` are the same.
spec fn others_same(a: Json, b: Json, key: Text) -> bool {
    forall|k: Text|
        (single_key(k) || plural_key(k)) && k != key ==> a.member(k) == #[trigger] b.member(k)
}

/// Taking a child off, walking it and putting it back leaves the subschemas
/// under the other keys alone.
proof fn others_stay(m: Members, key: Text, parent: Json, child: Json)
    requires
        json::distinct(m),
        same_subschemas(Some(Json::Object(json::remove(m, key))), Some(parent)),
    ensures
        others_same(Json::Object(m), reattached(parent, key, child), key),
{
    let base = Json::Object(json::remove(m, key));
    assert forall|k: Text| (single_key(k) || plural_key(k)) && k != key implies Json::Object(
        m,
    ).member(k) == #[trigger] reattached(parent, key, child).member(k) by {
        laws::lookup_remove_other(m, key, k);
        assert(base.member(k) == parent.member(k));
        if let Json::Object(p) = parent {
            laws::lookup_insert_other(p, key, child, k);
        }
    }
}

/// Walk a single named child schema when present.
fn visit_named<V: SchemaVisitor>(
    schema: &mut JsonValue,
    key: &str,
    visitor: &mut V,
    Ghost(h): Ghost<nat>,
)
    requires
        old(schema)@.member(key@) is Some ==> rank(old(schema)@.member(key@)->0) < h,
    ensures
        (final(visitor).state(), final(schema)@) == child_walked::<V>(
            h,
            old(visitor).state(),
            old(schema)@,
            key@,
        ),
        others_same(old(schema)@, final(schema)@, key@),
    decreases h, 1nat, 0nat,
{
    let ghost m = schema@.members();
    if let Some(mut child) = take(schema, key) {
        walk(&mut child, Some(schema), visitor, Ghost((h - 1) as nat));
        proof {
            others_stay(m, key@, schema@, child@);
        }
        put(schema, key, child);
    }
}

/// Walk a named child only when it is an object or array.
fn visit_object_only<V: SchemaVisitor>(
    schema: &mut JsonValue,
    key: &str,
    visitor: &mut V,
    Ghost(h): Ghost<nat>,
)
    requires
        old(schema)@.member(key@) is Some ==> rank(old(schema)@.member(key@)->0) < h,
    ensures
        (final(visitor).state(), final(schema)@) == container_walked::<V>(
            h,
            old(visitor).state(),
            old(schema)@,
            key@,
        ),
        others_same(old(schema)@, final(schema)@, key@),
    decreases h, 1nat, 1nat,
{
    let container = match schema.get(key) {
        Some(v) => v.is_object() || v.is_array(),
        None => false,
    };
    if container {
        visit_named(schema, key, visitor, Ghost(h));
    }
}

/// Walk every value of a child map (`properties`, `patternProperties`).
fn visit_map<V: SchemaVisitor>(
    schema: &mut JsonValue,
    key: &str,
    visitor: &mut V,
    Ghost(h): Ghost<nat>,
)
    requires
        old(schema)@.member(key@) is Some ==> rank(old(schema)@.member(key@)->0) <= h,
    ensures
        (final(visitor).state(), final(schema)@) == map_walked::<V>(
            h,
            old(visitor).state(),
            old(schema)@,
            key@,
        ),
        others_same(old(schema)@, final(schema)@, key@),
    decreases h, 1nat, 0nat,
{
    let ghost m = schema@.members();
    if let Some(mut child) = take(schema, key) {
        if let JsonValue::Object(map) = &mut child {
            visit_members(map, schema, visitor, Ghost(h));
        }
        proof {
            others_stay(m, key@, schema@, child@);
        }
        put(schema, key, child);
    }
}

/// Walk every value of a map.
fn visit_members<V: SchemaVisitor>(
    map: &mut Object,
    schema: &mut JsonValue,
    visitor: &mut V,
    Ghost(h): Ghost<nat>,
)
    requires
        rank(Json::Object(old(map)@)) <= h,
    ensures
        (final(visitor).state(), final(map)@, final(schema)@) == members_walked::<V>(
            h,
            json::keys(old(map)@),
            0,
            old(visitor).state(),
            old(map)@,
            old(schema)@,
        ),
        same_subschemas(Some(old(schema)@), Some(final(schema)@)),
    decreases h, 0nat, 0nat,
{
    let ghost m0 = map@;
    let ghost s0 = visitor.state();
    let ghost j0 = schema@;
    let _ = map.len();
    let names = map.keys();
    let ghost ns = json::texts(names@);
    proof {
        assert forall|k: int| 0 <= k < ns.len() implies json::lookup(m0, #[trigger] ns[k]) is Some
            && rank(json::lookup(m0, ns[k])->0) < h by {
            assert(ns[k] == m0[k].0);
            laws::index_is_first(m0, ns[k], 0, k);
            member_ranks_below(m0, ns[k]);
        }
    }
    let mut i: usize = 0;
    while i < names.len()
        invariant
            i <= names@.len(),
            ns == json::texts(names@),
            ns == json::keys(m0),
            json::distinct(m0),
            members_walked::<V>(h, ns, 0, s0, m0, j0) == members_walked::<V>(
                h,
                ns,
                i as nat,
                visitor.state(),
                map@,
                schema@,
            ),
            same_subschemas(Some(j0), Some(schema@)),
            forall|k: int|
                i <= k < ns.len() ==> json::lookup(map@, #[trigger] ns[k]) is Some && rank(
                    json::lookup(map@, ns[k])->0,
                ) < h,
        decreases names@.len() - i,
    {
        let name = names[i].as_str();
        let ghost m1 = map@;
        assert(ns[i as int] == name@);
        if let Some(mut sub) = map.remove(name) {
            walk(&mut sub, Some(schema), visitor, Ghost((h - 1) as nat));
            let ghost m2 = map@;
            let ghost c = sub@;
            map.insert(name, sub);
            proof {
                assert forall|k: int| i < k < ns.len() implies json::lookup(
                    map@,
                    #[trigger] ns[k],
                ) == json::lookup(m1, ns[k]) by {
                    assert(m0[i as int].0 != m0[k].0);
                    laws::lookup_remove_other(m1, name@, ns[k]);
                    laws::lookup_insert_other(m2, name@, c, ns[k]);
                }
            }
        }
        i += 1;
    }
}

/// Walk every element of a child array (`allOf`, `anyOf`, `oneOf`).
fn visit_array<V: SchemaVisitor>(
    schema: &mut JsonValue,
    key: &str,
    visitor: &mut V,
    Ghost(h): Ghost<nat>,
)
    requires
        old(schema)@.member(key@) is Some ==> rank(old(schema)@.member(key@)->0) <= h,
    ensures
        (final(visitor).state(), final(schema)@) == array_walked::<V>(
            h,
            old(visitor).state(),
            old(schema)@,
            key@,
        ),
        others_same(old(schema)@, final(schema)@, key@),
    decreases h, 1nat, 0nat,
{
    let ghost m = schema@.members();
    if let Some(mut child) = take(schema, key) {
        if let Some(list) = child.as_array_mut() {
            visit_elements(list, schema, visitor, Ghost(h));
        }
        proof {
            others_stay(m, key@, schema@, child@);
        }
        put(schema, key, child);
    }
}

/// Walk every element of a list.
fn visit_elements<V: SchemaVisitor>(
    list: &mut Vec<JsonValue>,
    schema: &mut JsonValue,
    visitor: &mut V,
    Ghost(h): Ghost<nat>,
)
    requires
        rank(Json::Array(value::views(old(list)@))) <= h,
    ensures
        (final(visitor).state(), value::views(final(list)@), final(schema)@) == elements_walked::<
            V,
        >(h, 0, old(visitor).state(), value::views(old(list)@), old(schema)@),
        same_subschemas(Some(old(schema)@), Some(final(schema)@)),
    decreases h, 0nat, 0nat,
{
    let ghost a0 = value::views(list@);
    let ghost s0 = visitor.state();
    let ghost j0 = schema@;
    proof {
        elements_rank_bound(a0, 0, elements_rank(a0, 0));
        assert forall|k: int| 0 <= k < list@.len() implies rank((#[trigger] list@[k])@) < h by {
            assert(a0[k] == list@[k]@);
        }
    }
    let mut i: usize = 0;
    while i < list.len()
        invariant
            i <= list@.len(),
            elements_walked::<V>(h, 0, s0, a0, j0) == elements_walked::<V>(
                h,
                i as nat,
                visitor.state(),
                value::views(list@),
                schema@,
            ),
            same_subschemas(Some(j0), Some(schema@)),
            forall|k: int| i <= k < list@.len() ==> rank((#[trigger] list@[k])@) < h,
        decreases list@.len() - i,
    {
        let ghost a1 = value::views(list@);
        assert(a1[i as int] == list@[i as int]@);
        walk(&mut list[i], Some(schema), visitor, Ghost((h - 1) as nat));
        assert(value::views(list@) =~= a1.update(i as int, list@[i as int]@));
        i += 1;
    }
}

/// Detach `schema[key]` so the parent can be borrowed mutably.
fn take(schema: &mut JsonValue, key: &str) -> (r: Option<JsonValue>)
    ensures
        match r {
            Some(v) => {
                &&& old(schema)@ is Object
                &&& old(schema)@.member(key@) == Some(v@)
                &&& final(schema)@ == old(schema)@.dropped(key@)
                &&& json::distinct(old(schema)@.members())
            },
            None => old(schema)@.member(key@) is None && final(schema)@ == old(schema)@,
        },
{
    match schema {
        JsonValue::Object(m) => m.remove(key),
        _ => None,
    }
}

/// Reattach `value` under `schema[key]`.
fn put(schema: &mut JsonValue, key: &str, value: JsonValue)
    ensures
        final(schema)@ == reattached(old(schema)@, key@, value@),
{
    if let Some(map) = schema.as_object_mut() {
        map.insert(key, value);
    }
}

} // verus!
