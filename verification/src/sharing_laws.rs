//! Laws of shared request bodies.

use vstd::prelude::*;

use crate::common;
use crate::conversion_laws;
use crate::convert::cache::{self, Cached};
use crate::convert::components::{self, Extraction};
use crate::convert::operation;
use crate::convert::paths;
use crate::jptr::{self, Target};
use crate::json::{self, Json, Text};
use crate::laws;
use crate::options::Settings;
use crate::output_laws;
use crate::path_laws;
use crate::reference_laws::{self, bucket_of, component_of};
use crate::suffix;

verus! {

// --- the cache -------------------------------------------------------------

/// Whether one cache is the other with a pointer noted in the entry at position `i`, of
/// an equal body, or in a new last entry.
pub open spec fn is_noted(
    c: Seq<Cached>,
    c1: Seq<Cached>,
    i: int,
    body: Json,
    pointer: Text,
) -> bool {
    &&& 0 <= i < c1.len()
    &&& c1[i].body == body || json::same(c1[i].body, body)
    &&& i < c.len() ==> {
        &&& c1.len() == c.len()
        &&& c1[i].refs == c[i].refs.push(pointer)
        &&& c1[i].body == c[i].body && c1[i].name == c[i].name
    }
    &&& i >= c.len() ==> {
        &&& i == c.len() && c1.len() == c.len() + 1
        &&& c1[i].refs == seq![pointer]
    }
    &&& forall|k: int| 0 <= k < c.len() && k != i ==> #[trigger] c1[k] == c[k]
}

/// The request body of an operation is noted in the entry of an equal body, and that it
/// stands in that operation. The body loses the name that it was given on the way.
/// Nothing else that the cache notes changes.
pub proof fn body_is_noted(op: Json, p: Text, method: Text, container: Text, c: Seq<Cached>)
    requires
        op.has("requestBody"@),
    ensures
        operation::op_body_seen(op, p, method, container, c).0.member("requestBody"@) == Some(
            op.member("requestBody"@)->0.without("x-s2o-name"@),
        ),
        forall|key: Text|
            key != "requestBody"@ ==> #[trigger] operation::op_body_seen(
                op,
                p,
                method,
                container,
                c,
            ).0.member(key) == op.member(key),
        exists|i: int| #[trigger]
            is_noted(
                c,
                operation::op_body_seen(op, p, method, container, c).1,
                i,
                op.member("requestBody"@)->0.without("x-s2o-name"@),
                operation::body_pointer(container, p, method),
            ),
{
    broadcast use laws::group_members;

    let body = op.member("requestBody"@)->0.without("x-s2o-name"@);
    let pointer = operation::body_pointer(container, p, method);
    let name = operation::body_name(op, p, method);
    let h = #[verifier::truncate] (cache::body_hash(body) as i32);
    cache::bodies_stay_apart(c, h, body, name);
    let (c0, i) = cache::body_seen(c, h, body, name);
    let c1 = cache::ref_seen(c0, i, pointer);
    let k = i as int;
    assert(c1[k].refs == c0[k].refs.push(pointer));
    assert(operation::op_body_seen(op, p, method, container, c) == (
        op.with("requestBody"@, body),
        c1,
    ));
    assert forall|q: int| 0 <= q < c.len() && q != k implies #[trigger] c1[q] == c[q] by {
        assert(c0[q] == c[q]);
    }
    if k < c.len() {
        assert(c0[k] == c[k]);
        assert(c0.len() == c.len()) by {
            if cache::entry_from(c, h, body, 0) >= c.len() {
                assert(i == c.len());
            }
        }
    } else {
        assert(c0 == c.push(Cached { hash: h, name, body, refs: Seq::empty() }));
        assert(c0[k].refs.push(pointer) =~= seq![pointer]);
    }
    let noted = operation::op_body_seen(op, p, method, container, c).1;
    assert(noted == c1);
    assert(is_noted(c, noted, k, body, pointer));
    let x = op.with("requestBody"@, body);
    assert(op is Object);
    assert(x.member("requestBody"@) == Some(body));
    assert forall|key: Text| key != "requestBody"@ implies #[trigger] x.member(key) == op.member(
        key,
    ) by {}
}

// --- writes at other places ------------------------------------------------

/// Whether the keys from position `i` on lead through objects.
pub open spec fn through_objects(j: Json, keys: Seq<Text>, i: nat) -> bool
    decreases keys.len() - i,
{
    i >= keys.len() || (j is Object && match j.member(keys[i as int]) {
        Some(c) => through_objects(c, keys, i + 1),
        None => false,
    })
}

proof fn written_place(j: Json, keys: Seq<Text>, i: nat, v: Json)
    requires
        i < keys.len(),
        through_objects(j, keys, i),
    ensures
        jptr::assign(j, keys, i as int, v).1,
        jptr::resolve(jptr::assign(j, keys, i as int, v).0, keys, i as int) == Some(v),
        through_objects(jptr::assign(j, keys, i as int, v).0, keys, i),
    decreases keys.len() - i,
{
    broadcast use laws::group_members;

    let key = keys[i as int];
    let c = j.member(key)->0;
    let x = jptr::assign(j, keys, i as int, v).0;
    if i + 1 == keys.len() {
        assert(x == j.with(key, v));
        assert(x.member(key) == Some(v));
        assert(jptr::resolve(v, keys, i as int + 1) == Some(v));
        assert(through_objects(v, keys, i + 1));
    } else {
        written_place(c, keys, i + 1, v);
        let c1 = jptr::assign(c, keys, i as int + 1, v).0;
        assert(x == j.with(key, c1));
        assert(x.member(key) == Some(c1));
    }
}

/// A write at one place leaves what is at another of the same depth.
proof fn other_place(j: Json, keys: Seq<Text>, other: Seq<Text>, i: nat, v: Json)
    requires
        i < keys.len(),
        keys.len() == other.len(),
        keys != other,
        forall|k: int| 0 <= k < i ==> keys[k] == other[k],
        through_objects(j, keys, i),
        through_objects(j, other, i),
    ensures
        ({
            let x = jptr::assign(j, keys, i as int, v).0;
            &&& jptr::resolve(x, other, i as int) == jptr::resolve(j, other, i as int)
            &&& through_objects(x, other, i)
        }),
    decreases keys.len() - i,
{
    broadcast use laws::group_members;

    let key = keys[i as int];
    let x = jptr::assign(j, keys, i as int, v).0;
    let c = j.member(key)->0;
    if i + 1 == keys.len() {
        assert(x == j.with(key, v));
        if other[i as int] == key {
            assert(keys =~= other);
        }
        assert(x.member(other[i as int]) == j.member(other[i as int]));
    } else {
        let c1 = jptr::assign(c, keys, i as int + 1, v).0;
        assert(x == j.with(key, c1));
        if other[i as int] == key {
            other_place(c, keys, other, i + 1, v);
            assert(x.member(key) == Some(c1));
        } else {
            assert(x.member(other[i as int]) == j.member(other[i as int]));
        }
    }
}

/// Whether a pointer leads through objects to a request body of an operation.
pub open spec fn leads_to_body(openapi: Json, pointer: Text) -> bool {
    jptr::target(pointer) matches Target::Path(keys) && keys.len() == 4 && keys[0] != "components"@
        && through_objects(openapi, keys, 0)
}

/// What a pointer leads to.
pub open spec fn keys_of(pointer: Text) -> Seq<Text> {
    match jptr::target(pointer) {
        Target::Path(keys) => keys,
        _ => Seq::empty(),
    }
}

/// Whether pointers lead to different request bodies.
pub open spec fn lead_apart(openapi: Json, refs: Seq<Text>) -> bool {
    &&& forall|i: int| 0 <= i < refs.len() ==> leads_to_body(openapi, #[trigger] refs[i])
    &&& forall|i: int, j: int|
        0 <= i < j < refs.len() ==> keys_of(#[trigger] refs[i]) != keys_of(#[trigger] refs[j])
}

proof fn refs_are_placed(openapi: Json, refs: Seq<Text>, i: nat, v: Json)
    requires
        i <= refs.len(),
        lead_apart(openapi, refs),
    ensures
        ({
            let x = components::refs_placed(openapi, refs, i, v);
            &&& lead_apart(x, refs)
            &&& x.member("components"@) == openapi.member("components"@)
            &&& openapi is Object ==> x is Object
            &&& forall|k: int| i <= k < refs.len() ==> jptr::read(x, #[trigger] refs[k]) == Some(v)
            &&& forall|k: int|
                0 <= k < i ==> jptr::read(x, #[trigger] refs[k]) == jptr::read(openapi, refs[k])
            &&& forall|q: Text|
                leads_to_body(openapi, q) && (forall|k: int|
                    0 <= k < refs.len() ==> keys_of(#[trigger] refs[k]) != keys_of(q))
                    ==> #[trigger] jptr::read(x, q) == jptr::read(openapi, q) && leads_to_body(x, q)
        }),
    decreases refs.len() - i,
{
    if i < refs.len() {
        let r = refs[i as int];
        let keys = keys_of(r);
        assert(leads_to_body(openapi, r));
        let d = jptr::write(openapi, r, v).0;
        written_place(openapi, keys, 0, v);
        path_laws::write_keeps_other_members(openapi, keys, v, "components"@);
        assert(jptr::read(d, r) == Some(v));
        assert forall|q: Text| leads_to_body(openapi, q) && keys_of(q) != keys implies #[trigger]
            jptr::read(d, q) == jptr::read(openapi, q) && leads_to_body(d, q) by {
            other_place(openapi, keys, keys_of(q), 0, v);
        }
        assert(lead_apart(d, refs)) by {
            assert forall|k: int| 0 <= k < refs.len() implies leads_to_body(
                d,
                #[trigger] refs[k],
            ) by {
                if k != i {
                    assert(leads_to_body(openapi, refs[k]));
                    assert(keys_of(refs[k]) != keys) by {
                        if k < i {
                            assert(keys_of(refs[k]) != keys_of(refs[i as int]));
                        } else {
                            assert(keys_of(refs[i as int]) != keys_of(refs[k]));
                        }
                    }
                    assert(jptr::read(d, refs[k]) == jptr::read(openapi, refs[k]));
                }
            }
        }
        refs_are_placed(d, refs, i + 1, v);
        let x = components::refs_placed(openapi, refs, i, v);
        assert(x == components::refs_placed(d, refs, i + 1, v));
        assert forall|k: int| i <= k < refs.len() implies jptr::read(x, #[trigger] refs[k]) == Some(
            v,
        ) by {
            if k == i {
                assert(jptr::read(x, refs[k]) == jptr::read(d, refs[k]));
            }
        }
        assert forall|k: int| 0 <= k < i implies jptr::read(x, #[trigger] refs[k]) == jptr::read(
            openapi,
            refs[k],
        ) by {
            assert(keys_of(refs[k]) != keys_of(refs[i as int]));
            assert(leads_to_body(openapi, refs[k]));
            assert(jptr::read(d, refs[k]) == jptr::read(openapi, refs[k]));
        }
        assert forall|q: Text|
            leads_to_body(openapi, q) && (forall|k: int|
                0 <= k < refs.len() ==> keys_of(#[trigger] refs[k]) != keys_of(q)) implies
            #[trigger] jptr::read(x, q) == jptr::read(openapi, q) && leads_to_body(x, q) by {
            assert(keys_of(refs[i as int]) != keys_of(q));
            assert(jptr::read(d, q) == jptr::read(openapi, q));
        }
    }
}

// --- shared bodies ---------------------------------------------------------

/// A request body that stands in several operations becomes a component under a new
/// name, and each of the operations refers to it. One that stands in a single
/// operation stays there.
pub proof fn repeated_body_is_shared(x: Extraction, e: Cached)
    requires
        x.openapi is Object,
        x.openapi.member("components"@) matches Some(c) && c is Object,
        bucket_of(x.openapi, "requestBodies"@) is Some,
        lead_apart(x.openapi, e.refs),
    ensures
        ({
            let y = components::entry_extracted(x, e);
            &&& e.refs.len() <= 1 ==> y == x
            &&& e.refs.len() > 1 ==> exists|name: Text| {
                &&& !x.given.contains(name) && y.given == x.given.push(name)
                &&& #[trigger] component_of(y.openapi, "requestBodies"@, name) == Some(e.body)
                &&& forall|n: Text| n != name ==> #[trigger] component_of(
                    y.openapi,
                    "requestBodies"@,
                    n,
                ) == component_of(x.openapi, "requestBodies"@, n)
                &&& forall|k: int|
                    0 <= k < e.refs.len() ==> jptr::read(y.openapi, #[trigger] e.refs[k]) == Some(
                        Json::single(
                            "$ref"@,
                            Json::String("#/components/requestBodies/"@ + name),
                        ),
                    )
                &&& e.name.len() > 0 && !x.given.contains(e.name) ==> name == e.name
            }
            &&& forall|q: Text|
                leads_to_body(x.openapi, q) && (forall|k: int|
                    0 <= k < e.refs.len() ==> keys_of(#[trigger] e.refs[k]) != keys_of(q))
                    ==> #[trigger] jptr::read(y.openapi, q) == jptr::read(x.openapi, q)
                    && leads_to_body(y.openapi, q)
            &&& y.openapi is Object
            &&& y.openapi.member("components"@) matches Some(c) && c is Object
            &&& bucket_of(y.openapi, "requestBodies"@) is Some
        }),
{
    broadcast use laws::group_members;

    if e.refs.len() > 1 {
        let name = components::shared_name(x, e.name);
        output_laws::shared_name_is_new(x, e.name);
        let bodies = bucket_of(x.openapi, "requestBodies"@)->0;
        reference_laws::bucket_at(x.openapi, "requestBodies"@, bodies.with(name, e.body));
        let d = components::body_placed(x.openapi, name, e.body);
        assert forall|q: Text| leads_to_body(x.openapi, q) implies #[trigger] leads_to_body(d, q)
            && jptr::read(d, q) == jptr::read(x.openapi, q) by {
            let keys = keys_of(q);
            assert(d.member(keys[0]) == x.openapi.member(keys[0]));
            assert(jptr::resolve(d, keys, 0) == jptr::resolve(x.openapi, keys, 0));
        }
        assert(lead_apart(d, e.refs)) by {
            assert forall|k: int| 0 <= k < e.refs.len() implies leads_to_body(
                d,
                #[trigger] e.refs[k],
            ) by {
                assert(leads_to_body(x.openapi, e.refs[k]));
            }
        }
        let v = components::shared_ref(name);
        refs_are_placed(d, e.refs, 0, v);
        let y = components::entry_extracted(x, e);
        assert(y.openapi == components::refs_placed(d, e.refs, 0, v));
        assert(component_of(y.openapi, "requestBodies"@, name) == Some(e.body));
        assert forall|n: Text| n != name implies #[trigger] component_of(
            y.openapi,
            "requestBodies"@,
            n,
        ) == component_of(x.openapi, "requestBodies"@, n) by {}
        assert forall|q: Text|
            leads_to_body(x.openapi, q) && (forall|k: int|
                0 <= k < e.refs.len() ==> keys_of(#[trigger] e.refs[k]) != keys_of(q)) implies
            #[trigger] jptr::read(y.openapi, q) == jptr::read(x.openapi, q) && leads_to_body(
            y.openapi,
            q,
        ) by {
            assert(leads_to_body(d, q));
        }
        if e.name.len() > 0 && !x.given.contains(e.name) {
            free_name_is_kept(x.given, e.name);
        }
    }
}

/// A name that has not been given is given as it is.
proof fn free_name_is_kept(given: Seq<Text>, name: Text)
    requires
        !given.contains(name),
    ensures
        name + components::free_given_suffix(given, name, None) == name,
{
    let taken = |k: nat| given.contains(name + suffix::suffix_at(None, k));
    assert(name + suffix::suffix_at(None, 0) =~= name);
    assert(!taken(0));
    suffix::first_free_is(taken, 0);
}

/// The pointer that is noted for the request body of an operation leads to it.
pub proof fn noted_pointer_leads_to_body(openapi: Json, container: Text, p: Text, method: Text)
    requires
        conversion_laws::is_paths_container(container),
        paths::is_method(method),
        through_objects(openapi, seq![container, p, method, "requestBody"@], 0),
    ensures
        leads_to_body(openapi, operation::body_pointer(container, p, method)),
        keys_of(operation::body_pointer(container, p, method)) == seq![
            container,
            p,
            method,
            "requestBody"@,
        ],
{
    conversion_laws::body_pointer_addresses_body(container, p, method);
    reveal_strlit("paths");
    reveal_strlit("x-ms-paths");
    reveal_strlit("components");
    assert("paths"@.len() == 5 && "components"@.len() == 10);
    assert("x-ms-paths"@[0] == 'x' && "components"@[0] == 'c');
}

// --- marked parameters -----------------------------------------------------

proof fn kept_params(a: Seq<Json>, i: nat, v: Json)
    ensures
        operation::params_kept(a, i).contains(v) == (exists|k: int|
            i <= k < a.len() && #[trigger] a[k] == v && !(v is Null) && !common::is_truthy(
                v.member("x-s2o-delete"@),
            )),
    decreases a.len() - i,
{
    if i < a.len() {
        kept_params(a, i + 1, v);
        let rest = operation::params_kept(a, i + 1);
        let first = seq![a[i as int]] + rest;
        if rest.contains(v) {
            let q = choose|q: int| 0 <= q < rest.len() && rest[q] == v;
            assert(first[q + 1] == v);
        }
        assert(first[0] == a[i as int]);
        if first.contains(v) && v != a[i as int] {
            let q = choose|q: int| 0 <= q < first.len() && first[q] == v;
            assert(rest[q - 1] == v);
        }
        if exists|k: int| i <= k < a.len() && #[trigger] a[k] == v {
            let k = choose|k: int| i <= k < a.len() && #[trigger] a[k] == v;
            if k > i {
                assert(i + 1 <= k);
            }
        }
    }
}

/// The parameters that became request bodies go, and the others stay. Under `debug` all
/// stay.
pub proof fn consumed_parameters_go(j: Json, a: Seq<Json>, o: Settings, v: Json)
    requires
        j.member("parameters"@) == Some(Json::Array(a)),
    ensures
        o.debug ==> operation::params_pruned(j, o) == j,
        !o.debug ==> (operation::params_pruned(j, o).member("parameters"@) matches Some(
            Json::Array(x),
        ) && x.contains(v) == (a.contains(v) && !(v is Null) && !common::is_truthy(
            v.member("x-s2o-delete"@),
        ))),
        forall|key: Text| key != "parameters"@ ==> #[trigger] operation::params_pruned(
            j,
            o,
        ).member(key) == j.member(key),
{
    broadcast use laws::group_members;

    kept_params(a, 0, v);
    if a.contains(v) {
        let k = choose|k: int| 0 <= k < a.len() && a[k] == v;
        assert(a[k] == v);
    }
}

} // verus!
