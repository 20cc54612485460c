//! Laws of path items and operations.

use vstd::prelude::*;

use crate::common;
use crate::convert::operation;
use crate::convert::paths;
use crate::convert::response;
use crate::convert::security;
use crate::json::{self, Json, Members, Text};
use crate::laws;
use crate::options::Settings;

verus! {

/// The words that these laws speak of differ.
proof fn operation_words()
    ensures
        "trace"@.len() == 5,
        "x-trace"@.len() == 7 && "x-trace"@[2] == 't',
        "summary"@.len() == 7 && "summary"@[2] == 'm',
        "servers"@.len() == 7 && "servers"@[2] == 'r',
        "default"@.len() == 7 && "default"@[2] == 'f',
        "produces"@.len() == 8,
        "x-summary"@.len() == 9 && "x-summary"@[3] == 'u',
        "x-servers"@.len() == 9 && "x-servers"@[3] == 'e',
        "responses"@.len() == 9 && "responses"@[3] == 'p',
        "parameters"@.len() == 10,
        "description"@.len() == 11,
        "x-description"@.len() == 13,
        "Default response"@.len() == 16,
{
    reveal_strlit("trace");
    reveal_strlit("x-trace");
    reveal_strlit("summary");
    reveal_strlit("servers");
    reveal_strlit("default");
    reveal_strlit("produces");
    reveal_strlit("x-summary");
    reveal_strlit("x-servers");
    reveal_strlit("responses");
    reveal_strlit("parameters");
    reveal_strlit("description");
    reveal_strlit("x-description");
    reveal_strlit("Default response");
}

// --- path items ------------------------------------------------------------

/// The names that the extensions of a path item have, and those that they stand for.
pub open spec fn is_path_extension(key: Text) -> bool {
    ||| key == "x-trace"@ || key == "x-summary"@ || key == "x-description"@ || key == "x-servers"@
    ||| key == "trace"@ || key == "summary"@ || key == "description"@ || key == "servers"@
}

/// The extensions of a path item take the places that they stand for, where they are of
/// the kind that belongs there: an operation, a text, a text and a list of servers.
/// Where they are not, they stay, and so does everything else.
pub proof fn path_extensions_take_their_places(path: Json)
    requires
        path is Object,
        json::distinct(path.members()),
    ensures
        ({
            let r = paths::path_extensions_promoted(path);
            let trace = path.member("x-trace"@);
            let summary = path.member("x-summary"@);
            let description = path.member("x-description"@);
            let list = path.member("x-servers"@);
            &&& r is Object && json::distinct(r.members())
            &&& (r.member("trace"@), r.member("x-trace"@)) == (if trace matches Some(
                Json::Object(_),
            ) {
                (trace, None)
            } else {
                (path.member("trace"@), trace)
            })
            &&& (r.member("summary"@), r.member("x-summary"@)) == (if summary matches Some(
                Json::String(_),
            ) {
                (summary, None)
            } else {
                (path.member("summary"@), summary)
            })
            &&& (r.member("description"@), r.member("x-description"@)) == (if description
                matches Some(Json::String(_)) {
                (description, None)
            } else {
                (path.member("description"@), description)
            })
            &&& (r.member("servers"@), r.member("x-servers"@)) == (if list matches Some(
                Json::Array(_),
            ) {
                (list, None)
            } else {
                (path.member("servers"@), list)
            })
            &&& forall|key: Text|
                !is_path_extension(key) ==> #[trigger] r.member(key) == path.member(key)
        }),
{
    operation_words();
    let m = path.members();
    promoted_member(path, "x-trace"@, "trace"@, paths::Kind::Object);
    let j1 = Json::Object(paths::member_promoted(m, "x-trace"@, "trace"@, paths::Kind::Object));
    promoted_member(j1, "x-summary"@, "summary"@, paths::Kind::String);
    let j2 = Json::Object(
        paths::member_promoted(j1.members(), "x-summary"@, "summary"@, paths::Kind::String),
    );
    promoted_member(j2, "x-description"@, "description"@, paths::Kind::String);
    let j3 = Json::Object(
        paths::member_promoted(
            j2.members(),
            "x-description"@,
            "description"@,
            paths::Kind::String,
        ),
    );
    promoted_member(j3, "x-servers"@, "servers"@, paths::Kind::Array);
}

proof fn promoted_member(j: Json, from: Text, to: Text, kind: paths::Kind)
    requires
        j is Object,
        json::distinct(j.members()),
        from != to,
    ensures
        ({
            let r = Json::Object(paths::member_promoted(j.members(), from, to, kind));
            let applies = j.has(from) && paths::is_kind(j.member(from)->0, kind);
            &&& json::distinct(r.members())
            &&& forall|key: Text| #[trigger]
                r.member(key) == (if !applies {
                    j.member(key)
                } else if key == to {
                    j.member(from)
                } else if key == from {
                    None
                } else {
                    j.member(key)
                })
        }),
{
    broadcast use laws::group_members;

    if j.has(from) && paths::is_kind(j.member(from)->0, kind) {
        assert(Json::Object(paths::member_promoted(j.members(), from, to, kind)) == j.without(
            from,
        ).with(to, j.member(from)->0));
    }
}

// --- requirements ----------------------------------------------------------

/// Whether the names of an object stay apart when they are sanitised.
pub open spec fn names_stay_apart(m: Members) -> bool {
    forall|a: Text, b: Text|
        #![trigger json::has_key(m, a), json::has_key(m, b)]
        json::has_key(m, a) && json::has_key(m, b) && a != b ==> common::sanitised(a)
            != common::sanitised(b) && common::sanitised(a) != b
}

proof fn names_are_sanitised(m: Members, names: Seq<Text>, i: nat)
    requires
        json::distinct(m),
        names.no_duplicates(),
        forall|k: int, q: int|
            0 <= k < names.len() && 0 <= q < names.len() && k != q ==> common::sanitised(
                #[trigger] names[k],
            ) != common::sanitised(#[trigger] names[q]) && common::sanitised(names[k]) != names[q],
        forall|k: int| i <= k < names.len() ==> json::has_key(m, #[trigger] names[k]),
    ensures
        ({
            let r = security::requirement_renamed(m, names, i);
            &&& json::distinct(r)
            &&& forall|k: int|
                i <= k < names.len() ==> json::lookup(r, common::sanitised(#[trigger] names[k]))
                    == json::lookup(m, names[k])
            &&& forall|key: Text|
                (forall|k: int|
                    i <= k < names.len() ==> key != #[trigger] names[k] && key
                        != common::sanitised(names[k])) ==> #[trigger] json::lookup(r, key)
                    == json::lookup(m, key)
        }),
    decreases names.len() - i,
{
    if i < names.len() {
        let name = names[i as int];
        let s = common::sanitised(name);
        let v = json::lookup(m, name)->0;
        let m1 = if name != s {
            json::insert(json::remove(m, name), s, v)
        } else {
            m
        };
        laws::remove_keeps_distinct(m, name);
        laws::insert_keeps_distinct(json::remove(m, name), s, v);
        laws::lookup_after_insert(json::remove(m, name), s, v);
        assert forall|key: Text| key != name && key != s implies #[trigger] json::lookup(m1, key)
            == json::lookup(m, key) by {
            if name != s {
                laws::lookup_insert_other(json::remove(m, name), s, v, key);
                laws::lookup_remove_other(m, name, key);
            }
        }
        assert forall|k: int| i + 1 <= k < names.len() implies json::has_key(
            m1,
            #[trigger] names[k],
        ) by {
            assert(names[k] != names[i as int]);
            assert(json::lookup(m1, names[k]) == json::lookup(m, names[k]));
        }
        names_are_sanitised(m1, names, i + 1);
        let r = security::requirement_renamed(m, names, i);
        assert(r == security::requirement_renamed(m1, names, i + 1));
        assert forall|k: int| i <= k < names.len() implies json::lookup(
            r,
            common::sanitised(#[trigger] names[k]),
        ) == json::lookup(m, names[k]) by {
            if k == i {
                assert(json::lookup(r, s) == json::lookup(m1, s));
            } else {
                assert(names[k] != names[i as int]);
                assert(common::sanitised(names[i as int]) != names[k]);
            }
        }
        assert forall|key: Text|
            (forall|k: int|
                i <= k < names.len() ==> key != #[trigger] names[k] && key != common::sanitised(
                    names[k],
                )) implies #[trigger] json::lookup(r, key) == json::lookup(m, key) by {
            assert(key != names[i as int]);
        }
    }
}

/// The names of an object differ, and are its names.
pub proof fn keys_are_apart(m: Members)
    requires
        json::distinct(m),
    ensures
        json::keys(m).no_duplicates(),
        forall|k: int|
            0 <= k < json::keys(m).len() ==> json::has_key(m, #[trigger] json::keys(m)[k]),
        forall|key: Text| #[trigger] json::has_key(m, key) ==> json::keys(m).contains(key),
{
    let keys = json::keys(m);
    assert forall|a: int, b: int|
        0 <= a < keys.len() && 0 <= b < keys.len() && a != b implies keys[a] != keys[b] by {
        assert(m[a].0 == keys[a] && m[b].0 == keys[b]);
    }
    assert forall|k: int| 0 <= k < keys.len() implies json::has_key(m, #[trigger] keys[k]) by {
        assert(m[k].0 == keys[k]);
        laws::index_is_first(m, keys[k], 0, k);
    }
    assert forall|key: Text| #[trigger] json::has_key(m, key) implies keys.contains(key) by {
        laws::index_found(m, key, 0);
        assert(keys[json::index_of(m, key)] == key);
    }
}

/// Each requirement names the schemes under their sanitised names, with the scopes that
/// it had for them.
pub proof fn requirements_name_schemes(a: Seq<Json>, k: int, m: Members, name: Text)
    requires
        0 <= k < a.len(),
        a[k] == Json::Object(m),
        json::distinct(m),
        names_stay_apart(m),
        json::has_key(m, name),
    ensures
        ({
            let r = security::security_fixed(Json::Array(a)).elements();
            &&& r.len() == a.len()
            &&& r[k].member(common::sanitised(name)) == json::lookup(m, name)
            &&& name != common::sanitised(name) ==> !r[k].has(name)
        }),
{
    let keys = json::keys(m);
    keys_are_apart(m);
    names_are_sanitised(m, keys, 0);
    let q = choose|q: int| 0 <= q < keys.len() && keys[q] == name;
    assert(keys[q] == name);
    let r = security::requirement_renamed(m, keys, 0);
    assert(security::security_fixed(Json::Array(a)).elements()[k] == Json::Object(r));
    if name != common::sanitised(name) {
        old_names_go(m, keys, 0, q);
    }
}

proof fn old_names_go(m: Members, names: Seq<Text>, i: nat, q: int)
    requires
        json::distinct(m),
        names.no_duplicates(),
        forall|k: int, q: int|
            0 <= k < names.len() && 0 <= q < names.len() && k != q ==> common::sanitised(
                #[trigger] names[k],
            ) != common::sanitised(#[trigger] names[q]) && common::sanitised(names[k]) != names[q],
        0 <= q < names.len(),
        names[q] != common::sanitised(names[q]),
        i > q ==> !json::has_key(m, names[q]),
    ensures
        !json::has_key(security::requirement_renamed(m, names, i), names[q]),
    decreases names.len() - i,
{
    if i < names.len() {
        let name = names[i as int];
        let s = common::sanitised(name);
        let v = json::lookup(m, name)->0;
        let cut = json::remove(m, name);
        let m1 = if name != s && json::has_key(m, name) {
            json::insert(cut, s, v)
        } else {
            m
        };
        laws::remove_keeps_distinct(m, name);
        laws::insert_keeps_distinct(cut, s, v);
        assert(s != names[q]) by {
            if i == q {
            } else {
                assert(common::sanitised(names[i as int]) != names[q]);
            }
        }
        if i + 1 > q {
            laws::lookup_insert_other(cut, s, v, names[q]);
            if i == q {
                laws::lookup_after_remove(m, name);
            } else {
                laws::lookup_remove_other(m, name, names[q]);
            }
            assert(!json::has_key(m1, names[q]));
        }
        old_names_go(m1, names, i + 1, q);
    }
}

// --- parameters ------------------------------------------------------------

/// Whether a parameter was marked as consumed, or is no more.
pub open spec fn is_gone(v: Json) -> bool {
    v is Null || common::is_truthy(v.member("x-s2o-delete"@))
}

proof fn kept_are(a: Seq<Json>, i: nat)
    ensures
        forall|x: Json| #[trigger]
            operation::params_kept(a, i).contains(x) <==> !is_gone(x) && exists|k: int|
                i <= k < a.len() && #[trigger] a[k] == x,
    decreases a.len() - i,
{
    if i < a.len() {
        kept_are(a, i + 1);
        let rest = operation::params_kept(a, i + 1);
        let all = operation::params_kept(a, i);
        assert forall|x: Json| #[trigger] all.contains(x) <==> !is_gone(x) && exists|k: int|
            i <= k < a.len() && #[trigger] a[k] == x by {
            assert(rest.contains(x) <==> !is_gone(x) && exists|k: int|
                i + 1 <= k < a.len() && #[trigger] a[k] == x);
            if operation::param_stays(a[i as int]) {
                assert(all == seq![a[i as int]] + rest);
                if all.contains(x) {
                    let k = choose|k: int| 0 <= k < all.len() && all[k] == x;
                    if k > 0 {
                        assert(rest[k - 1] == x);
                        assert(rest.contains(x));
                    }
                }
                if rest.contains(x) {
                    let k = choose|k: int| 0 <= k < rest.len() && rest[k] == x;
                    assert(all[k + 1] == x);
                }
                assert(all[0] == a[i as int]);
            }
            if exists|k: int| i <= k < a.len() && #[trigger] a[k] == x {
                let k = choose|k: int| i <= k < a.len() && #[trigger] a[k] == x;
                assert(k == i || i + 1 <= k);
            }
        }
    }
}

/// An operation loses the parameters that were consumed, and keeps the others. With
/// `debug` all stay.
pub proof fn consumed_parameters_leave_operation(op: Json, a: Seq<Json>, o: Settings)
    requires
        op.member("parameters"@) == Some(Json::Array(a)),
    ensures
        ({
            let r = operation::params_pruned(op, o);
            &&& o.debug ==> r == op
            &&& !o.debug ==> (r.member("parameters"@) matches Some(Json::Array(b)) && forall|
                x: Json,
            | #[trigger] b.contains(x) <==> !is_gone(x) && a.contains(x))
            &&& forall|key: Text|
                key != "parameters"@ ==> #[trigger] r.member(key) == op.member(key)
        }),
{
    broadcast use laws::group_members;

    if !o.debug {
        kept_are(a, 0);
        let b = operation::params_kept(a, 0);
        assert forall|x: Json| #[trigger] b.contains(x) <==> !is_gone(x) && a.contains(x) by {
            if a.contains(x) {
                let k = choose|k: int| 0 <= k < a.len() && a[k] == x;
                assert(a[k] == x);
            }
        }
    }
}

// --- responses -------------------------------------------------------------

/// Whether a value is a response of an operation, converted.
pub open spec fn is_converted_response(
    x: Option<Json>,
    response: Json,
    op: Json,
    openapi: Json,
) -> bool {
    exists|op1: Json, o: Settings|
        op1.member("produces"@) == op.member("produces"@) && x == Some(
            (#[trigger] response::response_processed(response, Some(op1), openapi, o)).0,
        ) && response::response_processed(response, Some(op1), openapi, o).2 is None
}

proof fn responses_are_converted(
    op: Json,
    names: Seq<Text>,
    i: nat,
    openapi: Json,
    o: Settings,
)
    requires
        op.member("responses"@) matches Some(x) && x is Object,
        names.no_duplicates(),
        operation::responses_from(op, names, i, openapi, o).2 is None,
    ensures
        ({
            let r = operation::responses_from(op, names, i, openapi, o).0;
            &&& r.member("responses"@) matches Some(x) && x is Object
            &&& forall|k: int|
                i <= k < names.len() && op.member2("responses"@, #[trigger] names[k]) is Some
                    ==> is_converted_response(
                    r.member2("responses"@, names[k]),
                    op.member2("responses"@, names[k])->0,
                    op,
                    openapi,
                )
            &&& forall|key: Text|
                (forall|k: int| i <= k < names.len() ==> key != #[trigger] names[k])
                    ==> #[trigger] r.member2("responses"@, key) == op.member2("responses"@, key)
            &&& forall|key: Text|
                key != "responses"@ ==> #[trigger] r.member(key) == op.member(key)
        }),
    decreases names.len() - i,
{
    broadcast use laws::group_members;

    operation_words();
    if i < names.len() {
        let name = names[i as int];
        let r = operation::responses_from(op, names, i, openapi, o).0;
        if let Some(v) = op.member2("responses"@, name) {
            let (x1, o1, e1) = response::response_processed(v, Some(op), openapi, o);
            let op1 = op.with("responses"@, op.member("responses"@)->0.with(name, x1));
            responses_are_converted(op1, names, i + 1, openapi, o1);
            assert(op1.member2("responses"@, name) == Some(x1));
            assert forall|key: Text| key != name implies #[trigger] op1.member2(
                "responses"@,
                key,
            ) == op.member2("responses"@, key) by {}
            assert forall|k: int|
                i <= k < names.len() && op.member2(
                    "responses"@,
                    #[trigger] names[k],
                ) is Some implies is_converted_response(
                r.member2("responses"@, names[k]),
                op.member2("responses"@, names[k])->0,
                op,
                openapi,
            ) by {
                if k == i {
                    assert(r.member2("responses"@, name) == Some(x1));
                } else {
                    assert(names[k] != names[i as int]);
                    assert(is_converted_response(
                        r.member2("responses"@, names[k]),
                        op1.member2("responses"@, names[k])->0,
                        op1,
                        openapi,
                    ));
                }
            }
            assert forall|key: Text|
                (forall|k: int|
                    i <= k < names.len() ==> key != #[trigger] names[k]) implies #[trigger] r.member2(
                "responses"@,
                key,
            ) == op.member2("responses"@, key) by {
                assert(key != names[i as int]);
            }
        } else {
            responses_are_converted(op, names, i + 1, openapi, o);
            assert forall|key: Text|
                (forall|k: int|
                    i <= k < names.len() ==> key != #[trigger] names[k]) implies #[trigger] r.member2(
                "responses"@,
                key,
            ) == op.member2("responses"@, key) by {}
        }
    }
}

/// Each response of an operation is converted where it stands. Nothing else of the
/// operation changes.
pub proof fn each_response_is_converted(
    path: Json,
    method: Text,
    openapi: Json,
    o: Settings,
    responses: Members,
)
    requires
        path.member2(method, "responses"@) == Some(Json::Object(responses)),
        json::distinct(responses),
        operation::op_responses_processed(path, method, openapi, o).2 is None,
    ensures
        ({
            let op = path.member(method)->0;
            let r = operation::op_responses_processed(path, method, openapi, o).0;
            &&& r.has(method)
            &&& forall|name: Text| #[trigger]
                json::has_key(responses, name) ==> is_converted_response(
                    r.member(method)->0.member2("responses"@, name),
                    json::lookup(responses, name)->0,
                    op,
                    openapi,
                )
            &&& forall|name: Text|
                !json::has_key(responses, name) ==> #[trigger] r.member(method)->0.member2(
                    "responses"@,
                    name,
                ) is None
            &&& forall|key: Text|
                key != "responses"@ ==> #[trigger] r.member(method)->0.member(key) == op.member(key)
            &&& forall|key: Text| key != method ==> #[trigger] r.member(key) == path.member(key)
        }),
{
    broadcast use laws::group_members;

    let op = path.member(method)->0;
    let names = json::keys(responses);
    keys_are_apart(responses);
    assert(operation::responses_supplied(op) == op);
    responses_are_converted(op, names, 0, openapi, o);
    let op2 = operation::responses_from(op, names, 0, openapi, o).0;
    let r = operation::op_responses_processed(path, method, openapi, o).0;
    assert(r == path.with(method, op2));
    assert forall|name: Text| #[trigger]
        json::has_key(responses, name) implies is_converted_response(
        r.member(method)->0.member2("responses"@, name),
        json::lookup(responses, name)->0,
        op,
        openapi,
    ) by {
        assert(names.contains(name));
        let k = choose|k: int| 0 <= k < names.len() && names[k] == name;
        assert(op.member2("responses"@, names[k]) is Some);
    }
    assert forall|name: Text|
        !json::has_key(responses, name) implies #[trigger] r.member(method)->0.member2(
        "responses"@,
        name,
    ) is None by {
        assert(op2.member2("responses"@, name) == op.member2("responses"@, name));
    }
}

/// An operation without responses gets a default one, with its description, before the
/// conversion of its responses.
pub proof fn missing_responses_are_supplied(op: Json)
    requires
        !op.has("responses"@),
    ensures
        ({
            let r = operation::responses_supplied(op);
            &&& json::member_of(r.member2("responses"@, "default"@), "description"@) == Some(
                Json::String("Default response"@),
            )
            &&& forall|key: Text|
                key != "default"@ ==> #[trigger] r.member2("responses"@, key) is None
            &&& forall|key: Text|
                key != "responses"@ ==> #[trigger] r.member(key) == op.member(key)
        }),
{
    broadcast use laws::group_members;

    operation_words();
}

} // verus!
