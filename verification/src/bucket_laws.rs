//! Laws of the components of a document.

use vstd::prelude::*;

use crate::common;
use crate::convert::body;
use crate::convert::components;
use crate::convert::parameter;
use crate::convert::security;
use crate::json::{self, Json, Members, Text};
use crate::laws;
use crate::operation_laws::{keys_are_apart, names_stay_apart};
use crate::options::Settings;
use crate::reference_laws::{bucket_at, bucket_of, component_at, component_of};

verus! {

// --- renaming --------------------------------------------------------------

/// Whether the names from position `i` on are in a bucket, under names that stay apart
/// when they are sanitised and are not taken.
spec fn ready(m: Members, names: Seq<Text>, i: nat) -> bool {
    &&& forall|k: int, q: int|
        i <= k < names.len() && i <= q < names.len() && k != q ==> common::sanitised(
            #[trigger] names[k],
        ) != common::sanitised(#[trigger] names[q]) && common::sanitised(names[k]) != names[q]
            && names[k] != names[q]
    &&& forall|k: int|
        i <= k < names.len() ==> json::has_key(m, #[trigger] names[k]) && (common::sanitised(
            names[k],
        ) == names[k] || !json::has_key(m, common::sanitised(names[k])))
}

/// Whether a name is none of those from position `i` on, sanitised or not.
spec fn is_elsewhere(key: Text, names: Seq<Text>, i: nat) -> bool {
    forall|k: int|
        i <= k < names.len() ==> key != #[trigger] names[k] && key != common::sanitised(names[k])
}

proof fn all_are_ready(m: Members)
    requires
        json::distinct(m),
        names_stay_apart(m),
    ensures
        ready(m, json::keys(m), 0),
        forall|key: Text| #[trigger] json::has_key(m, key) ==> json::keys(m).contains(key),
{
    let names = json::keys(m);
    keys_are_apart(m);
    assert forall|k: int| 0 <= k < names.len() implies json::has_key(m, #[trigger] names[k]) && (
    common::sanitised(names[k]) == names[k] || !json::has_key(m, common::sanitised(names[k]))) by {
        let s = common::sanitised(names[k]);
        assert(json::has_key(m, names[k]));
        if s != names[k] && json::has_key(m, s) {
            assert(common::sanitised(names[k]) != s);
        }
    }
    assert forall|k: int, q: int|
        0 <= k < names.len() && 0 <= q < names.len() && k != q implies common::sanitised(
        #[trigger] names[k],
    ) != common::sanitised(#[trigger] names[q]) && common::sanitised(names[k]) != names[q]
        && names[k] != names[q] by {
        assert(json::has_key(m, names[k]) && json::has_key(m, names[q]));
    }
}

proof fn renamed_in_bucket(
    openapi: Json,
    bucket: Text,
    names: Seq<Text>,
    i: nat,
    label: Text,
    o: Settings,
) -> (d: Json)
    requires
        bucket_of(openapi, bucket) matches Some(Json::Object(m)) && json::distinct(m) && ready(
            m,
            names,
            i,
        ),
        i < names.len(),
    ensures
        ({
            let from = names[i as int];
            let to = common::sanitised(from);
            let m = bucket_of(openapi, bucket)->0.members();
            let m1 = bucket_of(d, bucket)->0.members();
            &&& components::component_renamed(openapi, bucket, from, to, label, o) == (
                d,
                to,
                None::<Text>,
            )
            &&& bucket_of(d, bucket) == Some(Json::Object(m1))
            &&& json::distinct(m1)
            &&& json::lookup(m1, to) == json::lookup(m, from)
            &&& from != to ==> !json::has_key(m1, from)
            &&& forall|key: Text|
                key != from && key != to ==> #[trigger] json::lookup(m1, key) == json::lookup(
                    m,
                    key,
                )
            &&& forall|b: Text|
                b != bucket ==> #[trigger] bucket_of(d, b) == bucket_of(openapi, b)
            &&& forall|key: Text|
                key != "components"@ ==> #[trigger] d.member(key) == openapi.member(key)
        }),
{
    let from = names[i as int];
    let to = common::sanitised(from);
    let m = bucket_of(openapi, bucket)->0.members();
    let v = json::lookup(m, from)->0;
    let cut = json::remove(m, from);
    let m1 = json::insert(cut, to, v);
    bucket_at(openapi, bucket, Json::Object(m1));
    assert(json::has_key(m, from));
    if from == to {
        openapi
    } else {
        laws::remove_keeps_distinct(m, from);
        laws::insert_keeps_distinct(cut, to, v);
        laws::lookup_after_insert(cut, to, v);
        laws::lookup_insert_other(cut, to, v, from);
        laws::lookup_after_remove(m, from);
        assert forall|key: Text| key != from && key != to implies #[trigger] json::lookup(m1, key)
            == json::lookup(m, key) by {
            laws::lookup_insert_other(cut, to, v, key);
            laws::lookup_remove_other(m, from, key);
        }
        json::with_at(openapi, components::bucket_path(bucket), 0, Json::Object(m1))
    }
}

proof fn set_after_rename(m: Members, m1: Members, names: Seq<Text>, i: nat, x: Json)
    requires
        json::distinct(m1),
        ready(m, names, i),
        i < names.len(),
        forall|key: Text|
            key != names[i as int] && key != common::sanitised(names[i as int])
                ==> #[trigger] json::lookup(m1, key) == json::lookup(m, key),
    ensures
        ({
            let to = common::sanitised(names[i as int]);
            let m2 = json::insert(m1, to, x);
            &&& json::distinct(m2)
            &&& ready(m2, names, i + 1)
            &&& is_elsewhere(to, names, i + 1)
            &&& json::lookup(m2, to) == Some(x)
            &&& forall|k: int|
                i + 1 <= k < names.len() ==> json::lookup(m2, #[trigger] names[k]) == json::lookup(
                    m,
                    names[k],
                )
            &&& forall|key: Text|
                key != names[i as int] && key != to ==> #[trigger] json::lookup(m2, key)
                    == json::lookup(m, key)
        }),
{
    let to = common::sanitised(names[i as int]);
    let m2 = json::insert(m1, to, x);
    laws::insert_keeps_distinct(m1, to, x);
    laws::lookup_after_insert(m1, to, x);
    assert forall|key: Text|
        key != names[i as int] && key != to implies #[trigger] json::lookup(m2, key)
        == json::lookup(m, key) by {
        laws::lookup_insert_other(m1, to, x, key);
        assert(json::lookup(m1, key) == json::lookup(m, key));
    }
    assert forall|k: int| i + 1 <= k < names.len() implies json::lookup(m2, #[trigger] names[k])
        == json::lookup(m, names[k]) && json::has_key(m2, names[k]) && to != names[k] && to
        != common::sanitised(names[k]) && (common::sanitised(names[k]) == names[k]
        || !json::has_key(m2, common::sanitised(names[k]))) by {
        assert(names[k] != names[i as int]);
        assert(common::sanitised(names[k]) != names[i as int]);
        assert(common::sanitised(names[i as int]) != names[k]);
        let s = common::sanitised(names[k]);
        assert(json::lookup(m2, s) == json::lookup(m, s));
        assert(json::lookup(m2, names[k]) == json::lookup(m, names[k]));
    }
}

// --- security schemes --------------------------------------------------------

/// Whether a value is a security scheme, converted.
pub open spec fn is_converted_scheme(x: Option<Json>, scheme: Json) -> bool {
    exists|o: Settings| x == Some((#[trigger] security::scheme_fixed(scheme, o)).0)
}

proof fn schemes_are_converted(openapi: Json, names: Seq<Text>, i: nat, o: Settings)
    requires
        bucket_of(openapi, "securitySchemes"@) matches Some(Json::Object(m)) && json::distinct(m)
            && ready(m, names, i),
        components::schemes_from(openapi, names, i, o).2 is None,
    ensures
        ({
            let r = components::schemes_from(openapi, names, i, o).0;
            let m = bucket_of(openapi, "securitySchemes"@)->0.members();
            &&& forall|k: int|
                i <= k < names.len() ==> is_converted_scheme(
                    component_of(r, "securitySchemes"@, common::sanitised(#[trigger] names[k])),
                    json::lookup(m, names[k])->0,
                )
            &&& forall|key: Text|
                is_elsewhere(key, names, i) ==> #[trigger] component_of(r, "securitySchemes"@, key)
                    == json::lookup(m, key)
            &&& forall|b: Text|
                b != "securitySchemes"@ ==> #[trigger] bucket_of(r, b) == bucket_of(openapi, b)
            &&& forall|key: Text|
                key != "components"@ ==> #[trigger] r.member(key) == openapi.member(key)
        }),
    decreases names.len() - i,
{
    if i < names.len() {
        let m = bucket_of(openapi, "securitySchemes"@)->0.members();
        let from = names[i as int];
        let to = common::sanitised(from);
        let v = json::lookup(m, from)->0;
        let label = "Duplicate sanitised securityScheme name "@;
        let d1 = renamed_in_bucket(openapi, "securitySchemes"@, names, i, label, o);
        let m1 = bucket_of(d1, "securitySchemes"@)->0.members();
        component_at(d1, "securitySchemes"@, to, Json::Null);
        let (x, o2, e2) = security::scheme_fixed(v, o);
        assert(e2 is None);
        component_at(d1, "securitySchemes"@, to, x);
        let d2 = json::with_at(d1, components::component_path("securitySchemes"@, to), 0, x);
        let m2 = json::insert(m1, to, x);
        assert(bucket_of(d2, "securitySchemes"@) == Some(Json::Object(m2)));
        set_after_rename(m, m1, names, i, x);
        let r = components::schemes_from(openapi, names, i, o).0;
        assert(r == components::schemes_from(d2, names, i + 1, o2).0);
        schemes_are_converted(d2, names, i + 1, o2);
        assert forall|k: int| i <= k < names.len() implies is_converted_scheme(
            component_of(r, "securitySchemes"@, common::sanitised(#[trigger] names[k])),
            json::lookup(m, names[k])->0,
        ) by {
            if k == i {
                assert(is_elsewhere(to, names, i + 1));
                assert(component_of(r, "securitySchemes"@, to) == Some(x));
            } else {
                assert(json::lookup(m2, names[k]) == json::lookup(m, names[k]));
            }
        }
        assert forall|key: Text| is_elsewhere(key, names, i) implies #[trigger] component_of(
            r,
            "securitySchemes"@,
            key,
        ) == json::lookup(m, key) by {
            assert(key != names[i as int]);
            assert(is_elsewhere(key, names, i + 1));
        }
        assert forall|b: Text| b != "securitySchemes"@ implies #[trigger] bucket_of(r, b)
            == bucket_of(openapi, b) by {
            assert(bucket_of(d2, b) == bucket_of(d1, b));
        }
        assert forall|key: Text| key != "components"@ implies #[trigger] r.member(key)
            == openapi.member(key) by {
            assert(d2.member(key) == d1.member(key));
        }
    }
}

/// Each security scheme is converted and stands under its sanitised name. No other
/// bucket and no other member of the document changes.
pub proof fn each_scheme_is_converted(openapi: Json, o: Settings, name: Text)
    requires
        bucket_of(openapi, "securitySchemes"@) matches Some(Json::Object(m)) && json::distinct(m)
            && names_stay_apart(m) && json::has_key(m, name),
        components::security_schemes_processed(openapi, o).2 is None,
    ensures
        ({
            let r = components::security_schemes_processed(openapi, o).0;
            &&& is_converted_scheme(
                component_of(r, "securitySchemes"@, common::sanitised(name)),
                component_of(openapi, "securitySchemes"@, name)->0,
            )
            &&& forall|b: Text|
                b != "securitySchemes"@ ==> #[trigger] bucket_of(r, b) == bucket_of(openapi, b)
            &&& forall|key: Text|
                key != "components"@ ==> #[trigger] r.member(key) == openapi.member(key)
        }),
{
    let m = bucket_of(openapi, "securitySchemes"@)->0.members();
    bucket_at(openapi, "securitySchemes"@, Json::Null);
    let names = json::keys(m);
    all_are_ready(m);
    schemes_are_converted(openapi, names, 0, o);
    assert(names.contains(name));
    let k = choose|k: int| 0 <= k < names.len() && names[k] == name;
    assert(names[k] == name);
}

// --- parameters --------------------------------------------------------------

/// Whether a value is a parameter of this name, converted.
pub open spec fn is_converted_param(x: Option<Json>, param: Json, name: Text) -> bool {
    exists|d: Json, consumes: Seq<Text>, o: Settings|
        x == Some(
            (#[trigger] parameter::param_processed(param, None, name, d, consumes, o)).0,
        ) && parameter::param_processed(param, None, name, d, consumes, o).3 is None
}

proof fn params_are_converted(openapi: Json, names: Seq<Text>, i: nat, o: Settings)
    requires
        bucket_of(openapi, "parameters"@) matches Some(Json::Object(m)) && json::distinct(m)
            && ready(m, names, i),
        components::params_from(openapi, names, i, o).2 is None,
    ensures
        ({
            let r = components::params_from(openapi, names, i, o).0;
            let m = bucket_of(openapi, "parameters"@)->0.members();
            &&& forall|k: int|
                i <= k < names.len() ==> is_converted_param(
                    component_of(r, "parameters"@, common::sanitised(#[trigger] names[k])),
                    json::lookup(m, names[k])->0,
                    common::sanitised(names[k]),
                )
            &&& forall|key: Text|
                is_elsewhere(key, names, i) ==> #[trigger] component_of(r, "parameters"@, key)
                    == json::lookup(m, key)
            &&& forall|b: Text|
                b != "parameters"@ ==> #[trigger] bucket_of(r, b) == bucket_of(openapi, b)
            &&& forall|key: Text|
                key != "components"@ ==> #[trigger] r.member(key) == openapi.member(key)
        }),
    decreases names.len() - i,
{
    if i < names.len() {
        let m = bucket_of(openapi, "parameters"@)->0.members();
        let from = names[i as int];
        let to = common::sanitised(from);
        let v = json::lookup(m, from)->0;
        let label = "Duplicate sanitised parameter name "@;
        let d1 = renamed_in_bucket(openapi, "parameters"@, names, i, label, o);
        let m1 = bucket_of(d1, "parameters"@)->0.members();
        component_at(d1, "parameters"@, to, Json::Null);
        let types = body::media_types(None, d1, "consumes"@);
        let (x, _, o2, e2) = parameter::param_processed(v, None, to, d1, types, o);
        assert(e2 is None);
        component_at(d1, "parameters"@, to, x);
        let d2 = json::with_at(d1, components::component_path("parameters"@, to), 0, x);
        let m2 = json::insert(m1, to, x);
        assert(bucket_of(d2, "parameters"@) == Some(Json::Object(m2)));
        set_after_rename(m, m1, names, i, x);
        let r = components::params_from(openapi, names, i, o).0;
        assert(r == components::params_from(d2, names, i + 1, o2).0);
        params_are_converted(d2, names, i + 1, o2);
        assert forall|k: int| i <= k < names.len() implies is_converted_param(
            component_of(r, "parameters"@, common::sanitised(#[trigger] names[k])),
            json::lookup(m, names[k])->0,
                    common::sanitised(names[k]),
        ) by {
            if k == i {
                assert(is_elsewhere(to, names, i + 1));
                assert(component_of(r, "parameters"@, to) == Some(x));
            } else {
                assert(json::lookup(m2, names[k]) == json::lookup(m, names[k]));
            }
        }
        assert forall|key: Text| is_elsewhere(key, names, i) implies #[trigger] component_of(
            r,
            "parameters"@,
            key,
        ) == json::lookup(m, key) by {
            assert(key != names[i as int]);
            assert(is_elsewhere(key, names, i + 1));
        }
        assert forall|b: Text| b != "parameters"@ implies #[trigger] bucket_of(r, b) == bucket_of(
            openapi,
            b,
        ) by {
            assert(bucket_of(d2, b) == bucket_of(d1, b));
        }
        assert forall|key: Text| key != "components"@ implies #[trigger] r.member(key)
            == openapi.member(key) by {
            assert(d2.member(key) == d1.member(key));
        }
    }
}

/// Each parameter is converted and stands under its sanitised name. No other bucket and
/// no other member of the document changes.
pub proof fn each_parameter_is_converted(openapi: Json, o: Settings, name: Text)
    requires
        bucket_of(openapi, "parameters"@) matches Some(Json::Object(m)) && json::distinct(m)
            && names_stay_apart(m) && json::has_key(m, name),
        components::component_params_processed(openapi, o).2 is None,
    ensures
        ({
            let r = components::component_params_processed(openapi, o).0;
            &&& is_converted_param(
                component_of(r, "parameters"@, common::sanitised(name)),
                component_of(openapi, "parameters"@, name)->0,
                common::sanitised(name),
            )
            &&& forall|b: Text|
                b != "parameters"@ ==> #[trigger] bucket_of(r, b) == bucket_of(openapi, b)
            &&& forall|key: Text|
                key != "components"@ ==> #[trigger] r.member(key) == openapi.member(key)
        }),
{
    let m = bucket_of(openapi, "parameters"@)->0.members();
    bucket_at(openapi, "parameters"@, Json::Null);
    let names = json::keys(m);
    all_are_ready(m);
    params_are_converted(openapi, names, 0, o);
    assert(names.contains(name));
    let k = choose|k: int| 0 <= k < names.len() && names[k] == name;
    assert(names[k] == name);
}

// --- responses ---------------------------------------------------------------

/// Whether a value is a response, converted, with its headers.
pub open spec fn is_converted_response(x: Option<Json>, response: Json) -> bool {
    exists|d: Json, o: Settings|
        x == Some((#[trigger] components::component_response_processed(response, d, o)).0)
            && components::component_response_processed(response, d, o).2 is None
}

proof fn responses_are_converted(openapi: Json, names: Seq<Text>, i: nat, o: Settings)
    requires
        bucket_of(openapi, "responses"@) matches Some(Json::Object(m)) && json::distinct(m)
            && ready(m, names, i),
        components::responses_from(openapi, names, i, o).2 is None,
    ensures
        ({
            let r = components::responses_from(openapi, names, i, o).0;
            let m = bucket_of(openapi, "responses"@)->0.members();
            &&& forall|k: int|
                i <= k < names.len() ==> is_converted_response(
                    component_of(r, "responses"@, common::sanitised(#[trigger] names[k])),
                    json::lookup(m, names[k])->0,
                )
            &&& forall|key: Text|
                is_elsewhere(key, names, i) ==> #[trigger] component_of(r, "responses"@, key)
                    == json::lookup(m, key)
            &&& forall|b: Text|
                b != "responses"@ ==> #[trigger] bucket_of(r, b) == bucket_of(openapi, b)
            &&& forall|key: Text|
                key != "components"@ ==> #[trigger] r.member(key) == openapi.member(key)
        }),
    decreases names.len() - i,
{
    if i < names.len() {
        let m = bucket_of(openapi, "responses"@)->0.members();
        let from = names[i as int];
        let to = common::sanitised(from);
        let v = json::lookup(m, from)->0;
        let label = "Duplicate sanitised response name "@;
        let d1 = renamed_in_bucket(openapi, "responses"@, names, i, label, o);
        let m1 = bucket_of(d1, "responses"@)->0.members();
        component_at(d1, "responses"@, to, Json::Null);
        let (x, o2, e2) = components::component_response_processed(v, d1, o);
        assert(e2 is None);
        component_at(d1, "responses"@, to, x);
        let d2 = json::with_at(d1, components::component_path("responses"@, to), 0, x);
        let m2 = json::insert(m1, to, x);
        assert(bucket_of(d2, "responses"@) == Some(Json::Object(m2)));
        set_after_rename(m, m1, names, i, x);
        let r = components::responses_from(openapi, names, i, o).0;
        assert(r == components::responses_from(d2, names, i + 1, o2).0);
        responses_are_converted(d2, names, i + 1, o2);
        assert forall|k: int| i <= k < names.len() implies is_converted_response(
            component_of(r, "responses"@, common::sanitised(#[trigger] names[k])),
            json::lookup(m, names[k])->0,
        ) by {
            if k == i {
                assert(is_elsewhere(to, names, i + 1));
                assert(component_of(r, "responses"@, to) == Some(x));
            } else {
                assert(json::lookup(m2, names[k]) == json::lookup(m, names[k]));
            }
        }
        assert forall|key: Text| is_elsewhere(key, names, i) implies #[trigger] component_of(
            r,
            "responses"@,
            key,
        ) == json::lookup(m, key) by {
            assert(key != names[i as int]);
            assert(is_elsewhere(key, names, i + 1));
        }
        assert forall|b: Text| b != "responses"@ implies #[trigger] bucket_of(r, b) == bucket_of(
            openapi,
            b,
        ) by {
            assert(bucket_of(d2, b) == bucket_of(d1, b));
        }
        assert forall|key: Text| key != "components"@ implies #[trigger] r.member(key)
            == openapi.member(key) by {
            assert(d2.member(key) == d1.member(key));
        }
    }
}

/// Each response is converted and stands under its sanitised name. No other bucket and
/// no other member of the document changes.
pub proof fn each_response_is_converted(openapi: Json, o: Settings, name: Text)
    requires
        bucket_of(openapi, "responses"@) matches Some(Json::Object(m)) && json::distinct(m)
            && names_stay_apart(m) && json::has_key(m, name),
        components::component_responses_processed(openapi, o).2 is None,
    ensures
        ({
            let r = components::component_responses_processed(openapi, o).0;
            &&& is_converted_response(
                component_of(r, "responses"@, common::sanitised(name)),
                component_of(openapi, "responses"@, name)->0,
            )
            &&& forall|b: Text|
                b != "responses"@ ==> #[trigger] bucket_of(r, b) == bucket_of(openapi, b)
            &&& forall|key: Text|
                key != "components"@ ==> #[trigger] r.member(key) == openapi.member(key)
        }),
{
    let m = bucket_of(openapi, "responses"@)->0.members();
    bucket_at(openapi, "responses"@, Json::Null);
    let names = json::keys(m);
    all_are_ready(m);
    responses_are_converted(openapi, names, 0, o);
    assert(names.contains(name));
    let k = choose|k: int| 0 <= k < names.len() && names[k] == name;
    assert(names[k] == name);
}

} // verus!
