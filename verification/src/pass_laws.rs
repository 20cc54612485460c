//! Laws of the passes over path items and operations.

use vstd::prelude::*;

use crate::bucket_laws;
use crate::common;
use crate::convert::body;
use crate::convert::cache::Cached;
use crate::convert::components;
use crate::convert::examples;
use crate::convert::main_pass;
use crate::convert::operation;
use crate::convert::parameter;
use crate::convert::paths;
use crate::convert::refs;
use crate::convert::response;
use crate::convert::security;
use crate::json::{self, Json, Members, Text};
use crate::laws;
use crate::operation_laws::{
    self, keys_are_apart, names_stay_apart, path_extensions_take_their_places,
};
use crate::options::Settings;
use crate::output_laws;
use crate::reference_laws::{bucket_of, component_of};

verus! {

/// The words that these laws speak of differ.
proof fn pass_words()
    ensures
        "get"@.len() == 3 && "get"@[0] == 'g',
        "put"@.len() == 3 && "put"@[0] == 'p',
        "post"@.len() == 4 && "post"@[0] == 'p',
        "head"@.len() == 4 && "head"@[0] == 'h',
        "patch"@.len() == 5 && "patch"@[0] == 'p',
        "trace"@.len() == 5 && "trace"@[0] == 't',
        "delete"@.len() == 6,
        "schemes"@.len() == 7 && "schemes"@[3] == 'e',
        "example"@.len() == 7 && "example"@[3] == 'm',
        "headers"@.len() == 7 && "headers"@[3] == 'd',
        "content"@.len() == 7 && "content"@[3] == 't',
        "servers"@.len() == 7 && "servers"@[3] == 'v',
        "options"@.len() == 7 && "options"@[3] == 'i',
        "security"@.len() == 8 && "security"@[0] == 's',
        "consumes"@.len() == 8 && "consumes"@[0] == 'c',
        "produces"@.len() == 8 && "produces"@[0] == 'p',
        "examples"@.len() == 8 && "examples"@[0] == 'e',
        "responses"@.len() == 9 && "responses"@[0] == 'r',
        "x-servers"@.len() == 9 && "x-servers"@[0] == 'x',
        "parameters"@.len() == 10 && "parameters"@[0] == 'p',
        "x-s2o-name"@.len() == 10 && "x-s2o-name"@[0] == 'x',
        "components"@.len() == 10 && "components"@[0] == 'c',
        "requestBody"@.len() == 11,
        "x-ms-examples"@.len() == 13,
        "x-s2o-consumes"@.len() == 14 && "x-s2o-consumes"@[6] == 'c',
        "x-s2o-produces"@.len() == 14 && "x-s2o-produces"@[6] == 'p',
        "x-amazon-apigateway-any-method"@.len() == 30,
{
    reveal_strlit("get");
    reveal_strlit("put");
    reveal_strlit("post");
    reveal_strlit("head");
    reveal_strlit("patch");
    reveal_strlit("trace");
    reveal_strlit("delete");
    reveal_strlit("schemes");
    reveal_strlit("example");
    reveal_strlit("headers");
    reveal_strlit("content");
    reveal_strlit("servers");
    reveal_strlit("options");
    reveal_strlit("security");
    reveal_strlit("consumes");
    reveal_strlit("produces");
    reveal_strlit("examples");
    reveal_strlit("responses");
    reveal_strlit("x-servers");
    reveal_strlit("parameters");
    reveal_strlit("x-s2o-name");
    reveal_strlit("components");
    reveal_strlit("requestBody");
    reveal_strlit("x-ms-examples");
    reveal_strlit("x-s2o-consumes");
    reveal_strlit("x-s2o-produces");
    reveal_strlit("x-amazon-apigateway-any-method");
}

// --- methods ---------------------------------------------------------------

/// The names that operations of a path item have.
pub open spec fn is_operation_name(name: Text) -> bool {
    ||| name == "get"@
    ||| name == "post"@
    ||| name == "put"@
    ||| name == "delete"@
    ||| name == "patch"@
    ||| name == "head"@
    ||| name == "options"@
    ||| name == "trace"@
    ||| name == "x-amazon-apigateway-any-method"@
}

/// The operations of a path item are the members under these names, and no others.
pub proof fn operations_are_named(name: Text)
    ensures
        paths::is_method(name) == is_operation_name(name),
        is_operation_name(name) ==> name != "parameters"@,
{
    pass_words();
    let ws = common::words(common::HTTP_METHODS@);
    assert(ws =~= seq![
        "get"@,
        "post"@,
        "put"@,
        "delete"@,
        "patch"@,
        "head"@,
        "options"@,
        "trace"@,
    ]);
    assert(ws[0] == "get"@);
    assert(ws[1] == "post"@);
    assert(ws[2] == "put"@);
    assert(ws[3] == "delete"@);
    assert(ws[4] == "patch"@);
    assert(ws[5] == "head"@);
    assert(ws[6] == "options"@);
    assert(ws[7] == "trace"@);
    if ws.contains(name) {
        let k = choose|k: int| 0 <= k < ws.len() && ws[k] == name;
        assert(ws[k] == name);
    }
}

// --- one operation ---------------------------------------------------------

/// Whether one path item is the other but for an operation and the parameters.
spec fn beside(x: Json, path: Json, method: Text) -> bool {
    &&& path is Object && json::distinct(path.members()) ==> x is Object && json::distinct(
        x.members(),
    )
    &&& json::distinct(path.members()) ==> forall|key: Text|
        key != method && key != "parameters"@ ==> #[trigger] x.member(key) == path.member(key)
}

proof fn merging_stays_beside(
    path: Json,
    params: Seq<Json>,
    i: nat,
    p: Text,
    method: Text,
    openapi: Json,
    o: Settings,
)
    ensures
        beside(
            operation::path_params_merged(path, params, i, p, method, openapi, o).0,
            path,
            method,
        ),
    decreases params.len() - i,
{
    broadcast use laws::group_members;

    if i < params.len() {
        let (path1, o1, e1) = operation::path_param_merged(
            path,
            params[i as int],
            p,
            method,
            openapi,
            o,
        );
        assert(beside(path1, path, method));
        if e1 is None {
            merging_stays_beside(path1, params, i + 1, p, method, openapi, o1);
        }
    }
}

proof fn parameters_stay_beside(
    path: Json,
    i: nat,
    n: nat,
    index: Text,
    method: Text,
    openapi: Json,
    o: Settings,
)
    ensures
        beside(
            operation::op_params_processed(path, i, n, index, method, openapi, o).0,
            path,
            method,
        ),
    decreases n - i,
{
    broadcast use laws::group_members;

    if i < n {
        let (path1, o1, e1) = operation::op_param_processed(path, i, index, method, openapi, o);
        assert(beside(path1, path, method));
        if e1 is None {
            parameters_stay_beside(path1, i + 1, n, index, method, openapi, o1);
        }
    }
}

proof fn finalizing_stays_beside(
    path: Json,
    p: Text,
    method: Text,
    container: Text,
    openapi: Json,
    c: Seq<Cached>,
    o: Settings,
)
    ensures
        beside(
            operation::op_finalized(path, p, method, container, openapi, c, o).0,
            path,
            method,
        ),
{
    broadcast use laws::group_members;

    if let Some(op) = path.member(method) {
        let path0 = path.with(method, operation::media_types_dropped(op, o));
        assert(beside(path0, path, method));
        let (path1, d1) = examples::ms_examples_converted(path0, method, openapi);
        assert(path0.dropped("parameters"@) == path0.without("parameters"@));
        assert(beside(path1, path0, method));
    }
}

/// The conversion of an operation leaves the other members of the path item as they are,
/// but for its parameters, which may get examples.
pub proof fn operation_leaves_others(
    path: Json,
    p: Text,
    method: Text,
    container: Text,
    openapi: Json,
    c: Seq<Cached>,
    o: Settings,
)
    requires
        path is Object,
        json::distinct(path.members()),
    ensures
        ({
            let x = operation::op_processed(path, p, method, container, openapi, c, o).0;
            &&& x is Object && json::distinct(x.members())
            &&& forall|key: Text|
                key != method && key != "parameters"@ ==> #[trigger] x.member(key) == path.member(
                    key,
                )
        }),
{
    broadcast use laws::group_members;

    let params = body::elements_of(path.member("parameters"@));
    let (path1, o1, e1) = operation::path_params_merged(path, params, 0, p, method, openapi, o);
    merging_stays_beside(path, params, 0, p, method, openapi, o);
    if e1 is None {
        let n = body::elements_of(path1.member2(method, "parameters"@)).len();
        let index = method + ":"@ + p;
        let (path2, o2, e2) = operation::op_params_processed(
            path1,
            0,
            n,
            index,
            method,
            openapi,
            o1,
        );
        parameters_stay_beside(path1, 0, n, index, method, openapi, o1);
        if e2 is None {
            let path2a = operation::op_tidied(path2, method, o2);
            assert(beside(path2a, path2, method));
            let (path3, o3, e3) = operation::op_responses_processed(path2a, method, openapi, o2);
            assert(beside(path3, path2a, method));
            if e3 is None {
                let path3a = operation::path_servers_converted(path3, method, openapi);
                assert(beside(path3a, path3, method));
                finalizing_stays_beside(path3a, p, method, container, openapi, c, o3);
            }
        }
    }
}

/// The security of an operation is tidied: its requirements name schemes under their
/// sanitised names. Nothing else changes but the parameters and an empty body name.
pub proof fn operation_security_is_tidied(path: Json, method: Text, o: Settings, s: Json)
    requires
        path.member2(method, "security"@) == Some(s),
        json::distinct(path.member(method)->0.members()),
        o.rbname != "security"@,
    ensures
        ({
            let r = operation::op_tidied(path, method, o);
            &&& r.member2(method, "security"@) == Some(security::security_fixed(s))
            &&& forall|key: Text|
                key != "security"@ && key != "parameters"@ && key != o.rbname
                    ==> #[trigger] r.member2(method, key) == path.member2(method, key)
        }),
{
    broadcast use laws::group_members;

    pass_words();
}

// --- the end of an operation -----------------------------------------------

/// The members that the examples of an operation may change.
spec fn takes_examples(key: Text) -> bool {
    key == "parameters"@ || key == "responses"@
}

/// Whether one operation is the other but for the members that take examples.
spec fn but_for_examples(x: Json, op: Json) -> bool {
    &&& json::distinct(op.members()) ==> json::distinct(x.members())
    &&& forall|key: Text| !takes_examples(key) ==> #[trigger] x.member(key) == op.member(key)
}

proof fn parameter_examples_change(
    op: Json,
    path_params: Json,
    name: Text,
    params: Members,
    i: nat,
    openapi: Json,
)
    ensures
        but_for_examples(
            examples::param_examples_from(op, path_params, name, params, i, openapi).0,
            op,
        ),
    decreases params.len() - i,
{
    broadcast use laws::group_members;

    if i < params.len() {
        let (pname, v) = params[i as int];
        let op1 = match op.member("parameters"@) {
            Some(Json::Array(a)) => op.with(
                "parameters"@,
                examples::params_example_set(Json::Array(a), pname, name, v, openapi),
            ),
            _ => op,
        };
        let p1 = examples::params_example_set(path_params, pname, name, v, openapi);
        parameter_examples_change(op1, p1, name, params, i + 1, openapi);
    }
}

proof fn write_in_responses(op: Json, at: Seq<Text>, v: Json)
    requires
        at.len() > 0,
        at[0] == "responses"@,
    ensures
        but_for_examples(json::with_at(op, at, 0, v), op),
{
    broadcast use laws::group_members;

}

proof fn header_examples_change(op: Json, r: Text, headers: Members, i: nat)
    ensures
        but_for_examples(examples::header_examples_from(op, r, headers, i), op),
    decreases headers.len() - i,
{
    if i < headers.len() {
        let (h, v) = headers[i as int];
        let at = seq!["responses"@, r, "headers"@, h];
        let op1 = match json::value_at(op, at, 0) {
            Some(header) => json::with_at(op, at, 0, header.with("example"@, v)),
            None => op,
        };
        if let Some(header) = json::value_at(op, at, 0) {
            write_in_responses(op, at, header.with("example"@, v));
        }
        header_examples_change(op1, r, headers, i + 1);
    }
}

proof fn content_examples_change(
    op: Json,
    r: Text,
    types: Seq<Text>,
    i: nat,
    name: Text,
    v: Json,
)
    ensures
        but_for_examples(examples::content_examples_from(op, r, types, i, name, v), op),
    decreases types.len() - i,
{
    if i < types.len() {
        let at = seq!["responses"@, r, "content"@, types[i as int]];
        let op1 = match json::value_at(op, at, 0) {
            Some(ct) => json::with_at(op, at, 0, examples::example_set(ct, name, v)),
            None => op,
        };
        if let Some(ct) = json::value_at(op, at, 0) {
            write_in_responses(op, at, examples::example_set(ct, name, v));
        }
        content_examples_change(op1, r, types, i + 1, name, v);
    }
}

proof fn response_examples_change(
    op: Json,
    name: Text,
    se: Text,
    responses: Members,
    i: nat,
    openapi: Json,
)
    ensures
        but_for_examples(
            examples::response_examples_from(op, name, se, responses, i, openapi).0,
            op,
        ),
    decreases responses.len() - i,
{
    if i < responses.len() {
        let (r, resp) = responses[i as int];
        let headers = examples::members_of(resp.member("headers"@));
        let op1 = examples::header_examples_from(op, r, headers, 0);
        header_examples_change(op, r, headers, 0);
        let (op2, d2) = examples::body_example(op1, name, se, r, resp, openapi);
        if let Some(body) = resp.member("body"@) {
            let types = json::keys(
                examples::members_of(json::value_at(op1, seq!["responses"@, r, "content"@], 0)),
            );
            let v = Json::single("$ref"@, Json::String("#/components/examples/"@ + se));
            content_examples_change(op1, r, types, 0, name, v);
        }
        response_examples_change(op2, name, se, responses, i + 1, d2);
    }
}

proof fn examples_change(op: Json, path_params: Json, all: Members, i: nat, openapi: Json)
    ensures
        but_for_examples(examples::ms_examples_from(op, path_params, all, i, openapi).0, op),
    decreases all.len() - i,
{
    if i < all.len() {
        let (name, example) = all[i as int];
        let params = examples::members_of(example.member("parameters"@));
        let responses = examples::members_of(example.member("responses"@));
        let (op1, p1) = examples::param_examples_from(op, path_params, name, params, 0, openapi);
        parameter_examples_change(op, path_params, name, params, 0, openapi);
        let se = common::sanitised_all(name);
        let (op2, d2) = examples::response_examples_from(op1, name, se, responses, 0, openapi);
        response_examples_change(op1, name, se, responses, 0, openapi);
        examples_change(op2, p1, all, i + 1, d2);
    }
}

/// The members that the end of the conversion of an operation is about.
pub open spec fn is_final_word(key: Text) -> bool {
    ||| key == "parameters"@ || key == "responses"@ || key == "requestBody"@
    ||| key == "consumes"@ || key == "produces"@ || key == "schemes"@
    ||| key == "x-s2o-consumes"@ || key == "x-s2o-produces"@ || key == "x-ms-examples"@
}

/// At the end of its conversion an operation has no media types and no schemes, no list
/// of named examples, and no empty list of parameters. Its request body has lost the
/// name that it was given on the way. Its other members stay.
pub proof fn operation_is_finalized(
    path: Json,
    p: Text,
    method: Text,
    container: Text,
    openapi: Json,
    c: Seq<Cached>,
    o: Settings,
    op: Json,
)
    requires
        path is Object && json::distinct(path.members()),
        path.member(method) == Some(op),
        op is Object && json::distinct(op.members()),
        method != "parameters"@,
    ensures
        ({
            let r = operation::op_finalized(path, p, method, container, openapi, c, o).0;
            let x = r.member(method)->0;
            &&& r.has(method)
            &&& !x.has("consumes"@) && !x.has("produces"@) && !x.has("schemes"@)
            &&& op.member("x-ms-examples"@) matches Some(Json::Object(_)) ==> !x.has(
                "x-ms-examples"@,
            )
            &&& !(x.member("parameters"@) matches Some(Json::Array(a)) && a.len() == 0)
            &&& op.member("requestBody"@) matches Some(b) ==> x.member("requestBody"@) == Some(
                b.without("x-s2o-name"@),
            )
            &&& !op.has("requestBody"@) ==> !x.has("requestBody"@)
            &&& forall|key: Text|
                !is_final_word(key) ==> #[trigger] x.member(key) == op.member(key)
        }),
{
    broadcast use laws::group_members;

    pass_words();
    let op0 = operation::media_types_dropped(op, o);
    let path0 = path.with(method, op0);
    assert(path0.member(method) == Some(op0));
    let (path1, d1) = examples::ms_examples_converted(path0, method, openapi);
    assert(op0.member("x-ms-examples"@) == op.member("x-ms-examples"@));
    assert(op0.member("requestBody"@) == op.member("requestBody"@));
    let op1 = path1.member(method)->0;
    if let Some(Json::Object(all)) = op.member("x-ms-examples"@) {
        let params = json::value_or(path0.member("parameters"@), Json::Null);
        let path2 = path0.dropped("parameters"@);
        assert(path2 == path0.without("parameters"@));
        assert(path2.member(method) == Some(op0));
        examples_change(op0, params, all, 0, openapi);
        let op2 = examples::ms_examples_from(op0, params, all, 0, openapi).0;
        assert(op1 == op2.without("x-ms-examples"@));
        assert(path1.has(method));
        assert(!op2.has("consumes"@) && !op2.has("produces"@) && !op2.has("schemes"@));
        assert(op2.member("requestBody"@) == op0.member("requestBody"@));
    } else {
        assert(path1 == path0);
    }
    assert(json::distinct(op1.members()));
    assert(op1.member("requestBody"@) == op.member("requestBody"@));
    let op3 = operation::empty_params_dropped(op1);
    assert(op3.member("requestBody"@) == op.member("requestBody"@));
    let op4 = operation::op_body_seen(op3, p, method, container, c).0;
    assert(operation::op_finalized(path, p, method, container, openapi, c, o).0 == path1.with(
        method,
        op4,
    ));
}

// --- the whole of an operation ---------------------------------------------

proof fn copies_agree(a: Json, b: Json, list: Seq<Json>, i: nat, scheme: Json)
    requires
        a.member("servers"@) == b.member("servers"@),
    ensures
        operation::servers_from(a, list, i, scheme).member("servers"@) == operation::servers_from(
            b,
            list,
            i,
            scheme,
        ).member("servers"@),
    decreases list.len() - i,
{
    broadcast use laws::group_members;

    if i < list.len() {
        let x = operation::server_with_scheme(list[i as int], scheme);
        copies_agree(
            operation::server_appended(a, x),
            operation::server_appended(b, x),
            list,
            i + 1,
            scheme,
        );
    }
}

proof fn schemes_agree(a: Json, b: Json, schemes: Seq<Json>, i: nat, openapi: Json)
    requires
        a.member("servers"@) == b.member("servers"@),
    ensures
        operation::schemes_from(a, schemes, i, openapi).member("servers"@)
            == operation::schemes_from(b, schemes, i, openapi).member("servers"@),
    decreases schemes.len() - i,
{
    broadcast use laws::group_members;

    if i < schemes.len() {
        let scheme = schemes[i as int];
        let known = body::elements_of(openapi.member("schemes"@));
        let list = body::elements_of(openapi.member("servers"@));
        if operation::holds_from(known, 0, scheme) {
            schemes_agree(a, b, schemes, i + 1, openapi);
        } else {
            let none = Json::Array(Seq::empty());
            let a0 = a.with_new("servers"@, none);
            let b0 = b.with_new("servers"@, none);
            copies_agree(a0, b0, list, 0, scheme);
            schemes_agree(
                operation::servers_from(a0, list, 0, scheme),
                operation::servers_from(b0, list, 0, scheme),
                schemes,
                i + 1,
                openapi,
            );
        }
    }
}

/// The path item and the settings after the parameters of an operation.
pub open spec fn after_parameters(
    path: Json,
    p: Text,
    method: Text,
    openapi: Json,
    o: Settings,
) -> (Json, Settings) {
    let (path1, o1, e1) = operation::path_params_merged(
        path,
        body::elements_of(path.member("parameters"@)),
        0,
        p,
        method,
        openapi,
        o,
    );
    let n = body::elements_of(path1.member2(method, "parameters"@)).len();
    let (path2, o2, e2) = operation::op_params_processed(
        path1,
        0,
        n,
        method + ":"@ + p,
        method,
        openapi,
        o1,
    );
    (path2, o2)
}

/// The members that the conversion of an operation derives or reads.
pub open spec fn is_read(key: Text) -> bool {
    ||| is_final_word(key) || key == "servers"@ || key == "x-servers"@ || key == "security"@
}

/// What an operation becomes once its parameters have been converted: it has servers for
/// its schemes, its requirements name schemes under their sanitised names, each of its
/// responses is converted, and its media types and schemes are gone.
#[verifier::rlimit(40)]
pub proof fn operation_is_converted_in_full(
    path: Json,
    p: Text,
    method: Text,
    container: Text,
    openapi: Json,
    c: Seq<Cached>,
    o: Settings,
    op: Json,
    responses: Members,
)
    requires
        path is Object && json::distinct(path.members()),
        method != "parameters"@,
        operation::op_processed(path, p, method, container, openapi, c, o).4 is None,
        after_parameters(path, p, method, openapi, o).0.member(method) == Some(op),
        op is Object && json::distinct(op.members()),
        op.member("responses"@) == Some(Json::Object(responses)),
        json::distinct(responses),
        !(op.member("x-ms-examples"@) matches Some(Json::Object(_))),
        !is_read(after_parameters(path, p, method, openapi, o).1.rbname),
    ensures
        ({
            let r = operation::op_processed(path, p, method, container, openapi, c, o).0;
            let x = r.member(method)->0;
            &&& r.has(method)
            &&& x.member("servers"@) == operation::op_servers_converted(op, openapi).member(
                "servers"@,
            )
            &&& op.member("security"@) matches Some(s) ==> x.member("security"@) == Some(
                security::security_fixed(s),
            )
            &&& forall|name: Text| #[trigger]
                json::has_key(responses, name) ==> operation_laws::is_converted_response(
                    x.member2("responses"@, name),
                    json::lookup(responses, name)->0,
                    op,
                    openapi,
                )
            &&& !x.has("consumes"@) && !x.has("produces"@) && !x.has("schemes"@)
            &&& op.member("requestBody"@) matches Some(b) ==> x.member("requestBody"@) == Some(
                b.without("x-s2o-name"@),
            )
        }),
{
    broadcast use laws::group_members;

    pass_words();
    let params = body::elements_of(path.member("parameters"@));
    let (path1, o1, e1) = operation::path_params_merged(path, params, 0, p, method, openapi, o);
    merging_stays_beside(path, params, 0, p, method, openapi, o);
    let n = body::elements_of(path1.member2(method, "parameters"@)).len();
    let index = method + ":"@ + p;
    let (path2, o2, e2) = operation::op_params_processed(path1, 0, n, index, method, openapi, o1);
    parameters_stay_beside(path1, 0, n, index, method, openapi, o1);
    assert(after_parameters(path, p, method, openapi, o) == (path2, o2));
    let path3 = operation::op_tidied(path2, method, o2);
    let op3 = path3.member(method)->0;
    tidied_operation(path2, method, o2, op);
    let (path4, o4, e4) = operation::op_responses_processed(path3, method, openapi, o2);
    operation_laws::each_response_is_converted(path3, method, openapi, o2, responses);
    let op4 = path4.member(method)->0;
    assert(path4 is Object && json::distinct(path4.members()));
    responses_leave_distinct(path3, method, openapi, o2);
    let path5 = operation::path_servers_converted(path4, method, openapi);
    let op5 = operation::op_servers_converted(op4, openapi);
    assert(path5 == path4.with(method, op5));
    servers_of_operation(op4, op, openapi);
    servers_leave(op4, openapi);
    operation_is_finalized(path5, p, method, container, openapi, c, o4, op5);
    let r = operation::op_processed(path, p, method, container, openapi, c, o).0;
    assert(r == operation::op_finalized(path5, p, method, container, openapi, c, o4).0);
    let x = r.member(method)->0;
    plain_examples_stay(path5, p, method, container, openapi, c, o4, op5);
    assert(x.member("responses"@) == op4.member("responses"@));
    assert forall|name: Text| #[trigger]
        json::has_key(responses, name) implies operation_laws::is_converted_response(
        x.member2("responses"@, name),
        json::lookup(responses, name)->0,
        op,
        openapi,
    ) by {
        assert(operation_laws::is_converted_response(
            op4.member2("responses"@, name),
            json::lookup(responses, name)->0,
            op3,
            openapi,
        ));
    }
}

proof fn tidied_operation(path: Json, method: Text, o: Settings, op: Json)
    requires
        path is Object && json::distinct(path.members()),
        path.member(method) == Some(op),
        op is Object && json::distinct(op.members()),
        !is_read(o.rbname),
    ensures
        ({
            let r = operation::op_tidied(path, method, o);
            let x = r.member(method)->0;
            &&& r is Object && json::distinct(r.members()) && r.has(method)
            &&& x is Object && json::distinct(x.members())
            &&& op.member("security"@) matches Some(s) ==> x.member("security"@) == Some(
                security::security_fixed(s),
            )
            &&& forall|key: Text|
                is_read(key) && key != "security"@ && key != "parameters"@
                    ==> #[trigger] x.member(key) == op.member(key)
        }),
{
    broadcast use laws::group_members;

    pass_words();
}

proof fn servers_of_operation(a: Json, b: Json, openapi: Json)
    requires
        json::distinct(a.members()) && json::distinct(b.members()),
        a.member("servers"@) == b.member("servers"@),
        a.member("x-servers"@) == b.member("x-servers"@),
        a.member("schemes"@) == b.member("schemes"@),
    ensures
        operation::op_servers_converted(a, openapi).member("servers"@)
            == operation::op_servers_converted(b, openapi).member("servers"@),
{
    broadcast use laws::group_members;

    schemes_agree(a, b, body::elements_of(a.member("schemes"@)), 0, openapi);
}

proof fn copies_leave(op: Json, list: Seq<Json>, i: nat, scheme: Json)
    requires
        op is Object && json::distinct(op.members()),
    ensures
        ({
            let r = operation::servers_from(op, list, i, scheme);
            &&& r is Object && json::distinct(r.members())
            &&& forall|key: Text| key != "servers"@ ==> #[trigger] r.member(key) == op.member(key)
        }),
    decreases list.len() - i,
{
    broadcast use laws::group_members;

    if i < list.len() {
        let x = operation::server_with_scheme(list[i as int], scheme);
        copies_leave(operation::server_appended(op, x), list, i + 1, scheme);
    }
}

proof fn schemes_leave(op: Json, schemes: Seq<Json>, i: nat, openapi: Json)
    requires
        op is Object && json::distinct(op.members()),
    ensures
        ({
            let r = operation::schemes_from(op, schemes, i, openapi);
            &&& r is Object && json::distinct(r.members())
            &&& forall|key: Text| key != "servers"@ ==> #[trigger] r.member(key) == op.member(key)
        }),
    decreases schemes.len() - i,
{
    broadcast use laws::group_members;

    if i < schemes.len() {
        let scheme = schemes[i as int];
        let known = body::elements_of(openapi.member("schemes"@));
        let list = body::elements_of(openapi.member("servers"@));
        if operation::holds_from(known, 0, scheme) {
            schemes_leave(op, schemes, i + 1, openapi);
        } else {
            let op0 = op.with_new("servers"@, Json::Array(Seq::empty()));
            copies_leave(op0, list, 0, scheme);
            schemes_leave(
                operation::servers_from(op0, list, 0, scheme),
                schemes,
                i + 1,
                openapi,
            );
        }
    }
}

proof fn servers_leave(op: Json, openapi: Json)
    requires
        op is Object && json::distinct(op.members()),
    ensures
        ({
            let r = operation::op_servers_converted(op, openapi);
            &&& r is Object && json::distinct(r.members())
            &&& forall|key: Text|
                key != "servers"@ && key != "x-servers"@ ==> #[trigger] r.member(key) == op.member(
                    key,
                )
        }),
{
    broadcast use laws::group_members;

    schemes_leave(op, body::elements_of(op.member("schemes"@)), 0, openapi);
}

proof fn responses_keep_distinct(
    op: Json,
    names: Seq<Text>,
    i: nat,
    openapi: Json,
    o: Settings,
)
    requires
        op is Object && json::distinct(op.members()),
    ensures
        ({
            let r = operation::responses_from(op, names, i, openapi, o).0;
            r is Object && json::distinct(r.members())
        }),
    decreases names.len() - i,
{
    broadcast use laws::group_members;

    if i < names.len() {
        let name = names[i as int];
        match op.member2("responses"@, name) {
            Some(v) => {
                let (x1, o1, e1) = response::response_processed(v, Some(op), openapi, o);
                let op1 = op.with("responses"@, op.member("responses"@)->0.with(name, x1));
                if e1 is None {
                    responses_keep_distinct(op1, names, i + 1, openapi, o1);
                }
            },
            None => {
                responses_keep_distinct(op, names, i + 1, openapi, o);
            },
        }
    }
}

proof fn responses_leave_distinct(path: Json, method: Text, openapi: Json, o: Settings)
    requires
        path is Object && json::distinct(path.members()),
        path.member(method) matches Some(op) && op is Object && json::distinct(op.members())
            && op.has("responses"@),
        operation::op_responses_processed(path, method, openapi, o).2 is None,
    ensures
        ({
            let r = operation::op_responses_processed(path, method, openapi, o).0;
            &&& r is Object && json::distinct(r.members())
            &&& r.member(method) matches Some(x) && x is Object && json::distinct(x.members())
        }),
{
    broadcast use laws::group_members;

    let op = path.member(method)->0;
    let names = json::keys(examples::members_of(op.member("responses"@)));
    responses_keep_distinct(op, names, 0, openapi, o);
}

proof fn plain_examples_stay(
    path: Json,
    p: Text,
    method: Text,
    container: Text,
    openapi: Json,
    c: Seq<Cached>,
    o: Settings,
    op: Json,
)
    requires
        path is Object && json::distinct(path.members()),
        path.member(method) == Some(op),
        op is Object && json::distinct(op.members()),
        !(op.member("x-ms-examples"@) matches Some(Json::Object(_))),
    ensures
        operation::op_finalized(path, p, method, container, openapi, c, o).0.member2(
            method,
            "responses"@,
        ) == op.member("responses"@),
{
    broadcast use laws::group_members;

    pass_words();
    let op0 = operation::media_types_dropped(op, o);
    let path0 = path.with(method, op0);
    assert(path0.member(method) == Some(op0));
    assert(op0.member("x-ms-examples"@) == op.member("x-ms-examples"@));
    assert(examples::ms_examples_converted(path0, method, openapi) == (path0, openapi));
    let op3 = operation::empty_params_dropped(op0);
    assert(op3.member("responses"@) == op.member("responses"@));
}

// --- the operations of a path item -----------------------------------------

/// Whether a value is an operation, converted.
pub open spec fn is_converted_operation(
    x: Option<Json>,
    op: Json,
    p: Text,
    method: Text,
    container: Text,
) -> bool {
    exists|path: Json, d: Json, c: Seq<Cached>, o: Settings|
        path.member(method) == Some(op) && x == (#[trigger] operation::op_processed(
            path,
            p,
            method,
            container,
            d,
            c,
            o,
        )).0.member(method) && operation::op_processed(
            path,
            p,
            method,
            container,
            d,
            c,
            o,
        ).4 is None
}

proof fn methods_are_converted(
    path: Json,
    names: Seq<Text>,
    i: nat,
    p: Text,
    container: Text,
    openapi: Json,
    c: Seq<Cached>,
    o: Settings,
)
    requires
        path is Object && json::distinct(path.members()),
        names.no_duplicates(),
        paths::methods_from(path, names, i, p, container, openapi, c, o).4 is None,
    ensures
        ({
            let r = paths::methods_from(path, names, i, p, container, openapi, c, o).0;
            &&& r is Object && json::distinct(r.members())
            &&& forall|k: int|
                i <= k < names.len() && is_operation_name(#[trigger] names[k]) && path.has(names[k])
                    ==> is_converted_operation(
                    r.member(names[k]),
                    path.member(names[k])->0,
                    p,
                    names[k],
                    container,
                )
            &&& forall|key: Text|
                key != "parameters"@ && (is_operation_name(key) ==> forall|k: int|
                    i <= k < names.len() ==> key != #[trigger] names[k]) ==> #[trigger] r.member(
                    key,
                ) == path.member(key)
        }),
    decreases names.len() - i,
{
    if i < names.len() {
        let name = names[i as int];
        operations_are_named(name);
        let r = paths::methods_from(path, names, i, p, container, openapi, c, o).0;
        if is_operation_name(name) {
            let (path1, d1, c1, o1, e1) = operation::op_processed(
                path,
                p,
                name,
                container,
                openapi,
                c,
                o,
            );
            operation_leaves_others(path, p, name, container, openapi, c, o);
            methods_are_converted(path1, names, i + 1, p, container, d1, c1, o1);
            assert forall|k: int|
                i <= k < names.len() && is_operation_name(#[trigger] names[k]) && path.has(
                    names[k],
                ) implies is_converted_operation(
                r.member(names[k]),
                path.member(names[k])->0,
                p,
                names[k],
                container,
            ) by {
                operations_are_named(names[k]);
                if k == i {
                    assert forall|q: int| i + 1 <= q < names.len() implies name
                        != #[trigger] names[q] by {}
                    assert(r.member(name) == path1.member(name));
                } else {
                    assert(names[k] != names[i as int]);
                    assert(path1.member(names[k]) == path.member(names[k]));
                }
            }
            assert forall|key: Text|
                key != "parameters"@ && (is_operation_name(key) ==> forall|k: int|
                    i <= k < names.len() ==> key != #[trigger] names[k]) implies #[trigger] r.member(
                key,
            ) == path.member(key) by {
                if is_operation_name(key) {
                    assert(key != names[i as int]);
                }
                assert(path1.member(key) == path.member(key));
            }
        } else {
            methods_are_converted(path, names, i + 1, p, container, openapi, c, o);
            assert forall|key: Text|
                key != "parameters"@ && (is_operation_name(key) ==> forall|k: int|
                    i <= k < names.len() ==> key != #[trigger] names[k]) implies #[trigger] r.member(
                key,
            ) == path.member(key) by {}
        }
    }
}

proof fn path_parameters_beside(path: Json, i: nat, n: nat, p: Text, openapi: Json, o: Settings)
    ensures
        ({
            let r = paths::path_params_from(path, i, n, p, openapi, o).0;
            forall|key: Text| key != "parameters"@ ==> #[trigger] r.member(key) == path.member(key)
        }),
    decreases n - i,
{
    broadcast use laws::group_members;

    if i < n {
        match path.member("parameters"@) {
            Some(Json::Array(a)) => {
                if i < a.len() {
                    let (param1, _, o1, e1) = parameter::param_processed(
                        a[i as int],
                        None,
                        p,
                        openapi,
                        body::media_types(None, openapi, "consumes"@),
                        o,
                    );
                    let path1 = path.with(
                        "parameters"@,
                        Json::Array(a.update(i as int, param1)),
                    );
                    if e1 is None {
                        path_parameters_beside(path1, i + 1, n, p, openapi, o1);
                    }
                } else {
                    path_parameters_beside(path, i + 1, n, p, openapi, o);
                }
            },
            _ => {
                path_parameters_beside(path, i + 1, n, p, openapi, o);
            },
        }
    }
}

/// Each operation of a path item is converted where it stands, after the extensions of
/// the path item took their places. The members that are no operations stay, but for the
/// parameters.
pub proof fn each_operation_is_converted(
    path: Json,
    p: Text,
    container: Text,
    openapi: Json,
    c: Seq<Cached>,
    o: Settings,
    key: Text,
)
    requires
        path is Object && json::distinct(path.members()),
        paths::path_processed(path, p, container, openapi, c, o).4 is None,
        key != "parameters"@,
    ensures
        ({
            let r = paths::path_processed(path, p, container, openapi, c, o).0;
            let path1 = paths::path_extensions_promoted(path);
            &&& is_operation_name(key) && path1.has(key) ==> is_converted_operation(
                r.member(key),
                path1.member(key)->0,
                p,
                key,
                container,
            )
            &&& !is_operation_name(key) ==> r.member(key) == path1.member(key)
        }),
{
    broadcast use laws::group_members;

    path_extensions_take_their_places(path);
    let path1 = paths::path_extensions_promoted(path);
    let names = json::keys(path1.members());
    keys_are_apart(path1.members());
    methods_are_converted(path1, names, 0, p, container, openapi, c, o);
    let (path2, d2, c2, o2, e2) = paths::methods_from(
        path1,
        names,
        0,
        p,
        container,
        openapi,
        c,
        o,
    );
    let n = body::elements_of(path2.member("parameters"@)).len();
    path_parameters_beside(path2, 0, n, p, d2, o2);
    let (path3, o3, e3) = paths::path_params_from(path2, 0, n, p, d2, o2);
    let r = paths::path_processed(path, p, container, openapi, c, o).0;
    assert(r == operation::params_pruned(path3, o3));
    assert(r.member(key) == path2.member(key));
    if is_operation_name(key) && path1.has(key) {
        assert(json::has_key(path1.members(), key));
        assert(names.contains(key));
        let k = choose|k: int| 0 <= k < names.len() && names[k] == key;
        assert(names[k] == key);
    }
}

/// Whether a value is a parameter of a path item, converted.
pub open spec fn is_converted_param(x: Json, param: Json, p: Text, openapi: Json) -> bool {
    exists|o: Settings| #[trigger]
        parameter::param_processed(
            param,
            None,
            p,
            openapi,
            body::media_types(None, openapi, "consumes"@),
            o,
        ).0 == x && parameter::param_processed(
            param,
            None,
            p,
            openapi,
            body::media_types(None, openapi, "consumes"@),
            o,
        ).3 is None
}

/// Each parameter of a path item is converted, at its position.
pub proof fn each_path_parameter_is_converted(
    path: Json,
    a: Seq<Json>,
    i: nat,
    p: Text,
    openapi: Json,
    o: Settings,
)
    requires
        path.member("parameters"@) == Some(Json::Array(a)),
        paths::path_params_from(path, i, a.len(), p, openapi, o).2 is None,
    ensures
        ({
            let r = paths::path_params_from(path, i, a.len(), p, openapi, o).0;
            let b = r.member("parameters"@)->0.elements();
            &&& r.member("parameters"@) == Some(Json::Array(b))
            &&& b.len() == a.len()
            &&& forall|k: int| 0 <= k < i && k < a.len() ==> #[trigger] b[k] == a[k]
            &&& forall|k: int|
                i <= k < a.len() ==> is_converted_param(#[trigger] b[k], a[k], p, openapi)
        }),
    decreases a.len() - i,
{
    broadcast use laws::group_members;

    if i < a.len() {
        let (param1, _, o1, e1) = parameter::param_processed(
            a[i as int],
            None,
            p,
            openapi,
            body::media_types(None, openapi, "consumes"@),
            o,
        );
        let a1 = a.update(i as int, param1);
        let path1 = path.with("parameters"@, Json::Array(a1));
        assert(is_converted_param(param1, a[i as int], p, openapi));
        each_path_parameter_is_converted(path1, a1, i + 1, p, openapi, o1);
        let r = paths::path_params_from(path, i, a.len(), p, openapi, o).0;
        let b = r.member("parameters"@)->0.elements();
        assert forall|k: int| 0 <= k < i && k < a.len() implies #[trigger] b[k] == a[k] by {
            assert(b[k] == a1[k]);
        }
        assert forall|k: int| i <= k < a.len() implies is_converted_param(
            #[trigger] b[k],
            a[k],
            p,
            openapi,
        ) by {
            if k == i {
                assert(b[k] == a1[k]);
            } else {
                assert(a1[k] == a[k]);
            }
        }
    }
}

// --- the path items --------------------------------------------------------

/// Whether a value is a path item, converted.
pub open spec fn is_converted_path(x: Option<Json>, path: Json, p: Text, container: Text) -> bool {
    exists|d: Json, c: Seq<Cached>, o: Settings|
        x == Some((#[trigger] paths::path_processed(path, p, container, d, c, o)).0)
            && paths::path_processed(path, p, container, d, c, o).4 is None
}

#[verifier::rlimit(60)]
proof fn paths_are_converted(
    items: Json,
    names: Seq<Text>,
    i: nat,
    container: Text,
    openapi: Json,
    c: Seq<Cached>,
    o: Settings,
)
    requires
        names.no_duplicates(),
        paths::paths_from(items, names, i, container, openapi, c, o).4 is None,
    ensures
        ({
            let r = paths::paths_from(items, names, i, container, openapi, c, o).0;
            &&& forall|k: int|
                i <= k < names.len() && items.has(#[trigger] names[k]) ==> is_converted_path(
                    r.member(names[k]),
                    items.member(names[k])->0,
                    names[k],
                    container,
                )
            &&& forall|key: Text|
                (forall|k: int| i <= k < names.len() ==> key != #[trigger] names[k])
                    ==> #[trigger] r.member(key) == items.member(key)
        }),
    decreases names.len() - i,
{
    if i < names.len() {
        let p = names[i as int];
        let r = paths::paths_from(items, names, i, container, openapi, c, o).0;
        if let Some(path) = items.member(p) {
            let (path1, d1, c1, o1, e1) = paths::path_processed(path, p, container, openapi, c, o);
            let items1 = items.with(p, path1);
            assert(is_converted_path(Some(path1), path, p, container));
            paths_are_converted(items1, names, i + 1, container, d1, c1, o1);
            assert forall|key: Text| #[trigger]
                items1.member(key) == (if key == p {
                    Some(path1)
                } else {
                    items.member(key)
                }) by {
                laws::member_of_with(items, p, path1, key);
            }
            assert forall|k: int|
                i <= k < names.len() && items.has(#[trigger] names[k]) implies is_converted_path(
                r.member(names[k]),
                items.member(names[k])->0,
                names[k],
                container,
            ) by {
                if k == i {
                    assert forall|q: int| i + 1 <= q < names.len() implies p
                        != #[trigger] names[q] by {}
                    assert(r.member(p) == items1.member(p));
                } else {
                    assert(names[k] != names[i as int]);
                    assert(items1.member(names[k]) == items.member(names[k]));
                }
            }
            assert forall|key: Text|
                (forall|k: int| i <= k < names.len() ==> key != #[trigger] names[k]) implies
                #[trigger] r.member(key) == items.member(key) by {
                assert(key != names[i as int]);
                assert(items1.member(key) == items.member(key));
            }
        } else {
            paths_are_converted(items, names, i + 1, container, openapi, c, o);
            assert forall|key: Text|
                (forall|k: int| i <= k < names.len() ==> key != #[trigger] names[k]) implies
                #[trigger] r.member(key) == items.member(key) by {}
        }
    }
}

/// Each path item is converted where it stands, and none is added or dropped.
pub proof fn each_path_is_converted(
    items: Json,
    container: Text,
    openapi: Json,
    c: Seq<Cached>,
    o: Settings,
    p: Text,
)
    requires
        json::distinct(items.members()),
        paths::paths_processed(items, container, openapi, c, o).4 is None,
    ensures
        ({
            let r = paths::paths_processed(items, container, openapi, c, o).0;
            &&& items.has(p) ==> is_converted_path(
                r.member(p),
                items.member(p)->0,
                p,
                container,
            )
            &&& !items.has(p) ==> !r.has(p)
        }),
{
    let names = json::keys(items.members());
    keys_are_apart(items.members());
    paths_are_converted(items, names, 0, container, openapi, c, o);
    if items.has(p) {
        assert(json::has_key(items.members(), p));
        assert(names.contains(p));
        let k = choose|k: int| 0 <= k < names.len() && names[k] == p;
        assert(names[k] == p);
    } else {
        assert forall|k: int| 0 <= k < names.len() implies p != #[trigger] names[k] by {
            assert(json::has_key(items.members(), names[k]));
        }
    }
}

/// Each path item of a document is converted where it stands, and so is each of those
/// that stand beside them under `x-ms-paths`.
pub proof fn each_path_of_document_is_converted(
    openapi: Json,
    c: Seq<Cached>,
    o: Settings,
    items: Json,
    p: Text,
)
    requires
        openapi is Object && json::distinct(openapi.members()),
        main_pass::all_paths_processed(openapi, c, o).3 is None,
        openapi.member("paths"@) == Some(items),
        json::distinct(items.members()),
        items.has(p),
    ensures
        is_converted_path(
            main_pass::all_paths_processed(openapi, c, o).0.member2("paths"@, p),
            items.member(p)->0,
            p,
            "paths"@,
        ),
{
    reveal_strlit("paths");
    reveal_strlit("x-ms-paths");
    reveal_strlit("components");
    assert("paths"@.len() == 5 && "x-ms-paths"@[0] == 'x' && "components"@[0] == 'c');
    container_is_converted(openapi, "paths"@, c, o, p);
    let (d1, c1, o1, e1) = main_pass::container_processed(openapi, "paths"@, c, o);
    if d1.has("x-ms-paths"@) {
        output_laws::container_stays(openapi, "paths"@, c, o, "x-ms-paths"@);
        output_laws::container_stays(d1, "x-ms-paths"@, c1, o1, "paths"@);
    }
}

/// Each path item of a container is converted where it stands.
pub proof fn container_is_converted(
    openapi: Json,
    name: Text,
    c: Seq<Cached>,
    o: Settings,
    p: Text,
)
    requires
        main_pass::container_processed(openapi, name, c, o).3 is None,
        openapi.has(name),
        json::distinct(openapi.member(name)->0.members()),
    ensures
        ({
            let items = openapi.member(name)->0;
            let r = main_pass::container_processed(openapi, name, c, o).0;
            &&& r.has(name)
            &&& items.has(p) ==> is_converted_path(
                r.member2(name, p),
                items.member(p)->0,
                p,
                name,
            )
            &&& !items.has(p) ==> r.member2(name, p) is None
        }),
{
    let items = openapi.member(name)->0;
    let d1 = openapi.with(name, Json::Null);
    let (x, d2, c2, o2, e2) = paths::paths_processed(items, name, d1, c, o);
    each_path_is_converted(items, name, d1, c, o, p);
    laws::member_of_with(d2, name, x, name);
}

// --- the components --------------------------------------------------------

/// The document whose references lead to components, before its parameters and its
/// responses are converted.
pub open spec fn referenced(openapi: Json, o: Settings) -> Json {
    let d0 = match openapi.member("security"@) {
        Some(v) => openapi.with("security"@, security::security_fixed(v)),
        None => openapi,
    };
    let (d1, o1, e1) = components::security_schemes_processed(d0, o);
    let (d2, names, o2, e2) = components::schemas_processed(d1, o1);
    refs::refs_fixed(d2, names, o2).0
}

/// The parameters and the responses of a document whose references lead to components
/// are converted, each under its sanitised name.
pub proof fn components_are_converted(openapi: Json, o: Settings, pname: Text, rname: Text)
    requires
        main_pass::components_processed(openapi, o).2 is None,
        bucket_of(referenced(openapi, o), "parameters"@) matches Some(Json::Object(m))
            && json::distinct(m) && names_stay_apart(m) && json::has_key(m, pname),
        bucket_of(referenced(openapi, o), "responses"@) matches Some(Json::Object(m))
            && json::distinct(m) && names_stay_apart(m) && json::has_key(m, rname),
    ensures
        ({
            let r = main_pass::components_processed(openapi, o).0;
            let d = referenced(openapi, o);
            let sname = common::sanitised(pname);
            &&& bucket_laws::is_converted_param(
                component_of(r, "parameters"@, sname),
                component_of(d, "parameters"@, pname)->0,
                sname,
            )
            &&& bucket_laws::is_converted_response(
                component_of(r, "responses"@, common::sanitised(rname)),
                component_of(d, "responses"@, rname)->0,
            )
        }),
{
    reveal_strlit("parameters");
    reveal_strlit("responses");
    assert("parameters"@.len() == 10 && "responses"@.len() == 9);
    let d0 = match openapi.member("security"@) {
        Some(v) => openapi.with("security"@, security::security_fixed(v)),
        None => openapi,
    };
    let (d1, o1, e1) = components::security_schemes_processed(d0, o);
    let (d2, names, o2, e2) = components::schemas_processed(d1, o1);
    let (d3, o3, e3) = refs::refs_fixed(d2, names, o2);
    let (d4, o4, e4) = components::component_params_processed(d3, o3);
    bucket_laws::each_parameter_is_converted(d3, o3, pname);
    assert(bucket_of(d4, "responses"@) == bucket_of(d3, "responses"@));
    bucket_laws::each_response_is_converted(d4, o4, rname);
    let r = components::component_responses_processed(d4, o4).0;
    assert(bucket_of(r, "parameters"@) == bucket_of(d4, "parameters"@));
}

} // verus!
