//! Operations.

use vstd::prelude::*;

use crate::common::{self, encode_uri_component, sanitise, sanitise_all, to_camel_case, truthy};
use crate::convert::body::{self, effective_consumes};
use crate::convert::cache::{self, hash_body, Cached, RbCache};
use crate::convert::examples::{self, convert_ms_examples};
use crate::convert::header::same_text;
use crate::convert::parameter::{self, fix_param_ref, opt_json, owned, process_parameter};
use crate::convert::response::{self, keys_of, process_response};
use crate::convert::security::{self, process_security};
use crate::error::{self, S2OError};
use crate::jptr;
use crate::json::{self, Json, Text};
use crate::laws;
use crate::options::{Options, Settings};
use crate::text;
use crate::value::{self, clone_values, cloned, into_elements, member_of, text_of, JsonValue};

verus! {

// --- path-level parameters -------------------------------------------------

/// The operation without an empty `rbname` marker.
pub open spec fn rbname_cleaned(op: Json, o: Settings) -> Json {
    let empty = match op.text_member(o.rbname) {
        Some(s) => s.len() == 0,
        None => false,
    };
    if o.rbname.len() > 0 && empty {
        op.without(o.rbname)
    } else {
        op
    }
}

/// Remove an empty `rbname` marker from an operation.
pub fn clean_empty_rbname(op: &mut JsonValue, options: &Options)
    ensures
        final(op)@ == rbname_cleaned(old(op)@, options@),
{
    let key = options.rbname.as_str();
    if key.is_empty() {
        return;
    }
    let empty = match op.get_str(key) {
        Some(s) => s.is_empty(),
        None => false,
    };
    if empty {
        op.cut(key);
    }
}

/// Whether a parameter of the list from position `i` on has this name and
/// location.
pub open spec fn listed_from(a: Seq<Json>, i: nat, name: Option<Text>, at: Option<Text>) -> bool
    decreases a.len() - i,
{
    i < a.len() && ((a[i as int].text_member("name"@) == name && a[i as int].text_member("in"@)
        == at) || listed_from(a, i + 1, name, at))
}

/// Whether a parameter makes a request body.
pub open spec fn is_bodyish(param: Json) -> bool {
    param.says("in"@, "formData"@) || param.says("in"@, "body"@) || param.says(
        "type"@,
        "file"@,
    )
}

/// The path-level parameter with its `$ref` followed, and the failure.
pub open spec fn path_param_resolved(param: Json, openapi: Json, o: Settings) -> (
    Json,
    Option<Text>,
) {
    match param.text_member("$ref"@) {
        Some(r) => {
            let (j1, e1) = parameter::param_ref_fixed(param, o);
            match (e1, jptr::read(openapi, r)) {
                (None, Some(v)) => (v, None),
                _ => (j1, e1),
            }
        },
        None => (param, None),
    }
}

/// The path with a path-level parameter converted on behalf of the operation, the
/// settings and the failure.
pub open spec fn body_param_merged(
    path: Json,
    param: Json,
    p: Text,
    method: Text,
    openapi: Json,
    o: Settings,
) -> (Json, Settings, Option<Text>) {
    match path.member(method) {
        Some(op) => {
            let (_, op1, o1, e1) = parameter::param_processed(
                param,
                Some(op),
                p,
                openapi,
                body::media_types(Some(op), openapi, "consumes"@),
                o,
            );
            match e1 {
                Some(_) => (path.with(method, op1->0), o1, e1),
                None => (path.with(method, rbname_cleaned(op1->0, o1)), o1, None),
            }
        },
        None => (path, o, None),
    }
}

/// The path with one path-level parameter merged into the operation, the settings
/// and the failure. Only one that makes a request body is merged, and only where
/// the operation has none of its name and location.
pub open spec fn path_param_merged(
    path: Json,
    raw: Json,
    p: Text,
    method: Text,
    openapi: Json,
    o: Settings,
) -> (Json, Settings, Option<Text>) {
    let (param, e1) = path_param_resolved(raw, openapi, o);
    match e1 {
        Some(_) => (path, o, e1),
        None => {
            let listed = listed_from(
                body::elements_of(path.member2(method, "parameters"@)),
                0,
                param.text_member("name"@),
                param.text_member("in"@),
            );
            if !listed && is_bodyish(param) {
                body_param_merged(path, param, p, method, openapi, o)
            } else {
                (path, o, None)
            }
        },
    }
}

/// The path with the path-level parameters from position `i` on merged into the
/// operation, the settings and the failure.
pub open spec fn path_params_merged(
    path: Json,
    params: Seq<Json>,
    i: nat,
    p: Text,
    method: Text,
    openapi: Json,
    o: Settings,
) -> (Json, Settings, Option<Text>)
    decreases params.len() - i,
{
    if i >= params.len() {
        (path, o, None)
    } else {
        let (path1, o1, e1) = path_param_merged(
            path,
            params[i as int],
            p,
            method,
            openapi,
            o,
        );
        match e1 {
            Some(_) => (path1, o1, e1),
            None => path_params_merged(path1, params, i + 1, p, method, openapi, o1),
        }
    }
}

/// Whether a list of parameters holds one of this name and location.
fn is_listed(params: Option<&JsonValue>, param: &JsonValue) -> (b: bool)
    ensures
        b == listed_from(
            body::elements_of(value::opt(params)),
            0,
            param@.text_member("name"@),
            param@.text_member("in"@),
        ),
{
    let ghost name = param@.text_member("name"@);
    let ghost at = param@.text_member("in"@);
    if let Some(v) = params {
        if let Some(a) = v.as_array() {
            let ghost all = value::views(a@);
            let mut i: usize = 0;
            while i < a.len()
                invariant
                    i <= a@.len(),
                    all == value::views(a@),
                    name == param@.text_member("name"@),
                    at == param@.text_member("in"@),
                    body::elements_of(value::opt(params)) == all,
                    listed_from(all, 0, name, at) == listed_from(all, i as nat, name, at),
                decreases a@.len() - i,
            {
                assert(all[i as int] == a@[i as int]@);
                if same_text(a[i].get_str("name"), param.get_str("name")) && same_text(
                    a[i].get_str("in"),
                    param.get_str("in"),
                ) {
                    return true;
                }
                i += 1;
            }
        }
    }
    false
}

/// Put a value back where a member was taken from.
fn put_back(path: &mut JsonValue, method: &str, op: Option<JsonValue>)
    ensures
        final(path)@ == (match (op, old(path)@.member(method@)) {
            (Some(v), Some(_)) => old(path)@.with(method@, v@),
            _ => old(path)@,
        }),
{
    if let Some(v) = op {
        if let Some(slot) = path.get_mut(method) {
            *slot = v;
        }
    }
}

/// Take the operation off its path, leaving `null`.
fn take_op(path: &mut JsonValue, method: &str) -> (r: Option<JsonValue>)
    ensures
        opt_json(r) == old(path)@.member(method@),
        final(path)@ == (match r {
            Some(_) => old(path)@.with(method@, Json::Null),
            None => old(path)@,
        }),
{
    match path.get_mut(method) {
        Some(slot) => Some(slot.take()),
        None => None,
    }
}

/// Convert a path-level parameter on behalf of the operation.
fn merge_body_param(
    path: &mut JsonValue,
    param: &mut JsonValue,
    p: &str,
    method: &str,
    openapi: &JsonValue,
    options: &mut Options,
) -> (r: Result<(), S2OError>)
    ensures
        (final(path)@, final(options)@, error::failure(r)) == body_param_merged(
            old(path)@,
            old(param)@,
            p@,
            method@,
            openapi@,
            old(options)@,
        ),
{
    broadcast use laws::insert_twice;

    let consumes = effective_consumes(path.get(method), openapi);
    let mut op = take_op(path, method);
    if op.is_some() {
        proof {
            laws::lookup_after_insert(old(path)@.members(), method@, Json::Null);
            parameter::param_keeps_op(
                param@,
                old(path)@.member(method@)->0,
                p@,
                openapi@,
                json::texts(consumes@),
                options@,
            );
        }
        let result = process_parameter(param, &mut op, p, openapi, &consumes, options);
        match result {
            Ok(()) => {
                if let Some(o) = &mut op {
                    clean_empty_rbname(o, options);
                }
                put_back(path, method, op);
            },
            Err(e) => {
                put_back(path, method, op);
                return Err(e);
            },
        }
    }
    Ok(())
}

/// Merge one path-level parameter into the operation.
fn merge_path_param(
    path: &mut JsonValue,
    raw: &JsonValue,
    p: &str,
    method: &str,
    openapi: &JsonValue,
    options: &mut Options,
) -> (r: Result<(), S2OError>)
    ensures
        (final(path)@, final(options)@, error::failure(r)) == path_param_merged(
            old(path)@,
            raw@,
            p@,
            method@,
            openapi@,
            old(options)@,
        ),
{
    let mut param = raw.clone();
    let reference = owned(param.get_str("$ref"));
    if let Some(r) = reference {
        fix_param_ref(&mut param, options)?;
        if let Some(v) = jptr::get(openapi, r.as_str()) {
            param = v.clone();
        }
    }
    let listed = is_listed(member_of(path.get(method), "parameters"), &param);
    let bodyish = param.says("in", "formData") || param.says("in", "body") || param.says(
        "type",
        "file",
    );
    if !listed && bodyish {
        merge_body_param(path, &mut param, p, method, openapi, options)?;
    }
    Ok(())
}

/// Merge applicable path-level parameters into the operation.
fn merge_path_params(
    path: &mut JsonValue,
    p: &str,
    method: &str,
    openapi: &JsonValue,
    options: &mut Options,
) -> (r: Result<(), S2OError>)
    ensures
        (final(path)@, final(options)@, error::failure(r)) == path_params_merged(
            old(path)@,
            body::elements_of(old(path)@.member("parameters"@)),
            0,
            p@,
            method@,
            openapi@,
            old(options)@,
        ),
{
    let params: Vec<JsonValue> = match path.get("parameters") {
        Some(v) => into_elements(v.clone()),
        None => {
            let none: Vec<JsonValue> = Vec::new();
            assert(value::views(none@) =~= Seq::<Json>::empty());
            none
        },
    };
    let ghost ps = value::views(params@);
    let mut i: usize = 0;
    while i < params.len()
        invariant
            i <= params@.len(),
            ps == value::views(params@),
            ps == body::elements_of(old(path)@.member("parameters"@)),
            path_params_merged(old(path)@, ps, 0, p@, method@, openapi@, old(options)@)
                == path_params_merged(path@, ps, i as nat, p@, method@, openapi@, options@),
        decreases params@.len() - i,
    {
        assert(ps[i as int] == params@[i as int]@);
        merge_path_param(path, &params[i], p, method, openapi, options)?;
        i += 1;
    }
    Ok(())
}

// --- operation-level parameters --------------------------------------------

/// The operation with another parameter at position `i`.
pub open spec fn op_param_set(op: Json, i: nat, param: Json) -> Json {
    match op.member("parameters"@) {
        Some(Json::Array(a)) => if i < a.len() {
            op.with("parameters"@, Json::Array(a.update(i as int, param)))
        } else {
            op
        },
        _ => op,
    }
}

/// The path with the operation's parameter at position `i` converted, the
/// settings and the failure. After a failure the operation is `null`.
pub open spec fn op_param_processed(
    path: Json,
    i: nat,
    index: Text,
    method: Text,
    openapi: Json,
    o: Settings,
) -> (Json, Settings, Option<Text>) {
    let op = path.member(method);
    let params = body::elements_of(json::member_of(op, "parameters"@));
    if i < params.len() {
        let (param1, op1, o1, e1) = parameter::param_processed(
            params[i as int],
            op,
            index,
            openapi,
            body::media_types(op, openapi, "consumes"@),
            o,
        );
        match e1 {
            Some(_) => (path.with(method, Json::Null), o1, e1),
            None => (path.with(method, op_param_set(op1->0, i, param1)), o1, None),
        }
    } else {
        (path, o, None)
    }
}

/// The path with the operation's parameters from position `i` to `n` converted,
/// the settings and the failure.
pub open spec fn op_params_processed(
    path: Json,
    i: nat,
    n: nat,
    index: Text,
    method: Text,
    openapi: Json,
    o: Settings,
) -> (Json, Settings, Option<Text>)
    decreases n - i,
{
    if i >= n {
        (path, o, None)
    } else {
        let (path1, o1, e1) = op_param_processed(path, i, index, method, openapi, o);
        match e1 {
            Some(_) => (path1, o1, e1),
            None => op_params_processed(path1, i + 1, n, index, method, openapi, o1),
        }
    }
}

/// Put a parameter back into its operation.
fn set_op_param(op: &mut JsonValue, i: usize, param: JsonValue)
    ensures
        final(op)@ == op_param_set(old(op)@, i as nat, param@),
{
    let fits = match op.get("parameters") {
        Some(v) => match v.as_array() {
            Some(a) => i < a.len(),
            None => false,
        },
        None => false,
    };
    if fits {
        if let Some(params) = op.get_mut("parameters") {
            if let Some(list) = params.as_array_mut() {
                let ghost a = value::views(list@);
                list.set(i, param);
                assert(value::views(list@) =~= a.update(i as int, param@));
            }
        }
    }
}

/// Convert one parameter of the operation.
fn process_op_param(
    path: &mut JsonValue,
    i: usize,
    index: &str,
    method: &str,
    openapi: &JsonValue,
    options: &mut Options,
) -> (r: Result<(), S2OError>)
    ensures
        (final(path)@, final(options)@, error::failure(r)) == op_param_processed(
            old(path)@,
            i as nat,
            index@,
            method@,
            openapi@,
            old(options)@,
        ),
{
    broadcast use laws::insert_twice;

    let consumes = effective_consumes(path.get(method), openapi);
    let found: Option<JsonValue> = match member_of(path.get(method), "parameters") {
        Some(v) => match v.as_array() {
            Some(a) => if i < a.len() {
                Some(a[i].clone())
            } else {
                None
            },
            None => None,
        },
        None => None,
    };
    let mut param = match found {
        Some(v) => v,
        None => {
            return Ok(());
        },
    };
    // Detach the operation, process the parameter, then write it back at the
    // same index.
    let mut op = take_op(path, method);
    proof {
        parameter::param_keeps_op(
            param@,
            old(path)@.member(method@)->0,
            index@,
            openapi@,
            json::texts(consumes@),
            options@,
        );
    }
    process_parameter(&mut param, &mut op, index, openapi, &consumes, options)?;
    if let Some(mut o) = op {
        set_op_param(&mut o, i, param);
        path.put(method, o);
    }
    Ok(())
}

/// Convert the parameters of the operation.
fn process_op_params(
    path: &mut JsonValue,
    p: &str,
    method: &str,
    openapi: &JsonValue,
    options: &mut Options,
) -> (r: Result<(), S2OError>)
    ensures
        (final(path)@, final(options)@, error::failure(r)) == op_params_processed(
            old(path)@,
            0,
            body::elements_of(old(path)@.member2(method@, "parameters"@)).len(),
            method@ + ":"@ + p@,
            method@,
            openapi@,
            old(options)@,
        ),
{
    let n: usize = match member_of(path.get(method), "parameters") {
        Some(v) => match v.as_array() {
            Some(a) => a.len(),
            None => 0,
        },
        None => 0,
    };
    let index = text::cat3(method, ":", p);
    let mut i: usize = 0;
    while i < n
        invariant
            i <= n,
            n == body::elements_of(old(path)@.member2(method@, "parameters"@)).len(),
            index@ == method@ + ":"@ + p@,
            op_params_processed(
                old(path)@,
                0,
                n as nat,
                index@,
                method@,
                openapi@,
                old(options)@,
            ) == op_params_processed(
                path@,
                i as nat,
                n as nat,
                index@,
                method@,
                openapi@,
                options@,
            ),
        decreases n - i,
    {
        process_op_param(path, i, index.as_str(), method, openapi, options)?;
        i += 1;
    }
    Ok(())
}

// --- tidying ---------------------------------------------------------------

/// Whether a parameter stays: it was not marked for deletion.
pub open spec fn param_stays(v: Json) -> bool {
    !(v is Null) && !common::is_truthy(v.member("x-s2o-delete"@))
}

/// The parameters from position `i` on that stay.
pub open spec fn params_kept(a: Seq<Json>, i: nat) -> Seq<Json>
    decreases a.len() - i,
{
    if i >= a.len() {
        Seq::empty()
    } else if param_stays(a[i as int]) {
        seq![a[i as int]] + params_kept(a, i + 1)
    } else {
        params_kept(a, i + 1)
    }
}

/// The value with only the parameters that stay, unless `debug` is set.
pub open spec fn params_pruned(j: Json, o: Settings) -> Json {
    match j.member("parameters"@) {
        Some(Json::Array(a)) => if o.debug {
            j
        } else {
            j.with("parameters"@, Json::Array(params_kept(a, 0)))
        },
        _ => j,
    }
}

/// Keep a parameter unless it was marked for deletion.
pub fn keep_parameter(v: &JsonValue) -> (b: bool)
    ensures
        b == param_stays(v@),
{
    !v.is_null() && !truthy(v.get("x-s2o-delete"))
}

/// Drop the parameters that were marked for deletion.
pub fn prune_parameters(j: &mut JsonValue, options: &Options)
    ensures
        final(j)@ == params_pruned(old(j)@, options@),
{
    if options.debug {
        return;
    }
    let list: Vec<JsonValue> = match j.get("parameters") {
        Some(v) => match v.as_array() {
            Some(a) => clone_values(a),
            None => {
                return;
            },
        },
        None => {
            return;
        },
    };
    let ghost a = value::views(list@);
    let mut out: Vec<JsonValue> = Vec::new();
    let mut i: usize = 0;
    assert(value::views(out@) + params_kept(a, 0) =~= params_kept(a, 0));
    while i < list.len()
        invariant
            i <= list@.len(),
            a == value::views(list@),
            value::views(out@) + params_kept(a, i as nat) == params_kept(a, 0),
        decreases list@.len() - i,
    {
        let ghost before = value::views(out@);
        assert(a[i as int] == list@[i as int]@);
        if keep_parameter(&list[i]) {
            out.push(list[i].clone());
            assert(value::views(out@) =~= before.push(a[i as int]));
            assert(before.push(a[i as int]) + params_kept(a, (i + 1) as nat) =~= before
                + params_kept(a, i as nat));
        }
        i += 1;
    }
    assert(value::views(out@) + params_kept(a, i as nat) =~= value::views(out@));
    j.put("parameters", JsonValue::array(out));
}

/// The path whose operation had its parameters and its security tidied.
pub open spec fn op_tidied(path: Json, method: Text, o: Settings) -> Json {
    match path.member(method) {
        Some(op) => {
            let op1 = params_pruned(rbname_cleaned(op, o), o);
            let op2 = match op1.member("security"@) {
                Some(s) => op1.with("security"@, security::security_fixed(s)),
                None => op1,
            };
            path.with(method, op2)
        },
        None => path,
    }
}

/// Tidy the parameters and the security of the operation.
fn tidy_operation(path: &mut JsonValue, method: &str, options: &Options)
    ensures
        final(path)@ == op_tidied(old(path)@, method@, options@),
{
    if let Some(op) = path.get_mut(method) {
        clean_empty_rbname(op, options);
        prune_parameters(op, options);

        // Operation security.
        if let Some(security) = op.get_mut("security") {
            process_security(security);
        }
    }
}

// --- responses -------------------------------------------------------------

/// The operation with responses.
pub open spec fn responses_supplied(op: Json) -> Json {
    if op.has("responses"@) {
        op
    } else {
        op.with(
            "responses"@,
            Json::single(
                "default"@,
                Json::single("description"@, Json::String("Default response"@)),
            ),
        )
    }
}

/// The operation with the responses from position `i` on converted, the settings
/// and the failure.
pub open spec fn responses_from(op: Json, names: Seq<Text>, i: nat, openapi: Json, o: Settings) -> (
    Json,
    Settings,
    Option<Text>,
)
    decreases names.len() - i,
{
    if i >= names.len() {
        (op, o, None)
    } else {
        let r = names[i as int];
        match op.member2("responses"@, r) {
            Some(response) => {
                let (x1, o1, e1) = response::response_processed(response, Some(op), openapi, o);
                match e1 {
                    Some(_) => (op, o1, e1),
                    None => responses_from(
                        op.with(
                            "responses"@,
                            op.member("responses"@)->0.with(r, x1),
                        ),
                        names,
                        i + 1,
                        openapi,
                        o1,
                    ),
                }
            },
            None => responses_from(op, names, i + 1, openapi, o),
        }
    }
}

/// The path with the responses of the operation converted, the settings and the
/// failure. After a failure the operation is `null`.
pub open spec fn op_responses_processed(path: Json, method: Text, openapi: Json, o: Settings) -> (
    Json,
    Settings,
    Option<Text>,
) {
    match path.member(method) {
        Some(Json::Object(m)) => {
            let op1 = responses_supplied(Json::Object(m));
            let names = json::keys(examples::members_of(op1.member("responses"@)));
            let (op2, o2, e2) = responses_from(op1, names, 0, openapi, o);
            match e2 {
                Some(_) => (path.with(method, Json::Null), o2, e2),
                None => (path.with(method, op2), o2, None),
            }
        },
        _ => (path, o, None),
    }
}

/// Convert the responses of an operation.
fn convert_responses(op: &mut JsonValue, openapi: &JsonValue, options: &mut Options) -> (r: Result<
    (),
    S2OError,
>)
    ensures
        (final(op)@, final(options)@, error::failure(r)) == responses_from(
            old(op)@,
            json::keys(examples::members_of(old(op)@.member("responses"@))),
            0,
            openapi@,
            old(options)@,
        ),
{
    let names = keys_of(op.get("responses"));
    let ghost ns = json::texts(names@);
    let mut i: usize = 0;
    while i < names.len()
        invariant
            i <= names@.len(),
            ns == json::texts(names@),
            ns == json::keys(examples::members_of(old(op)@.member("responses"@))),
            responses_from(old(op)@, ns, 0, openapi@, old(options)@) == responses_from(
                op@,
                ns,
                i as nat,
                openapi@,
                options@,
            ),
        decreases names@.len() - i,
    {
        let name = names[i].as_str();
        assert(ns[i as int] == name@);
        if let Some(mut response) = cloned(member_of(op.get("responses"), name)) {
            process_response(&mut response, Some(&*op), openapi, options)?;
            if let Some(responses) = op.get_mut("responses") {
                if let Some(slot) = responses.get_mut(name) {
                    *slot = response;
                }
            }
        }
        i += 1;
    }
    Ok(())
}

/// Process the responses of one operation.
pub fn process_operation_responses(
    path: &mut JsonValue,
    method: &str,
    openapi: &JsonValue,
    options: &mut Options,
) -> (r: Result<(), S2OError>)
    ensures
        (final(path)@, final(options)@, error::failure(r)) == op_responses_processed(
            old(path)@,
            method@,
            openapi@,
            old(options)@,
        ),
{
    broadcast use laws::insert_twice;

    let is_object = match path.get(method) {
        Some(op) => op.is_object(),
        None => false,
    };
    if !is_object {
        return Ok(());
    }
    if let Some(mut op) = take_op(path, method) {
        if !op.has("responses") {
            let default = JsonValue::single("description", JsonValue::text("Default response"));
            op.put("responses", JsonValue::single("default", default));
        }
        convert_responses(&mut op, openapi, options)?;
        path.put(method, op);
    }
    Ok(())
}

// --- servers ---------------------------------------------------------------

/// The server URL with another scheme.
pub open spec fn url_with_scheme(url: Text, scheme: Text) -> Text {
    match text::find_spec(url, "://"@) {
        Some(i) => scheme + "://"@ + url.skip(i + 3),
        None => match text::stripped(url, "//"@) {
            Some(rest) => scheme + "://"@ + rest,
            None => scheme + "://"@ + url,
        },
    }
}

/// Replace the scheme of a server URL.
pub fn set_url_scheme(url: &str, scheme: &str) -> (r: String)
    ensures
        r@ == url_with_scheme(url@, scheme@),
{
    proof {
        reveal_strlit("://");
    }
    if let Some(i) = text::find(url, "://") {
        let n: usize = url.unicode_len();
        assert(i + 3 <= n);
        text::cat3(scheme, "://", text::skip(url, i + 3).as_str())
    } else if let Some(rest) = text::strip_prefix(url, "//") {
        text::cat3(scheme, "://", rest.as_str())
    } else {
        text::cat3(scheme, "://", url)
    }
}

/// Whether an element from position `i` on equals `v`.
pub open spec fn holds_from(a: Seq<Json>, i: nat, v: Json) -> bool
    decreases a.len() - i,
{
    i < a.len() && (json::same(a[i as int], v) || holds_from(a, i + 1, v))
}

/// The server with another scheme.
pub open spec fn server_with_scheme(server: Json, scheme: Json) -> Json {
    match server.text_member("url"@) {
        Some(url) => server.with(
            "url"@,
            Json::String(
                url_with_scheme(
                    url,
                    match scheme.text() {
                        Some(s) => s,
                        None => ""@,
                    },
                ),
            ),
        ),
        None => server,
    }
}

/// The operation with a server appended, when it has a list of servers.
pub open spec fn server_appended(op: Json, server: Json) -> Json {
    match op.member("servers"@) {
        Some(Json::Array(a)) => op.with("servers"@, Json::Array(a.push(server))),
        _ => op,
    }
}

/// The operation with the servers from position `i` on under another scheme.
pub open spec fn servers_from(op: Json, servers: Seq<Json>, i: nat, scheme: Json) -> Json
    decreases servers.len() - i,
{
    if i >= servers.len() {
        op
    } else {
        servers_from(
            server_appended(op, server_with_scheme(servers[i as int], scheme)),
            servers,
            i + 1,
            scheme,
        )
    }
}

/// The operation with servers for the schemes from position `i` on that the
/// document does not have.
pub open spec fn schemes_from(op: Json, schemes: Seq<Json>, i: nat, openapi: Json) -> Json
    decreases schemes.len() - i,
{
    if i >= schemes.len() {
        op
    } else {
        let scheme = schemes[i as int];
        let op1 = if holds_from(body::elements_of(openapi.member("schemes"@)), 0, scheme) {
            op
        } else {
            servers_from(
                op.with_new("servers"@, Json::Array(Seq::empty())),
                body::elements_of(openapi.member("servers"@)),
                0,
                scheme,
            )
        };
        schemes_from(op1, schemes, i + 1, openapi)
    }
}

/// The operation with its schemes turned into servers.
pub open spec fn op_servers_converted(op: Json, openapi: Json) -> Json {
    if op.member("x-servers"@) matches Some(Json::Array(_)) {
        op.without("x-servers"@).with("servers"@, op.member("x-servers"@)->0)
    } else {
        schemes_from(op, body::elements_of(op.member("schemes"@)), 0, openapi)
    }
}

/// The path with the schemes of the operation turned into servers.
pub open spec fn path_servers_converted(path: Json, method: Text, openapi: Json) -> Json {
    match path.member(method) {
        Some(op) => path.with(method, op_servers_converted(op, openapi)),
        None => path,
    }
}

/// Whether an optional list holds a value equal to `v`.
fn holds(list: Option<&JsonValue>, v: &JsonValue) -> (b: bool)
    ensures
        b == holds_from(body::elements_of(value::opt(list)), 0, v@),
{
    if let Some(l) = list {
        if let Some(a) = l.as_array() {
            let ghost all = value::views(a@);
            let mut i: usize = 0;
            while i < a.len()
                invariant
                    i <= a@.len(),
                    all == value::views(a@),
                    all == body::elements_of(value::opt(list)),
                    holds_from(all, 0, v@) == holds_from(all, i as nat, v@),
                decreases a@.len() - i,
            {
                assert(all[i as int] == a@[i as int]@);
                if a[i].same(v) {
                    return true;
                }
                i += 1;
            }
        }
    }
    false
}

/// Append a server to a list of servers.
fn append_server(op: &mut JsonValue, server: JsonValue)
    ensures
        final(op)@ == server_appended(old(op)@, server@),
{
    let is_list = match op.get("servers") {
        Some(v) => v.is_array(),
        None => false,
    };
    if is_list {
        if let Some(servers) = op.get_mut("servers") {
            if let Some(list) = servers.as_array_mut() {
                let ghost a = value::views(list@);
                list.push(server);
                assert(value::views(list@) =~= a.push(server@));
            }
        }
    }
}

/// Append the servers of the document under another scheme.
fn append_servers(op: &mut JsonValue, servers: Option<&JsonValue>, scheme: &JsonValue)
    ensures
        final(op)@ == servers_from(
            old(op)@,
            body::elements_of(value::opt(servers)),
            0,
            scheme@,
        ),
{
    if let Some(l) = servers {
        if let Some(a) = l.as_array() {
            let ghost all = value::views(a@);
            let mut i: usize = 0;
            while i < a.len()
                invariant
                    i <= a@.len(),
                    all == value::views(a@),
                    all == body::elements_of(value::opt(servers)),
                    servers_from(old(op)@, all, 0, scheme@) == servers_from(
                        op@,
                        all,
                        i as nat,
                        scheme@,
                    ),
                decreases a@.len() - i,
            {
                assert(all[i as int] == a@[i as int]@);
                let mut server = a[i].clone();
                let rebuilt: Option<String> = match server.get_str("url") {
                    Some(url) => {
                        let s: &str = match scheme.as_str() {
                            Some(s) => s,
                            None => "",
                        };
                        Some(set_url_scheme(url, s))
                    },
                    None => None,
                };
                if let Some(url) = rebuilt {
                    server.put("url", JsonValue::String(url));
                }
                append_server(op, server);
                i += 1;
            }
        }
    }
}

/// Turn the schemes of an operation into servers.
fn convert_servers(op: &mut JsonValue, openapi: &JsonValue)
    ensures
        final(op)@ == op_servers_converted(old(op)@, openapi@),
{
    let own = cloned(op.get("x-servers"));
    if let Some(v) = own {
        if v.is_array() {
            op.cut("x-servers");
            op.put("servers", v);
            return;
        }
    }
    let schemes: Vec<JsonValue> = match op.get("schemes") {
        Some(v) => into_elements(v.clone()),
        None => {
            let none: Vec<JsonValue> = Vec::new();
            assert(value::views(none@) =~= Seq::<Json>::empty());
            none
        },
    };
    let ghost ss = value::views(schemes@);
    let mut i: usize = 0;
    while i < schemes.len()
        invariant
            i <= schemes@.len(),
            ss == value::views(schemes@),
            schemes_from(old(op)@, ss, 0, openapi@) == schemes_from(
                op@,
                ss,
                i as nat,
                openapi@,
            ),
        decreases schemes@.len() - i,
    {
        assert(ss[i as int] == schemes@[i as int]@);
        if !holds(openapi.get("schemes"), &schemes[i]) {
            op.put_new("servers", JsonValue::empty_array());
            append_servers(op, openapi.get("servers"), &schemes[i]);
        }
        i += 1;
    }
}

/// Convert operation-level schemes to servers.
pub fn convert_operation_servers(path: &mut JsonValue, method: &str, openapi: &JsonValue)
    ensures
        final(path)@ == path_servers_converted(old(path)@, method@, openapi@),
{
    if let Some(op) = path.get_mut(method) {
        convert_servers(op, openapi);
    }
}

// --- the request body ------------------------------------------------------

/// The value with the media types that it had under `x-s2o-` names, under
/// `debug`, and without them otherwise.
pub open spec fn media_types_dropped(j: Json, o: Settings) -> Json {
    let none = Json::Array(Seq::empty());
    let j1 = if o.debug {
        j.with("x-s2o-consumes"@, json::value_or(j.member("consumes"@), none)).with(
            "x-s2o-produces"@,
            json::value_or(j.member("produces"@), none),
        )
    } else {
        j
    };
    j1.without("consumes"@).without("produces"@).without("schemes"@)
}

/// Drop `consumes`, `produces` and `schemes`.
pub fn drop_media_types(j: &mut JsonValue, options: &Options)
    ensures
        final(j)@ == media_types_dropped(old(j)@, options@),
        !final(j)@.has("consumes"@),
        !final(j)@.has("produces"@),
        !final(j)@.has("schemes"@),
{
    if options.debug {
        let consumes = match j.get("consumes") {
            Some(v) => v.clone(),
            None => JsonValue::empty_array(),
        };
        let produces = match j.get("produces") {
            Some(v) => v.clone(),
            None => JsonValue::empty_array(),
        };
        j.put("x-s2o-consumes", consumes);
        j.put("x-s2o-produces", produces);
    }
    j.cut("consumes");
    let ghost j1 = j@;
    j.cut("produces");
    let ghost j2 = j@;
    j.cut("schemes");
    proof {
        laws::remove_brings_none(j1.members(), "produces"@, "consumes"@);
        laws::remove_brings_none(j2.members(), "schemes"@, "consumes"@);
        laws::remove_brings_none(j2.members(), "schemes"@, "produces"@);
    }
}

/// The name of the request body of an operation.
pub open spec fn body_name(op: Json, p: Text, method: Text) -> Text {
    let id = match op.text_member("operationId"@) {
        Some(id) => common::sanitised_all(id),
        None => common::camel_cased(common::sanitised_all(method + p)),
    };
    let source = match json::text_of(op.member2("requestBody"@, "x-s2o-name"@)) {
        Some(s) => if s.len() > 0 {
            s
        } else {
            id
        },
        None => id,
    };
    common::sanitised(source)
}

/// The pointer to the request body of an operation.
pub open spec fn body_pointer(container: Text, p: Text, method: Text) -> Text {
    "#/"@ + container + "/"@ + common::uri_encoded(jptr::escaped(p)) + "/"@ + method
        + "/requestBody"@
}

/// The operation and the cache after the request body of the operation has been
/// seen.
pub open spec fn op_body_seen(
    op: Json,
    p: Text,
    method: Text,
    container: Text,
    c: Seq<Cached>,
) -> (Json, Seq<Cached>) {
    match op.member("requestBody"@) {
        Some(body) => {
            let rb = body.without("x-s2o-name"@);
            let (c1, i) = cache::body_seen(
                c,
                cache::body_hash(rb) as i32,
                rb,
                body_name(op, p, method),
            );
            (
                op.with("requestBody"@, rb),
                cache::ref_seen(c1, i, body_pointer(container, p, method)),
            )
        },
        None => (op, c),
    }
}

/// The operation without an empty list of parameters.
pub open spec fn empty_params_dropped(op: Json) -> Json {
    match op.member("parameters"@) {
        Some(Json::Array(a)) => if a.len() == 0 {
            op.without("parameters"@)
        } else {
            op
        },
        _ => op,
    }
}

/// The path, the document and the cache after the final cleanup of an operation.
pub open spec fn op_finalized(
    path: Json,
    p: Text,
    method: Text,
    container: Text,
    openapi: Json,
    c: Seq<Cached>,
    o: Settings,
) -> (Json, Json, Seq<Cached>) {
    match path.member(method) {
        Some(op) => {
            let (path1, d1) = examples::ms_examples_converted(
                path.with(method, media_types_dropped(op, o)),
                method,
                openapi,
            );
            match path1.member(method) {
                Some(op1) => {
                    let (op2, c2) = op_body_seen(
                        empty_params_dropped(op1),
                        p,
                        method,
                        container,
                        c,
                    );
                    (path1.with(method, op2), d1, c2)
                },
                None => (path1, d1, c),
            }
        },
        None => (path, openapi, c),
    }
}

/// The name of the request body of an operation.
fn name_body(op: &JsonValue, p: &str, method: &str) -> (r: String)
    ensures
        r@ == body_name(op@, p@, method@),
{
    if let Some(s) = text_of(member_of(op.get("requestBody"), "x-s2o-name")) {
        if !s.is_empty() {
            return sanitise(s);
        }
    }
    let id = match op.get_str("operationId") {
        Some(id) => sanitise_all(id),
        None => to_camel_case(sanitise_all(text::cat(method, p).as_str()).as_str()),
    };
    sanitise(id.as_str())
}

/// The pointer to the request body of an operation.
fn point_to_body(container: &str, p: &str, method: &str) -> (r: String)
    ensures
        r@ == body_pointer(container@, p@, method@),
{
    let head = text::cat3("#/", container, "/");
    let key = encode_uri_component(jptr::jpescape(p).as_str());
    let at = text::cat3(head.as_str(), key.as_str(), "/");
    text::cat3(at.as_str(), method, "/requestBody")
}

/// Note the request body of an operation in the cache.
fn note_body(op: &mut JsonValue, p: &str, method: &str, container: &str, cache: &mut RbCache)
    ensures
        (final(op)@, final(cache)@) == op_body_seen(
            old(op)@,
            p@,
            method@,
            container@,
            old(cache)@,
        ),
{
    if !op.has("requestBody") {
        return;
    }
    let name = name_body(op, p, method);
    if let Some(body) = op.get_mut("requestBody") {
        body.cut("x-s2o-name");
        let h: i32 = hash_body(body);
        let i: usize = cache.get_or_insert(h, body, name.as_str());
        cache.add_ref(i, point_to_body(container, p, method));
    }
}

/// Final operation cleanup and request body hashing.
pub fn finalize_operation(
    path: &mut JsonValue,
    p: &str,
    method: &str,
    container_name: &str,
    openapi: &mut JsonValue,
    cache: &mut RbCache,
    options: &Options,
)
    ensures
        (final(path)@, final(openapi)@, final(cache)@) == op_finalized(
            old(path)@,
            p@,
            method@,
            container_name@,
            old(openapi)@,
            old(cache)@,
            options@,
        ),
{
    if let Some(op) = path.get_mut(method) {
        drop_media_types(op, options);
    } else {
        return;
    }
    convert_ms_examples(path, method, openapi);
    if let Some(op) = path.get_mut(method) {
        // Drop an empty parameters array.
        let empty = match op.get("parameters") {
            Some(v) => match v.as_array() {
                Some(a) => a.len() == 0,
                None => false,
            },
            None => false,
        };
        if empty {
            op.cut("parameters");
        }

        // Hash the request body for shared-body extraction.
        note_body(op, p, method, container_name, cache);
    }
}

// --- the operation ---------------------------------------------------------

/// The path, the document, the cache, the settings and the failure after one
/// operation has been converted.
pub open spec fn op_processed(
    path: Json,
    p: Text,
    method: Text,
    container: Text,
    openapi: Json,
    c: Seq<Cached>,
    o: Settings,
) -> (Json, Json, Seq<Cached>, Settings, Option<Text>) {
    let (path1, o1, e1) = path_params_merged(
        path,
        body::elements_of(path.member("parameters"@)),
        0,
        p,
        method,
        openapi,
        o,
    );
    match e1 {
        Some(_) => (path1, openapi, c, o1, e1),
        None => {
            let n = body::elements_of(path1.member2(method, "parameters"@)).len();
            let (path2, o2, e2) = op_params_processed(
                path1,
                0,
                n,
                method + ":"@ + p,
                method,
                openapi,
                o1,
            );
            match e2 {
                Some(_) => (path2, openapi, c, o2, e2),
                None => {
                    let (path3, o3, e3) = op_responses_processed(
                        op_tidied(path2, method, o2),
                        method,
                        openapi,
                        o2,
                    );
                    match e3 {
                        Some(_) => (path3, openapi, c, o3, e3),
                        None => {
                            let (path4, d4, c4) = op_finalized(
                                path_servers_converted(path3, method, openapi),
                                p,
                                method,
                                container,
                                openapi,
                                c,
                                o3,
                            );
                            (path4, d4, c4, o3, None)
                        },
                    }
                },
            }
        },
    }
}

/// Process a single operation within a path item.
pub fn process_operation(
    path: &mut JsonValue,
    p: &str,
    method: &str,
    container_name: &str,
    openapi: &mut JsonValue,
    cache: &mut RbCache,
    options: &mut Options,
) -> (r: Result<(), S2OError>)
    ensures
        (final(path)@, final(openapi)@, final(cache)@, final(options)@, error::failure(r))
            == op_processed(
            old(path)@,
            p@,
            method@,
            container_name@,
            old(openapi)@,
            old(cache)@,
            old(options)@,
        ),
{
    // Merge applicable path-level parameters into the operation.
    merge_path_params(path, p, method, openapi, options)?;

    // Operation-level parameters.
    process_op_params(path, p, method, openapi, options)?;
    tidy_operation(path, method, options);

    // Responses.
    process_operation_responses(path, method, openapi, options)?;

    // schemes and servers.
    convert_operation_servers(path, method, openapi);

    // Cleanup: drop consumes/produces/schemes, hash the request body.
    finalize_operation(path, p, method, container_name, openapi, cache, options);
    Ok(())
}

} // verus!
