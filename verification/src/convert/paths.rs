//! Path items.

use vstd::prelude::*;

use crate::common::{self, HTTP_METHODS};
use crate::convert::body::{self, effective_consumes};
use crate::convert::cache::{Cached, RbCache};
use crate::convert::operation::{self, process_operation, prune_parameters};
use crate::convert::parameter::{self, process_parameter};
use crate::convert::response::keys_of;
use crate::error::{self, S2OError};
use crate::json::{self, Json, Members, Text};
use crate::options::{Options, Settings};
use crate::value::{self, JsonValue, Object};

verus! {

/// The kinds of value that a promotion applies to.
#[derive(Clone, Copy, PartialEq, Eq, Structural)]
pub enum Kind {
    Object,
    String,
    Array,
}

/// Whether a value is of this kind.
pub open spec fn is_kind(v: Json, kind: Kind) -> bool {
    match kind {
        Kind::Object => v is Object,
        Kind::String => v is String,
        Kind::Array => v is Array,
    }
}

/// The members with `from` under the name `to`, when it is of this kind.
pub open spec fn member_promoted(m: Members, from: Text, to: Text, kind: Kind) -> Members {
    match json::lookup(m, from) {
        Some(v) => if is_kind(v, kind) {
            json::insert(json::remove(m, from), to, v)
        } else {
            m
        },
        None => m,
    }
}

/// The path with its `x-` members under their standard names.
pub open spec fn path_extensions_promoted(path: Json) -> Json {
    match path {
        Json::Object(m) => {
            let m1 = member_promoted(m, "x-trace"@, "trace"@, Kind::Object);
            let m2 = member_promoted(m1, "x-summary"@, "summary"@, Kind::String);
            let m3 = member_promoted(m2, "x-description"@, "description"@, Kind::String);
            Json::Object(member_promoted(m3, "x-servers"@, "servers"@, Kind::Array))
        },
        _ => path,
    }
}

/// Promote one member, when it is of this kind.
fn promote_member(map: &mut Object, from: &str, to: &str, kind: Kind)
    ensures
        final(map)@ == member_promoted(old(map)@, from@, to@, kind),
{
    let applies = match map.get(from) {
        Some(v) => match kind {
            Kind::Object => v.is_object(),
            Kind::String => v.is_string(),
            Kind::Array => v.is_array(),
        },
        None => false,
    };
    if applies {
        if let Some(v) = map.remove(from) {
            map.insert(to, v);
        }
    }
}

/// Promote path-level `x-` members to their standard names.
pub fn promote_path_extensions(path: &mut JsonValue)
    ensures
        final(path)@ == path_extensions_promoted(old(path)@),
{
    if let Some(map) = path.as_object_mut() {
        promote_member(map, "x-trace", "trace", Kind::Object);
        promote_member(map, "x-summary", "summary", Kind::String);
        promote_member(map, "x-description", "description", Kind::String);
        promote_member(map, "x-servers", "servers", Kind::Array);
    }
}

/// Whether a member of a path item is an operation.
pub open spec fn is_method(name: Text) -> bool {
    common::words(HTTP_METHODS@).contains(name) || name == "x-amazon-apigateway-any-method"@
}

/// Whether a member of a path item is an operation.
fn names_method(name: &str) -> (b: bool)
    ensures
        b == is_method(name@),
{
    let ghost ws = common::words(HTTP_METHODS@);
    let methods: [&'static str; 8] = HTTP_METHODS;
    let mut i: usize = 0;
    while i < methods.len()
        invariant
            i <= methods@.len(),
            methods@ == HTTP_METHODS@,
            ws == common::words(HTTP_METHODS@),
            forall|k: int| 0 <= k < i ==> #[trigger] ws[k] != name@,
        decreases methods@.len() - i,
    {
        assert(ws[i as int] == methods@[i as int]@);
        if *methods[i] == *name {
            return true;
        }
        i += 1;
    }
    *name == *"x-amazon-apigateway-any-method"
}

/// The path, the document, the cache, the settings and the failure after the
/// operations from position `i` on have been converted.
pub open spec fn methods_from(
    path: Json,
    names: Seq<Text>,
    i: nat,
    p: Text,
    container: Text,
    openapi: Json,
    c: Seq<Cached>,
    o: Settings,
) -> (Json, Json, Seq<Cached>, Settings, Option<Text>)
    decreases names.len() - i,
{
    if i >= names.len() {
        (path, openapi, c, o, None)
    } else if is_method(names[i as int]) {
        let (path1, d1, c1, o1, e1) = operation::op_processed(
            path,
            p,
            names[i as int],
            container,
            openapi,
            c,
            o,
        );
        match e1 {
            Some(_) => (path1, d1, c1, o1, e1),
            None => methods_from(path1, names, i + 1, p, container, d1, c1, o1),
        }
    } else {
        methods_from(path, names, i + 1, p, container, openapi, c, o)
    }
}

/// The path with its own parameters from position `i` to `n` converted, the
/// settings and the failure.
pub open spec fn path_params_from(path: Json, i: nat, n: nat, p: Text, openapi: Json, o: Settings) -> (
    Json,
    Settings,
    Option<Text>,
)
    decreases n - i,
{
    if i >= n {
        (path, o, None)
    } else {
        match path.member("parameters"@) {
            Some(Json::Array(a)) => if i < a.len() {
                let (param1, _, o1, e1) = parameter::param_processed(
                    a[i as int],
                    None,
                    p,
                    openapi,
                    body::media_types(None, openapi, "consumes"@),
                    o,
                );
                let path1 = path.with("parameters"@, Json::Array(a.update(i as int, param1)));
                match e1 {
                    Some(_) => (path1, o1, e1),
                    None => path_params_from(path1, i + 1, n, p, openapi, o1),
                }
            } else {
                path_params_from(path, i + 1, n, p, openapi, o)
            },
            _ => path_params_from(path, i + 1, n, p, openapi, o),
        }
    }
}

/// The path item, the document, the cache, the settings and the failure after one
/// path item has been converted.
pub open spec fn path_processed(
    path: Json,
    p: Text,
    container: Text,
    openapi: Json,
    c: Seq<Cached>,
    o: Settings,
) -> (Json, Json, Seq<Cached>, Settings, Option<Text>) {
    let path1 = path_extensions_promoted(path);
    let (path2, d2, c2, o2, e2) = methods_from(
        path1,
        json::keys(path1.members()),
        0,
        p,
        container,
        openapi,
        c,
        o,
    );
    match e2 {
        Some(_) => (path2, d2, c2, o2, e2),
        None => {
            let n = body::elements_of(path2.member("parameters"@)).len();
            let (path3, o3, e3) = path_params_from(path2, 0, n, p, d2, o2);
            match e3 {
                Some(_) => (path3, d2, c2, o3, e3),
                None => (operation::params_pruned(path3, o3), d2, c2, o3, None),
            }
        },
    }
}

/// The paths, the document, the cache, the settings and the failure after the
/// path items from position `i` on have been converted.
pub open spec fn paths_from(
    paths: Json,
    names: Seq<Text>,
    i: nat,
    container: Text,
    openapi: Json,
    c: Seq<Cached>,
    o: Settings,
) -> (Json, Json, Seq<Cached>, Settings, Option<Text>)
    decreases names.len() - i,
{
    if i >= names.len() {
        (paths, openapi, c, o, None)
    } else {
        let p = names[i as int];
        match paths.member(p) {
            Some(path) => {
                let (path1, d1, c1, o1, e1) = path_processed(
                    path,
                    p,
                    container,
                    openapi,
                    c,
                    o,
                );
                let paths1 = paths.with(p, path1);
                match e1 {
                    Some(_) => (paths1, d1, c1, o1, e1),
                    None => paths_from(paths1, names, i + 1, container, d1, c1, o1),
                }
            },
            None => paths_from(paths, names, i + 1, container, openapi, c, o),
        }
    }
}

/// The paths, the document, the cache, the settings and the failure after a paths
/// container has been converted.
pub open spec fn paths_processed(
    paths: Json,
    container: Text,
    openapi: Json,
    c: Seq<Cached>,
    o: Settings,
) -> (Json, Json, Seq<Cached>, Settings, Option<Text>) {
    paths_from(paths, json::keys(paths.members()), 0, container, openapi, c, o)
}

/// Convert the operations of a path item.
fn process_methods(
    path: &mut JsonValue,
    p: &str,
    container_name: &str,
    openapi: &mut JsonValue,
    cache: &mut RbCache,
    options: &mut Options,
) -> (r: Result<(), S2OError>)
    ensures
        (final(path)@, final(openapi)@, final(cache)@, final(options)@, error::failure(r))
            == methods_from(
            old(path)@,
            json::keys(old(path)@.members()),
            0,
            p@,
            container_name@,
            old(openapi)@,
            old(cache)@,
            old(options)@,
        ),
{
    let names = keys_of(Some(&*path));
    let ghost ns = json::texts(names@);
    let mut i: usize = 0;
    while i < names.len()
        invariant
            i <= names@.len(),
            ns == json::texts(names@),
            ns == json::keys(old(path)@.members()),
            methods_from(
                old(path)@,
                ns,
                0,
                p@,
                container_name@,
                old(openapi)@,
                old(cache)@,
                old(options)@,
            ) == methods_from(
                path@,
                ns,
                i as nat,
                p@,
                container_name@,
                openapi@,
                cache@,
                options@,
            ),
        decreases names@.len() - i,
    {
        let method = names[i].as_str();
        assert(ns[i as int] == method@);
        if names_method(method) {
            process_operation(path, p, method, container_name, openapi, cache, options)?;
        }
        i += 1;
    }
    Ok(())
}

/// Convert one parameter in a list.
fn process_listed_param(
    path: &mut JsonValue,
    i: usize,
    p: &str,
    openapi: &JsonValue,
    options: &mut Options,
) -> (r: Result<(), S2OError>)
    requires
        old(path)@.member("parameters"@) matches Some(Json::Array(a)) && i < a.len(),
    ensures
        ({
            let a = old(path)@.member("parameters"@)->0->Array_0;
            let (param1, _, o1, e1) = parameter::param_processed(
                a[i as int],
                None,
                p@,
                openapi@,
                body::media_types(None, openapi@, "consumes"@),
                old(options)@,
            );
            &&& final(path)@ == old(path)@.with(
                "parameters"@,
                Json::Array(a.update(i as int, param1)),
            )
            &&& final(options)@ == o1
            &&& error::failure(r) == e1
        }),
{
    let consumes = effective_consumes(None, openapi);
    let mut none: Option<JsonValue> = None;
    let ghost a0 = path@.member("parameters"@)->0->Array_0;
    if let Some(params) = path.get_mut("parameters") {
        if let Some(list) = params.as_array_mut() {
            let ghost before = value::views(list@);
            assert(before[i as int] == list@[i as int]@);
            let result = process_parameter(
                &mut list[i],
                &mut none,
                p,
                openapi,
                &consumes,
                options,
            );
            assert(value::views(list@) =~= before.update(i as int, list@[i as int]@));
            return result;
        }
    }
    assert(false);
    Ok(())
}

/// Convert the path-level parameters.
fn process_path_params(path: &mut JsonValue, p: &str, openapi: &JsonValue, options: &mut Options) -> (r:
    Result<(), S2OError>)
    ensures
        (final(path)@, final(options)@, error::failure(r)) == path_params_from(
            old(path)@,
            0,
            body::elements_of(old(path)@.member("parameters"@)).len(),
            p@,
            openapi@,
            old(options)@,
        ),
{
    let n: usize = match path.get("parameters") {
        Some(v) => match v.as_array() {
            Some(a) => a.len(),
            None => 0,
        },
        None => 0,
    };
    let mut i: usize = 0;
    while i < n
        invariant
            i <= n,
            n == body::elements_of(old(path)@.member("parameters"@)).len(),
            path_params_from(old(path)@, 0, n as nat, p@, openapi@, old(options)@)
                == path_params_from(path@, i as nat, n as nat, p@, openapi@, options@),
        decreases n - i,
    {
        let fits = match path.get("parameters") {
            Some(v) => match v.as_array() {
                Some(a) => i < a.len(),
                None => false,
            },
            None => false,
        };
        if fits {
            process_listed_param(path, i, p, openapi, options)?;
        }
        i += 1;
    }
    Ok(())
}

/// Convert one path item.
fn process_path(
    path: &mut JsonValue,
    p: &str,
    container_name: &str,
    openapi: &mut JsonValue,
    cache: &mut RbCache,
    options: &mut Options,
) -> (r: Result<(), S2OError>)
    ensures
        (final(path)@, final(openapi)@, final(cache)@, final(options)@, error::failure(r))
            == path_processed(
            old(path)@,
            p@,
            container_name@,
            old(openapi)@,
            old(cache)@,
            old(options)@,
        ),
{
    promote_path_extensions(path);
    process_methods(path, p, container_name, openapi, cache, options)?;

    // Path-level parameters as components.
    process_path_params(path, p, openapi, options)?;
    prune_parameters(path, options);
    Ok(())
}

/// Process a paths container, converting operations and parameters.
///
/// `openapi` is mutable but holds no reference to `container`, which the caller
/// detaches first. Internal parameter `$ref` deref reads from `openapi`.
pub fn process_paths(
    container: &mut JsonValue,
    container_name: &str,
    openapi: &mut JsonValue,
    cache: &mut RbCache,
    options: &mut Options,
) -> (r: Result<(), S2OError>)
    ensures
        (final(container)@, final(openapi)@, final(cache)@, final(options)@, error::failure(r))
            == paths_processed(
            old(container)@,
            container_name@,
            old(openapi)@,
            old(cache)@,
            old(options)@,
        ),
{
    let names = keys_of(Some(&*container));
    let ghost ns = json::texts(names@);
    let mut i: usize = 0;
    while i < names.len()
        invariant
            i <= names@.len(),
            ns == json::texts(names@),
            ns == json::keys(old(container)@.members()),
            paths_from(
                old(container)@,
                ns,
                0,
                container_name@,
                old(openapi)@,
                old(cache)@,
                old(options)@,
            ) == paths_from(
                container@,
                ns,
                i as nat,
                container_name@,
                openapi@,
                cache@,
                options@,
            ),
        decreases names@.len() - i,
    {
        let p = names[i].as_str();
        assert(ns[i as int] == p@);
        if let Some(path) = container.get_mut(p) {
            process_path(path, p, container_name, openapi, cache, options)?;
        }
        i += 1;
    }
    Ok(())
}

} // verus!
