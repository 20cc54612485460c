//! The component buckets.

use vstd::prelude::*;

use crate::common::{self, list_contains, sanitise, sanitise_all, truthy};
use crate::convert::body::{self, effective_consumes};
use crate::convert::cache::{self, hash_body, Cached, RbCache};
use crate::convert::examples;
use crate::convert::parameter::{self, process_parameter};
use crate::convert::response::{self, keys_of, process_response, process_response_headers};
use crate::convert::security::{self, process_security_scheme};
use crate::error::{self, warn_or_error, S2OError};
use crate::fixup::{self, fix_up_schema};
use crate::jptr;
use crate::json::{self, Json, Members, Text};
use crate::laws;
use crate::options::{Options, Settings};
use crate::suffix::{self, SuffixCounter};
use crate::text;
use crate::value::{self, cloned, get_at, get_at_mut, JsonValue, Object};

verus! {

// --- buckets ---------------------------------------------------------------

/// The path of a bucket.
pub open spec fn bucket_path(bucket: Text) -> Seq<Text> {
    seq!["components"@, bucket]
}

/// The path of a component.
pub open spec fn component_path(bucket: Text, name: Text) -> Seq<Text> {
    seq!["components"@, bucket, name]
}

/// The names in a bucket.
pub open spec fn bucket_names(openapi: Json, bucket: Text) -> Seq<Text> {
    json::keys(examples::members_of(json::value_at(openapi, bucket_path(bucket), 0)))
}

/// The document with the component `from` of a bucket under the name `to`, the name
/// that it has then, and the failure. That the new name is taken is a problem of the
/// component, which keeps its name where the problem is no failure.
pub open spec fn component_renamed(
    openapi: Json,
    bucket: Text,
    from: Text,
    to: Text,
    label: Text,
    o: Settings,
) -> (Json, Text, Option<Text>) {
    match json::value_at(openapi, bucket_path(bucket), 0) {
        Some(Json::Object(m)) => if from == to {
            (openapi, to, None)
        } else if json::has_key(m, to) {
            match json::value_at(openapi, component_path(bucket, from), 0) {
                Some(c) => {
                    let (c1, e1) = error::warned(c, label + to, o);
                    (json::with_at(openapi, component_path(bucket, from), 0, c1), from, e1)
                },
                None => (openapi, from, error::warned(Json::Null, label + to, o).1),
            }
        } else {
            match json::lookup(m, from) {
                Some(v) => (
                    json::with_at(
                        openapi,
                        bucket_path(bucket),
                        0,
                        Json::Object(json::insert(json::remove(m, from), to, v)),
                    ),
                    to,
                    None,
                ),
                None => (openapi, to, None),
            }
        },
        _ => (openapi, to, None),
    }
}

/// The names in a bucket.
fn list_bucket(openapi: &JsonValue, bucket: &str) -> (r: Vec<String>)
    ensures
        json::texts(r@) == bucket_names(openapi@, bucket@),
{
    let names: [&str; 2] = ["components", bucket];
    assert(value::names_of(names@) =~= bucket_path(bucket@));
    keys_of(get_at(openapi, &names))
}

/// Rename a component, unless the new name is taken, and return the name that it has
/// then.
fn rename_component(
    openapi: &mut JsonValue,
    bucket: &str,
    from: &str,
    to: &str,
    label: &str,
    options: &Options,
) -> (r: Result<String, S2OError>)
    ensures
        ({
            let (d1, name, e1) = component_renamed(
                old(openapi)@,
                bucket@,
                from@,
                to@,
                label@,
                options@,
            );
            &&& final(openapi)@ == d1
            &&& match r {
                Ok(n) => e1 is None && n@ == name,
                Err(e) => e1 == Some(e.message@),
            }
        }),
{
    if *from == *to {
        return Ok(to.to_owned());
    }
    let names: [&str; 2] = ["components", bucket];
    assert(value::names_of(names@) =~= bucket_path(bucket@));
    let (taken, there) = match get_at(openapi, &names) {
        Some(v) => match v.as_object() {
            Some(m) => (m.contains_key(to), m.contains_key(from)),
            None => (false, false),
        },
        None => (false, false),
    };
    if taken {
        let message = text::cat(label, to);
        let at: [&str; 3] = ["components", bucket, from];
        assert(value::names_of(at@) =~= component_path(bucket@, from@));
        if let Some(component) = get_at_mut(openapi, &at) {
            warn_or_error(message.as_str(), component, options)?;
        } else {
            let mut nothing = JsonValue::Null;
            warn_or_error(message.as_str(), &mut nothing, options)?;
        }
        return Ok(from.to_owned());
    }
    if there {
        if let Some(v) = get_at_mut(openapi, &names) {
            if let Some(m) = v.as_object_mut() {
                if let Some(c) = m.remove(from) {
                    m.insert(to, c);
                }
            }
        }
    }
    Ok(to.to_owned())
}

// --- security schemes ------------------------------------------------------

/// The document with the security schemes from position `i` on converted, the
/// settings and the failure.
pub open spec fn schemes_from(openapi: Json, names: Seq<Text>, i: nat, o: Settings) -> (
    Json,
    Settings,
    Option<Text>,
)
    decreases names.len() - i,
{
    if i >= names.len() {
        (openapi, o, None)
    } else {
        let sname = common::sanitised(names[i as int]);
        let (d1, name, e1) = component_renamed(
            openapi,
            "securitySchemes"@,
            names[i as int],
            sname,
            "Duplicate sanitised securityScheme name "@,
            o,
        );
        match e1 {
            Some(_) => (d1, o, e1),
            None => {
                let at = component_path("securitySchemes"@, name);
                match json::value_at(d1, at, 0) {
                    Some(scheme) => {
                        let (s2, o2, e2) = security::scheme_fixed(scheme, o);
                        let d2 = json::with_at(d1, at, 0, s2);
                        match e2 {
                            Some(_) => (d2, o2, e2),
                            None => schemes_from(d2, names, i + 1, o2),
                        }
                    },
                    None => schemes_from(d1, names, i + 1, o),
                }
            },
        }
    }
}

/// The document with its security schemes converted, the settings and the
/// failure.
pub open spec fn security_schemes_processed(openapi: Json, o: Settings) -> (
    Json,
    Settings,
    Option<Text>,
) {
    schemes_from(openapi, bucket_names(openapi, "securitySchemes"@), 0, o)
}

/// Sanitise and convert each security scheme.
pub fn process_security_schemes(openapi: &mut JsonValue, options: &mut Options) -> (r: Result<
    (),
    S2OError,
>)
    ensures
        (final(openapi)@, final(options)@, error::failure(r)) == security_schemes_processed(
            old(openapi)@,
            old(options)@,
        ),
{
    let names = list_bucket(openapi, "securitySchemes");
    let ghost ns = json::texts(names@);
    let mut i: usize = 0;
    while i < names.len()
        invariant
            i <= names@.len(),
            ns == json::texts(names@),
            ns == bucket_names(old(openapi)@, "securitySchemes"@),
            schemes_from(old(openapi)@, ns, 0, old(options)@) == schemes_from(
                openapi@,
                ns,
                i as nat,
                options@,
            ),
        decreases names@.len() - i,
    {
        let s = names[i].as_str();
        assert(ns[i as int] == s@);
        let sname = sanitise(s);
        let name = rename_component(
            openapi,
            "securitySchemes",
            s,
            sname.as_str(),
            "Duplicate sanitised securityScheme name ",
            options,
        )?;
        let at: [&str; 3] = ["components", "securitySchemes", name.as_str()];
        assert(value::names_of(at@) =~= component_path("securitySchemes"@, name@));
        if let Some(scheme) = get_at_mut(openapi, &at) {
            process_security_scheme(scheme, options)?;
        }
        i += 1;
    }
    Ok(())
}

// --- schemas ---------------------------------------------------------------

/// The first suffix with which the name `sname` is free.
pub open spec fn free_name_suffix(m: Members, sname: Text) -> Text {
    suffix::suffix_at(
        None,
        suffix::first_free(|k: nat| json::has_key(m, sname + suffix::suffix_at(None, k))),
    )
}

/// The name that a schema gets.
pub open spec fn schema_final_name(openapi: Json, s: Text) -> Text {
    let sname = common::sanitised_all(s);
    if s == sname {
        sname
    } else {
        match json::value_at(openapi, bucket_path("schemas"@), 0) {
            Some(Json::Object(m)) => sname + free_name_suffix(m, sname),
            _ => sname,
        }
    }
}

/// The document with the schema `s` under the name `name`.
pub open spec fn schema_renamed(openapi: Json, s: Text, name: Text) -> Json {
    if s == common::sanitised_all(s) {
        openapi
    } else {
        match json::value_at(openapi, bucket_path("schemas"@), 0) {
            Some(Json::Object(m)) => match json::lookup(m, s) {
                Some(v) => json::with_at(
                    openapi,
                    bucket_path("schemas"@),
                    0,
                    Json::Object(json::insert(json::remove(m, s), name, v)),
                ),
                None => openapi,
            },
            _ => openapi,
        }
    }
}

/// The document with the schemas from position `i` on renamed and repaired, the
/// new names, the settings and the failure.
pub open spec fn schemas_from(
    openapi: Json,
    names: Seq<Text>,
    i: nat,
    renamed: Members,
    o: Settings,
) -> (Json, Members, Settings, Option<Text>)
    decreases names.len() - i,
{
    if i >= names.len() {
        (openapi, renamed, o, None)
    } else {
        let s = names[i as int];
        let name = schema_final_name(openapi, s);
        let d1 = schema_renamed(openapi, s, name);
        let renamed1 = json::insert(renamed, s, Json::String(name));
        let at = component_path("schemas"@, name);
        match json::value_at(d1, at, 0) {
            Some(schema) => {
                let (s2, o2, e2) = fixup::schema_fixed(schema, o);
                let d2 = json::with_at(d1, at, 0, s2);
                match e2 {
                    Some(_) => (d2, renamed1, o2, e2),
                    None => schemas_from(d2, names, i + 1, renamed1, o2),
                }
            },
            None => schemas_from(d1, names, i + 1, renamed1, o),
        }
    }
}

/// The document with its schemas renamed and repaired, the new names, the
/// settings and the failure.
pub open spec fn schemas_processed(openapi: Json, o: Settings) -> (
    Json,
    Members,
    Settings,
    Option<Text>,
) {
    schemas_from(openapi, bucket_names(openapi, "schemas"@), 0, Seq::empty(), o)
}

/// Find the first suffix with which a name is free, and return the name.
fn find_free_member(m: &Object, sname: &str) -> (r: String)
    ensures
        r@ == sname@ + free_name_suffix(m@, sname@),
{
    let ghost taken = |k: nat| json::has_key(m@, sname@ + suffix::suffix_at(None, k));
    let ghost bound = suffix::pow10(suffix::longest_name(m@, 0));
    let mut counter = SuffixCounter::empty();
    let ghost mut k: nat = 0;
    loop
        invariant
            counter@ == suffix::suffix_after(None, k),
            taken == (|k: nat| json::has_key(m@, sname@ + suffix::suffix_at(None, k))),
            forall|j: nat| j < k ==> #[trigger] taken(j),
            k <= bound,
            bound == suffix::pow10(suffix::longest_name(m@, 0)),
        decreases bound - k,
    {
        let name = text::cat(sname, counter.as_str().as_str());
        if !m.contains_key(name.as_str()) {
            proof {
                assert(!taken(k));
                suffix::first_free_is(taken, k);
            }
            return name;
        }
        proof {
            if k >= bound {
                suffix::long_suffix(None, k, suffix::longest_name(m@, 0));
                laws::index_found(m@, name@, 0);
                suffix::name_is_short(m@, 0, json::index_of(m@, name@));
            }
            assert(taken(k));
            k = k + 1;
        }
        counter = counter.next();
    }
}

/// Rename one schema and return its new name.
fn rename_schema(openapi: &mut JsonValue, s: &str) -> (r: String)
    ensures
        r@ == schema_final_name(old(openapi)@, s@),
        final(openapi)@ == schema_renamed(old(openapi)@, s@, r@),
{
    let sname = sanitise_all(s);
    if *s == *sname.as_str() {
        return sname;
    }
    let names: [&str; 2] = ["components", "schemas"];
    assert(value::names_of(names@) =~= bucket_path("schemas"@));
    let (name, there): (String, bool) = match get_at(openapi, &names) {
        Some(v) => match v.as_object() {
            Some(m) => (find_free_member(m, sname.as_str()), m.contains_key(s)),
            None => (sname, false),
        },
        None => (sname, false),
    };
    if there {
        if let Some(v) = get_at_mut(openapi, &names) {
            if let Some(m) = v.as_object_mut() {
                if let Some(c) = m.remove(s) {
                    m.insert(name.as_str(), c);
                }
            }
        }
    }
    name
}

/// Sanitise, deduplicate, and fix every component schema.
pub fn process_schemas(
    openapi: &mut JsonValue,
    component_names: &mut Object,
    options: &mut Options,
) -> (r: Result<(), S2OError>)
    ensures
        (final(openapi)@, final(component_names)@, final(options)@, error::failure(r))
            == schemas_from(
            old(openapi)@,
            bucket_names(old(openapi)@, "schemas"@),
            0,
            old(component_names)@,
            old(options)@,
        ),
{
    let names = list_bucket(openapi, "schemas");
    let ghost ns = json::texts(names@);
    let mut i: usize = 0;
    while i < names.len()
        invariant
            i <= names@.len(),
            ns == json::texts(names@),
            ns == bucket_names(old(openapi)@, "schemas"@),
            schemas_from(old(openapi)@, ns, 0, old(component_names)@, old(options)@)
                == schemas_from(openapi@, ns, i as nat, component_names@, options@),
        decreases names@.len() - i,
    {
        let s = names[i].as_str();
        assert(ns[i as int] == s@);
        let name = rename_schema(openapi, s);
        component_names.insert(s, JsonValue::text(name.as_str()));
        let at: [&str; 3] = ["components", "schemas", name.as_str()];
        assert(value::names_of(at@) =~= component_path("schemas"@, name@));
        if let Some(schema) = get_at_mut(openapi, &at) {
            fix_up_schema(schema, options)?;
        }
        i += 1;
    }
    Ok(())
}

// --- parameters ------------------------------------------------------------

/// The document with the component parameters from position `i` on converted, the
/// settings and the failure.
pub open spec fn params_from(openapi: Json, names: Seq<Text>, i: nat, o: Settings) -> (
    Json,
    Settings,
    Option<Text>,
)
    decreases names.len() - i,
{
    if i >= names.len() {
        (openapi, o, None)
    } else {
        let sname = common::sanitised(names[i as int]);
        let (d1, name, e1) = component_renamed(
            openapi,
            "parameters"@,
            names[i as int],
            sname,
            "Duplicate sanitised parameter name "@,
            o,
        );
        match e1 {
            Some(_) => (d1, o, e1),
            None => {
                let at = component_path("parameters"@, name);
                match json::value_at(d1, at, 0) {
                    Some(param) => {
                        let (p2, _, o2, e2) = parameter::param_processed(
                            param,
                            None,
                            name,
                            d1,
                            body::media_types(None, d1, "consumes"@),
                            o,
                        );
                        match e2 {
                            Some(_) => (d1, o2, e2),
                            None => params_from(
                                json::with_at(d1, at, 0, p2),
                                names,
                                i + 1,
                                o2,
                            ),
                        }
                    },
                    None => params_from(d1, names, i + 1, o),
                }
            },
        }
    }
}

/// The document with its component parameters converted, the settings and the
/// failure.
pub open spec fn component_params_processed(openapi: Json, o: Settings) -> (
    Json,
    Settings,
    Option<Text>,
) {
    params_from(openapi, bucket_names(openapi, "parameters"@), 0, o)
}

/// Sanitise component parameters and convert them.
pub fn process_component_parameters(openapi: &mut JsonValue, options: &mut Options) -> (r: Result<
    (),
    S2OError,
>)
    ensures
        (final(openapi)@, final(options)@, error::failure(r)) == component_params_processed(
            old(openapi)@,
            old(options)@,
        ),
{
    let names = list_bucket(openapi, "parameters");
    let ghost ns = json::texts(names@);
    let mut i: usize = 0;
    while i < names.len()
        invariant
            i <= names@.len(),
            ns == json::texts(names@),
            ns == bucket_names(old(openapi)@, "parameters"@),
            params_from(old(openapi)@, ns, 0, old(options)@) == params_from(
                openapi@,
                ns,
                i as nat,
                options@,
            ),
        decreases names@.len() - i,
    {
        let pname = names[i].as_str();
        assert(ns[i as int] == pname@);
        let sname = sanitise(pname);
        let name = rename_component(
            openapi,
            "parameters",
            pname,
            sname.as_str(),
            "Duplicate sanitised parameter name ",
            options,
        )?;
        let consumes = effective_consumes(None, openapi);
        let at: [&str; 3] = ["components", "parameters", name.as_str()];
        assert(value::names_of(at@) =~= component_path("parameters"@, name@));
        if let Some(mut param) = cloned(get_at(openapi, &at)) {
            let mut none: Option<JsonValue> = None;
            process_parameter(
                &mut param,
                &mut none,
                name.as_str(),
                openapi,
                &consumes,
                options,
            )?;
            if let Some(slot) = get_at_mut(openapi, &at) {
                *slot = param;
            }
        }
        i += 1;
    }
    Ok(())
}

// --- responses -------------------------------------------------------------

/// The component response converted, the settings and the failure.
pub open spec fn component_response_processed(response: Json, openapi: Json, o: Settings) -> (
    Json,
    Settings,
    Option<Text>,
) {
    let (r1, o1, e1) = response::response_processed(response, None, openapi, o);
    match e1 {
        Some(_) => (r1, o1, e1),
        None => response::headers_processed(r1, o1),
    }
}

/// The document with the component responses from position `i` on converted, the
/// settings and the failure.
pub open spec fn responses_from(openapi: Json, names: Seq<Text>, i: nat, o: Settings) -> (
    Json,
    Settings,
    Option<Text>,
)
    decreases names.len() - i,
{
    if i >= names.len() {
        (openapi, o, None)
    } else {
        let sname = common::sanitised(names[i as int]);
        let (d1, name, e1) = component_renamed(
            openapi,
            "responses"@,
            names[i as int],
            sname,
            "Duplicate sanitised response name "@,
            o,
        );
        match e1 {
            Some(_) => (d1, o, e1),
            None => {
                let at = component_path("responses"@, name);
                match json::value_at(d1, at, 0) {
                    Some(response) => {
                        let (r2, o2, e2) = component_response_processed(response, d1, o);
                        match e2 {
                            Some(_) => (d1, o2, e2),
                            None => responses_from(
                                json::with_at(d1, at, 0, r2),
                                names,
                                i + 1,
                                o2,
                            ),
                        }
                    },
                    None => responses_from(d1, names, i + 1, o),
                }
            },
        }
    }
}

/// The document with its component responses converted, the settings and the
/// failure.
pub open spec fn component_responses_processed(openapi: Json, o: Settings) -> (
    Json,
    Settings,
    Option<Text>,
) {
    responses_from(openapi, bucket_names(openapi, "responses"@), 0, o)
}

/// Sanitise component responses and convert them.
pub fn process_component_responses(openapi: &mut JsonValue, options: &mut Options) -> (r: Result<
    (),
    S2OError,
>)
    ensures
        (final(openapi)@, final(options)@, error::failure(r)) == component_responses_processed(
            old(openapi)@,
            old(options)@,
        ),
{
    let names = list_bucket(openapi, "responses");
    let ghost ns = json::texts(names@);
    let mut i: usize = 0;
    while i < names.len()
        invariant
            i <= names@.len(),
            ns == json::texts(names@),
            ns == bucket_names(old(openapi)@, "responses"@),
            responses_from(old(openapi)@, ns, 0, old(options)@) == responses_from(
                openapi@,
                ns,
                i as nat,
                options@,
            ),
        decreases names@.len() - i,
    {
        let rname = names[i].as_str();
        assert(ns[i as int] == rname@);
        let sname = sanitise(rname);
        let name = rename_component(
            openapi,
            "responses",
            rname,
            sname.as_str(),
            "Duplicate sanitised response name ",
            options,
        )?;
        let at: [&str; 3] = ["components", "responses", name.as_str()];
        assert(value::names_of(at@) =~= component_path("responses"@, name@));
        if let Some(mut response) = cloned(get_at(openapi, &at)) {
            process_response(&mut response, None, openapi, options)?;
            process_response_headers(&mut response, options)?;
            if let Some(slot) = get_at_mut(openapi, &at) {
                *slot = response;
            }
        }
        i += 1;
    }
    Ok(())
}

// --- request bodies --------------------------------------------------------

/// The cache after the bodies from position `i` on have been seen.
pub open spec fn bodies_seen(c: Seq<Cached>, bodies: Members, i: nat) -> Seq<Cached>
    decreases bodies.len() - i,
{
    if i >= bodies.len() {
        c
    } else {
        let (name, rb) = bodies[i as int];
        let (c1, _) = cache::body_seen(c, cache::body_hash(rb) as i32, rb, name);
        bodies_seen(c1, bodies, i + 1)
    }
}

/// The request bodies that exist as components.
pub open spec fn existing_bodies(openapi: Json) -> Members {
    examples::members_of(json::value_at(openapi, bucket_path("requestBodies"@), 0))
}

/// Seed the cache with request bodies that already exist as components.
pub fn seed_existing_request_bodies(openapi: &JsonValue, cache: &mut RbCache)
    ensures
        final(cache)@ == bodies_seen(old(cache)@, existing_bodies(openapi@), 0),
{
    let names: [&str; 2] = ["components", "requestBodies"];
    assert(value::names_of(names@) =~= bucket_path("requestBodies"@));
    if let Some(v) = get_at(openapi, &names) {
        if let Some(m) = v.as_object() {
            let n: usize = m.len();
            let mut i: usize = 0;
            while i < n
                invariant
                    i <= n,
                    n == m@.len(),
                    bodies_seen(old(cache)@, m@, 0) == bodies_seen(cache@, m@, i as nat),
                decreases n - i,
            {
                let rb = m.value_at(i);
                let h: i32 = hash_body(rb);
                cache.get_or_insert(h, rb, m.key_at(i).as_str());
                i += 1;
            }
        }
    }
}

/// The state of the extraction of shared request bodies: the document, the names
/// given so far and the number for the next body without a name.
pub struct Extraction {
    pub openapi: Json,
    pub given: Seq<Text>,
    pub counter: nat,
}

/// The first suffix after `start` with which `name` has not been given.
pub open spec fn free_given_suffix(given: Seq<Text>, name: Text, start: Option<nat>) -> Text {
    suffix::suffix_at(
        start,
        suffix::first_free(|k: nat| given.contains(name + suffix::suffix_at(start, k))),
    )
}

/// The name that a shared request body gets.
pub open spec fn shared_name(x: Extraction, name: Text) -> Text {
    if name.len() == 0 {
        "requestBody"@ + free_given_suffix(x.given, "requestBody"@, Some(x.counter))
    } else {
        name + free_given_suffix(x.given, name, None)
    }
}

/// The document with a body under `components.requestBodies`, when there is such
/// a bucket.
pub open spec fn body_placed(openapi: Json, name: Text, v: Json) -> Json {
    match json::value_at(openapi, bucket_path("requestBodies"@), 0) {
        Some(bodies) => json::with_at(
            openapi,
            bucket_path("requestBodies"@),
            0,
            bodies.with(name, v),
        ),
        None => openapi,
    }
}

/// The document with a reference at the paths from position `i` on.
pub open spec fn refs_placed(openapi: Json, refs: Seq<Text>, i: nat, v: Json) -> Json
    decreases refs.len() - i,
{
    if i >= refs.len() {
        openapi
    } else {
        refs_placed(jptr::write(openapi, refs[i as int], v).0, refs, i + 1, v)
    }
}

/// The reference to a shared request body.
pub open spec fn shared_ref(name: Text) -> Json {
    Json::single("$ref"@, Json::String("#/components/requestBodies/"@ + name))
}

/// The extraction after one entry of the cache: a body that several paths hold is
/// shared.
pub open spec fn entry_extracted(x: Extraction, e: Cached) -> Extraction {
    if e.refs.len() <= 1 {
        x
    } else {
        let name = shared_name(x, e.name);
        Extraction {
            openapi: refs_placed(
                body_placed(x.openapi, name, e.body),
                e.refs,
                0,
                shared_ref(name),
            ),
            given: x.given.push(name),
            counter: if e.name.len() == 0 {
                x.counter + 1
            } else {
                x.counter
            },
        }
    }
}

/// The extraction after the entries from position `i` on.
pub open spec fn entries_extracted(x: Extraction, c: Seq<Cached>, i: nat) -> Extraction
    decreases c.len() - i,
{
    if i >= c.len() {
        x
    } else {
        entries_extracted(entry_extracted(x, c[i as int]), c, i + 1)
    }
}

/// The document with an empty bucket of request bodies.
pub open spec fn bodies_reset(openapi: Json) -> Json {
    match openapi.member("components"@) {
        Some(c) => openapi.with("components"@, c.with("requestBodies"@, Json::empty())),
        None => openapi,
    }
}

/// The document with a shared request body for each body that several paths hold.
pub open spec fn bodies_shared(openapi: Json, c: Seq<Cached>, o: Settings) -> Json {
    let d1 = bodies_reset(openapi);
    if o.resolve_internal {
        d1
    } else {
        entries_extracted(
            Extraction { openapi: d1, given: Seq::empty(), counter: 1 },
            c,
            0,
        ).openapi
    }
}

/// Find the first suffix with which a name has not been given, and return the
/// name.
fn find_free_given(given: &Vec<String>, name: &str, start: &SuffixCounter) -> (r: String)
    ensures
        r@ == name@ + free_given_suffix(json::texts(given@), name@, start@),
{
    let ghost gs = json::texts(given@);
    let ghost s0 = start@;
    let ghost taken = |k: nat| gs.contains(name@ + suffix::suffix_at(s0, k));
    let ghost bound = suffix::pow10(suffix::longest_text(gs, 0));
    let ghost mut k: nat = 0;
    let first = text::cat(name, start.as_str().as_str());
    assert(first@ == name@ + suffix::suffix_at(s0, 0));
    if !list_contains(given, first.as_str()) {
        proof {
            assert(!taken(0));
            suffix::first_free_is(taken, 0);
        }
        return first;
    }
    proof {
        assert(taken(0));
        k = 1;
        if 1 > bound {
            suffix::long_suffix(s0, 0, suffix::longest_text(gs, 0));
            let i = choose|i: int| 0 <= i < gs.len() && gs[i] == first@;
            suffix::text_is_short(gs, 0, i);
        }
    }
    let mut counter = start.next();
    loop
        invariant
            gs == json::texts(given@),
            counter@ == suffix::suffix_after(s0, k),
            s0 == start@,
            taken == (|k: nat| gs.contains(name@ + suffix::suffix_at(s0, k))),
            forall|j: nat| j < k ==> #[trigger] taken(j),
            1 <= k <= bound,
            bound == suffix::pow10(suffix::longest_text(gs, 0)),
        decreases bound - k,
    {
        let candidate = text::cat(name, counter.as_str().as_str());
        if !list_contains(given, candidate.as_str()) {
            proof {
                assert(!taken(k));
                suffix::first_free_is(taken, k);
            }
            return candidate;
        }
        proof {
            if k >= bound {
                suffix::long_suffix(s0, k, suffix::longest_text(gs, 0));
                let i = choose|i: int| 0 <= i < gs.len() && gs[i] == candidate@;
                suffix::text_is_short(gs, 0, i);
            }
            assert(taken(k));
            k = k + 1;
        }
        counter = counter.next();
    }
}

/// Put a reference at each path.
fn place_refs(openapi: &mut JsonValue, refs: &Vec<String>, v: &JsonValue)
    ensures
        final(openapi)@ == refs_placed(old(openapi)@, json::texts(refs@), 0, v@),
{
    let ghost rs = json::texts(refs@);
    let mut i: usize = 0;
    while i < refs.len()
        invariant
            i <= refs@.len(),
            rs == json::texts(refs@),
            refs_placed(old(openapi)@, rs, 0, v@) == refs_placed(openapi@, rs, i as nat, v@),
        decreases refs@.len() - i,
    {
        assert(rs[i as int] == refs@[i as int]@);
        jptr::set(openapi, refs[i].as_str(), v.clone());
        i += 1;
    }
}

/// Build shared request bodies for any body referenced more than once.
pub fn extract_shared_request_bodies(openapi: &mut JsonValue, cache: &RbCache, options: &Options)
    ensures
        final(openapi)@ == bodies_shared(old(openapi)@, cache@, options@),
{
    // Reset the bucket.
    if let Some(components) = openapi.get_mut("components") {
        components.put("requestBodies", JsonValue::empty_object());
    }
    if options.resolve_internal {
        return;
    }
    let names: [&str; 2] = ["components", "requestBodies"];
    assert(value::names_of(names@) =~= bucket_path("requestBodies"@));
    let mut given: Vec<String> = Vec::new();
    let mut counter = SuffixCounter::one();
    let ghost x0 = Extraction { openapi: openapi@, given: Seq::empty(), counter: 1 };
    assert(json::texts(given@) =~= Seq::<Text>::empty());
    let mut i: usize = 0;
    while i < cache.entries.len()
        invariant
            i <= cache.entries@.len(),
            counter@ is Some,
            value::names_of(names@) == bucket_path("requestBodies"@),
            entries_extracted(x0, cache@, 0) == entries_extracted(
                Extraction {
                    openapi: openapi@,
                    given: json::texts(given@),
                    counter: counter@->0,
                },
                cache@,
                i as nat,
            ),
        decreases cache.entries@.len() - i,
    {
        let entry = &cache.entries[i];
        assert(cache@[i as int] == entry@);
        if entry.refs.len() > 1 {
            let ghost gs = json::texts(given@);
            let name = if entry.name.as_str().is_empty() {
                let name = find_free_given(&given, "requestBody", &counter);
                counter = counter.next();
                name
            } else {
                find_free_given(&given, entry.name.as_str(), &SuffixCounter::empty())
            };
            let reference = JsonValue::single(
                "$ref",
                JsonValue::String(text::cat("#/components/requestBodies/", name.as_str())),
            );
            if let Some(bodies) = get_at_mut(openapi, &names) {
                bodies.put(name.as_str(), entry.body.clone());
            }
            place_refs(openapi, &entry.refs, &reference);
            given.push(name);
            assert(json::texts(given@) =~= gs.push(name@));
        }
        i += 1;
    }
}

// --- pruning ---------------------------------------------------------------

/// `m` without the members of `all` from position `i` on that were marked for
/// deletion.
pub open spec fn marked_dropped(m: Members, all: Members, i: nat) -> Members
    decreases all.len() - i,
{
    if i >= all.len() {
        m
    } else {
        let (key, v) = all[i as int];
        let m1 = if common::is_truthy(v.member("x-s2o-delete"@)) {
            json::remove(m, key)
        } else {
            m
        };
        marked_dropped(m1, all, i + 1)
    }
}

/// The document without the parameters that were consumed into request bodies.
pub open spec fn consumed_params_dropped(openapi: Json, o: Settings) -> Json {
    if o.debug {
        openapi
    } else {
        match json::value_at(openapi, bucket_path("parameters"@), 0) {
            Some(Json::Object(m)) => json::with_at(
                openapi,
                bucket_path("parameters"@),
                0,
                Json::Object(marked_dropped(m, m, 0)),
            ),
            _ => openapi,
        }
    }
}

/// Remove parameters that were consumed into request bodies.
pub fn remove_consumed_parameters(openapi: &mut JsonValue, options: &Options)
    ensures
        final(openapi)@ == consumed_params_dropped(old(openapi)@, options@),
{
    if options.debug {
        return;
    }
    let names: [&str; 2] = ["components", "parameters"];
    assert(value::names_of(names@) =~= bucket_path("parameters"@));
    let all: Object = match get_at(openapi, &names) {
        Some(v) => match v.as_object() {
            Some(m) => m.clone(),
            None => {
                return;
            },
        },
        None => {
            return;
        },
    };
    if let Some(v) = get_at_mut(openapi, &names) {
        if let Some(map) = v.as_object_mut() {
            let n: usize = all.len();
            let mut i: usize = 0;
            while i < n
                invariant
                    i <= n,
                    n == all@.len(),
                    marked_dropped(all@, all@, 0) == marked_dropped(map@, all@, i as nat),
                decreases n - i,
            {
                if truthy(all.value_at(i).get("x-s2o-delete")) {
                    map.remove(all.key_at(i).as_str());
                }
                i += 1;
            }
        }
    }
}

/// The names of the buckets that are dropped when they are empty.
pub const PRUNED_BUCKETS: [&'static str; 7] = [
    "responses",
    "parameters",
    "examples",
    "requestBodies",
    "securitySchemes",
    "headers",
    "schemas",
];

/// Whether an optional value is an empty object.
pub open spec fn is_empty_object(j: Option<Json>) -> bool {
    j matches Some(Json::Object(m)) && m.len() == 0
}

/// `m` without the empty buckets from position `i` on.
pub open spec fn empty_dropped(m: Members, buckets: Seq<Text>, i: nat) -> Members
    decreases buckets.len() - i,
{
    if i >= buckets.len() {
        m
    } else {
        let m1 = if is_empty_object(json::lookup(m, buckets[i as int])) {
            json::remove(m, buckets[i as int])
        } else {
            m
        };
        empty_dropped(m1, buckets, i + 1)
    }
}

/// The document without empty component buckets.
pub open spec fn components_pruned(openapi: Json) -> Json {
    let d1 = match openapi.member("components"@) {
        Some(Json::Object(m)) => openapi.with(
            "components"@,
            Json::Object(empty_dropped(m, common::words(PRUNED_BUCKETS@), 0)),
        ),
        _ => openapi,
    };
    if is_empty_object(d1.member("components"@)) {
        d1.without("components"@)
    } else {
        d1
    }
}

/// Whether an optional value is an empty object.
fn is_empty(v: Option<&JsonValue>) -> (b: bool)
    ensures
        b == is_empty_object(value::opt(v)),
{
    match v {
        Some(v) => match v.as_object() {
            Some(m) => m.is_empty(),
            None => false,
        },
        None => false,
    }
}

/// Drop the empty buckets.
fn drop_empty(map: &mut Object, buckets: &[&'static str])
    ensures
        final(map)@ == empty_dropped(old(map)@, common::words(buckets@), 0),
{
    let ghost ws = common::words(buckets@);
    let mut i: usize = 0;
    while i < buckets.len()
        invariant
            i <= buckets@.len(),
            ws == common::words(buckets@),
            empty_dropped(old(map)@, ws, 0) == empty_dropped(map@, ws, i as nat),
        decreases buckets@.len() - i,
    {
        assert(ws[i as int] == buckets@[i as int]@);
        if is_empty(map.get(buckets[i])) {
            map.remove(buckets[i]);
        }
        i += 1;
    }
}

/// Delete empty component buckets, then components itself if empty.
pub fn prune_empty_components(openapi: &mut JsonValue)
    ensures
        final(openapi)@ == components_pruned(old(openapi)@),
{
    let is_object = match openapi.get("components") {
        Some(v) => v.is_object(),
        None => false,
    };
    if is_object {
        if let Some(components) = openapi.get_mut("components") {
            if let Some(map) = components.as_object_mut() {
                drop_empty(map, &PRUNED_BUCKETS);
            }
        }
    }
    if is_empty(openapi.get("components")) {
        openapi.cut("components");
    }
}

// --- building --------------------------------------------------------------

/// The components with the member `from` of the document under the name `to`,
/// where there is one, and the document without it.
pub open spec fn extension_moved(components: Json, openapi: Json, from: Text, to: Text) -> (
    Json,
    Json,
) {
    match openapi.member(from) {
        Some(v) => (components.with(to, v), openapi.without(from)),
        None => (components, openapi),
    }
}

/// The member of the document, or an empty bucket.
pub open spec fn bucket_or_empty(openapi: Json, key: Text) -> Json {
    json::value_or(openapi.member(key), Json::empty())
}

/// The document with its top-level containers under `components`.
pub open spec fn components_built(openapi: Json) -> Json {
    let (c1, d1) = extension_moved(Json::empty(), openapi, "x-callbacks"@, "callbacks"@);
    let c2 = c1.with("examples"@, Json::empty()).with("headers"@, Json::empty());
    let (c3, d3) = extension_moved(c2, d1, "x-links"@, "links"@);
    let c4 = c3.with("parameters"@, bucket_or_empty(d3, "parameters"@)).with(
        "responses"@,
        bucket_or_empty(d3, "responses"@),
    ).with("requestBodies"@, Json::empty()).with(
        "securitySchemes"@,
        bucket_or_empty(d3, "securityDefinitions"@),
    ).with("schemas"@, bucket_or_empty(d3, "definitions"@));
    d3.with("components"@, c4).without("definitions"@).without("responses"@).without(
        "parameters"@,
    ).without("securityDefinitions"@)
}

/// Move an extension of the document under `components`.
fn move_extension(components: &mut JsonValue, openapi: &mut JsonValue, from: &str, to: &str)
    ensures
        (final(components)@, final(openapi)@) == extension_moved(
            old(components)@,
            old(openapi)@,
            from@,
            to@,
        ),
{
    if let Some(v) = cloned(openapi.get(from)) {
        components.put(to, v);
        openapi.cut(from);
    }
}

/// A copy of the member of the document, or an empty bucket.
fn copy_bucket(openapi: &JsonValue, key: &str) -> (r: JsonValue)
    ensures
        r@ == bucket_or_empty(openapi@, key@),
{
    match openapi.get(key) {
        Some(v) => v.clone(),
        None => JsonValue::empty_object(),
    }
}

/// Relocate top-level Swagger containers under `components`.
pub fn build_components(openapi: &mut JsonValue)
    ensures
        final(openapi)@ == components_built(old(openapi)@),
{
    let mut components = JsonValue::empty_object();
    move_extension(&mut components, openapi, "x-callbacks", "callbacks");
    components.put("examples", JsonValue::empty_object());
    components.put("headers", JsonValue::empty_object());
    move_extension(&mut components, openapi, "x-links", "links");
    components.put("parameters", copy_bucket(openapi, "parameters"));
    components.put("responses", copy_bucket(openapi, "responses"));
    components.put("requestBodies", JsonValue::empty_object());
    components.put("securitySchemes", copy_bucket(openapi, "securityDefinitions"));
    components.put("schemas", copy_bucket(openapi, "definitions"));
    openapi.put("components", components);
    openapi.cut("definitions");
    openapi.cut("responses");
    openapi.cut("parameters");
    openapi.cut("securityDefinitions");
}

} // verus!
