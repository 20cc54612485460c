//! Laws of the head of a document, of its empty buckets and of its parameterized host.

use vstd::prelude::*;

use crate::common;
use crate::convert::components;
use crate::convert::info;
use crate::convert::servers;
use crate::convert::skeleton;
use crate::json::{self, Json, Members, Text};
use crate::laws;
use crate::name_laws;
use crate::number;
use crate::options::Settings;
use crate::path_laws;
use crate::server_laws::servers_of;
use crate::text;

verus! {

/// The words that these laws speak of differ.
proof fn document_words()
    ensures
        "in"@.len() == 2,
        "url"@.len() == 3,
        "info"@.len() == 4 && "info"@[2] == 'f',
        "logo"@.len() == 4 && "logo"@[2] == 'g',
        "type"@.len() == 4 && "type"@[2] == 'p',
        "name"@.len() == 4 && "name"@[2] == 'm',
        "enum"@.len() == 4 && "enum"@[2] == 'u',
        "none"@.len() == 4 && "none"@[2] == 'n',
        "$ref"@.len() == 4 && "$ref"@[2] == 'e',
        "host"@.len() == 4 && "host"@[2] == 's',
        "title"@.len() == 5 && "title"@[0] == 't',
        "links"@.len() == 5 && "links"@[0] == 'l',
        "paths"@.len() == 5 && "paths"@[0] == 'p',
        "x-logo"@.len() == 6 && "x-logo"@[0] == 'x',
        "format"@.len() == 6 && "format"@[0] == 'f',
        "version"@.len() == 7 && "version"@[3] == 's' && "version"@[5] == 'o',
        "openapi"@.len() == 7 && "openapi"@[3] == 'n' && "openapi"@[5] == 'p',
        "swagger"@.len() == 7 && "swagger"@[3] == 'g' && "swagger"@[5] == 'e',
        "default"@.len() == 7 && "default"@[3] == 'a' && "default"@[5] == 'l',
        "servers"@.len() == 7 && "servers"@[3] == 'v' && "servers"@[5] == 'r',
        "schemes"@.len() == 7 && "schemes"@[3] == 'e' && "schemes"@[5] == 'e',
        "x-links"@.len() == 7 && "x-links"@[3] == 'i' && "x-links"@[5] == 'k',
        "headers"@.len() == 7 && "headers"@[3] == 'd' && "headers"@[5] == 'r',
        "schemas"@.len() == 7 && "schemas"@[3] == 'e' && "schemas"@[5] == 'a',
        "consumes"@.len() == 8 && "consumes"@[0] == 'c',
        "produces"@.len() == 8 && "produces"@[0] == 'p',
        "x-origin"@.len() == 8 && "x-origin"@[0] == 'x',
        "required"@.len() == 8 && "required"@[0] == 'r',
        "basePath"@.len() == 8 && "basePath"@[0] == 'b',
        "examples"@.len() == 8 && "examples"@[0] == 'e',
        "converter"@.len() == 9 && "converter"@[3] == 'v',
        "variables"@.len() == 9 && "variables"@[3] == 'i',
        "callbacks"@.len() == 9 && "callbacks"@[3] == 'l',
        "x-servers"@.len() == 9 && "x-servers"@[3] == 'e',
        "responses"@.len() == 9 && "responses"@[3] == 'p',
        "components"@.len() == 10 && "components"@[0] == 'c',
        "parameters"@.len() == 10 && "parameters"@[0] == 'p',
        "x-callbacks"@.len() == 11 && "x-callbacks"@[0] == 'x',
        "definitions"@.len() == 11 && "definitions"@[0] == 'd',
        "hostTemplate"@.len() == 12,
        "requestBodies"@.len() == 13,
        "termsOfService"@.len() == 14,
        "useSchemePrefix"@.len() == 15 && "useSchemePrefix"@[0] == 'u',
        "securitySchemes"@.len() == 15 && "securitySchemes"@[0] == 's',
        "securityDefinitions"@.len() == 19,
        "x-ms-parameterized-host"@.len() == 23,
{
    reveal_strlit("in");
    reveal_strlit("url");
    reveal_strlit("info");
    reveal_strlit("logo");
    reveal_strlit("type");
    reveal_strlit("name");
    reveal_strlit("enum");
    reveal_strlit("none");
    reveal_strlit("$ref");
    reveal_strlit("host");
    reveal_strlit("title");
    reveal_strlit("links");
    reveal_strlit("paths");
    reveal_strlit("x-logo");
    reveal_strlit("format");
    reveal_strlit("version");
    reveal_strlit("openapi");
    reveal_strlit("swagger");
    reveal_strlit("default");
    reveal_strlit("servers");
    reveal_strlit("schemes");
    reveal_strlit("x-links");
    reveal_strlit("headers");
    reveal_strlit("schemas");
    reveal_strlit("consumes");
    reveal_strlit("produces");
    reveal_strlit("x-origin");
    reveal_strlit("required");
    reveal_strlit("basePath");
    reveal_strlit("examples");
    reveal_strlit("converter");
    reveal_strlit("variables");
    reveal_strlit("callbacks");
    reveal_strlit("x-servers");
    reveal_strlit("responses");
    reveal_strlit("components");
    reveal_strlit("parameters");
    reveal_strlit("x-callbacks");
    reveal_strlit("definitions");
    reveal_strlit("hostTemplate");
    reveal_strlit("requestBodies");
    reveal_strlit("termsOfService");
    reveal_strlit("useSchemePrefix");
    reveal_strlit("securitySchemes");
    reveal_strlit("securityDefinitions");
    reveal_strlit("x-ms-parameterized-host");
}

// --- info ------------------------------------------------------------------

/// Whether a member is missing: it is not there, or it is null.
pub open spec fn is_missing(v: Option<Json>) -> bool {
    v is None || v == Some(Json::Null)
}

/// The members that the repair of the information object is about.
pub open spec fn is_info_word(key: Text) -> bool {
    ||| key == "title"@ || key == "version"@ || key == "logo"@ || key == "x-logo"@
    ||| key == "termsOfService"@
}

/// Whether a value is a text that is a URL.
pub open spec fn is_url(v: Json) -> bool {
    v matches Json::String(s) && info::url_like(s)
}

/// With patches on, the information object is repaired: a missing title and a missing
/// version become empty, a version that is no text becomes one, a logo becomes an
/// extension, and terms of service that are no URL go. Everything else stays.
pub proof fn information_is_patched(openapi: Json, o: Settings)
    requires
        o.patch,
        openapi.member("info"@) matches Some(i) && i is Object && json::distinct(i.members()),
    ensures
        ({
            let (r, o1, e) = info::info_fixed(openapi, o);
            let i = openapi.member("info"@)->0;
            let x = r.member("info"@)->0;
            &&& e is None
            &&& r.has("info"@)
            &&& x.member("title"@) == (if is_missing(i.member("title"@)) {
                Some(Json::String(""@))
            } else {
                i.member("title"@)
            })
            &&& x.member("version"@) is Some && x.member("version"@)->0 is String
            &&& i.member("version"@) matches Some(Json::String(s)) ==> x.member("version"@)
                == i.member("version"@)
            &&& is_missing(i.member("version"@)) ==> x.member("version"@) == Some(
                Json::String(""@),
            )
            &&& i.member("version"@) matches Some(Json::Number(n)) ==> x.member("version"@) == Some(
                Json::String(number::number_text(n)),
            )
            &&& !x.has("logo"@)
            &&& x.member("x-logo"@) == (if i.has("logo"@) {
                i.member("logo"@)
            } else {
                i.member("x-logo"@)
            })
            &&& x.member("termsOfService"@) == (if i.has("termsOfService"@) && is_url(
                i.member("termsOfService"@)->0,
            ) {
                i.member("termsOfService"@)
            } else {
                None
            })
            &&& forall|key: Text| !is_info_word(key) ==> #[trigger] x.member(key) == i.member(key)
            &&& forall|key: Text|
                key != "info"@ ==> #[trigger] r.member(key) == openapi.member(key)
        }),
{
    broadcast use laws::group_members;

    document_words();
    reveal_strlit("");
    let (d1, o1, e1) = info::info_supplied(openapi, o);
    assert(d1 == openapi && o1 == o && e1 is None);
    let (d2, o2, e2) = info::info_member_supplied(
        d1,
        "title"@,
        "(Patchable) info.title cannot be null"@,
        o1,
    );
    let (d3, o3, e3) = info::info_member_supplied(
        d2,
        "version"@,
        "(Patchable) info.version cannot be null"@,
        o2,
    );
    let (d4, o4, e4) = info::version_made_string(d3, o3);
    let (d5, o5, e5) = info::logo_moved(d4, o4);
    let (d6, o6, e6) = info::terms_fixed(d5, o5);
    assert(o2.patch && o3.patch && o4.patch && o5.patch);
    assert(e2 is None && e3 is None && e4 is None && e5 is None);
    assert(json::distinct(d2.member("info"@)->0.members()));
    assert(json::distinct(d3.member("info"@)->0.members()));
    assert(json::distinct(d4.member("info"@)->0.members()));
    assert(json::distinct(d5.member("info"@)->0.members()));
    assert(info::info_fixed(openapi, o) == (d6, o6, e6));
    name_of_nothing_is_no_url();
}

proof fn name_of_nothing_is_no_url()
    ensures
        !info::url_like(""@),
{
    reveal_strlit("");
    reveal_strlit(":");
    name_laws::search_misses(""@, ":"@, 0);
}

/// Without patches, an information object that needs one is a failure, and one that
/// needs none stays.
pub proof fn information_needs_patches(openapi: Json, o: Settings)
    requires
        !o.patch,
        openapi.member("info"@) matches Some(i) && i is Object,
    ensures
        ({
            let (r, o1, e) = info::info_fixed(openapi, o);
            let i = openapi.member("info"@)->0;
            &&& e is None <==> {
                &&& !is_missing(i.member("title"@))
                &&& i.member("version"@) is Some && i.member("version"@)->0 is String
                &&& !i.has("logo"@)
                &&& i.has("termsOfService"@) ==> is_url(i.member("termsOfService"@)->0)
            }
            &&& r == openapi && o1 == o
        }),
{
    document_words();
    name_of_nothing_is_no_url();
}

// --- media types -----------------------------------------------------------

/// A media type that stands alone becomes a list with that media type. A list stays.
pub proof fn lone_media_type_is_listed(openapi: Json, key: Text)
    ensures
        ({
            let r = skeleton::listed(openapi, key);
            &&& openapi.member(key) matches Some(Json::String(s)) ==> r.member(key) == Some(
                Json::Array(seq![Json::String(s)]),
            )
            &&& !(openapi.member(key) matches Some(Json::String(_))) ==> r == openapi
            &&& forall|k: Text| k != key ==> #[trigger] r.member(k) == openapi.member(k)
        }),
{
    broadcast use laws::group_members;

}

// --- empty buckets ---------------------------------------------------------

/// The buckets that go when they are empty.
pub open spec fn goes_when_empty(key: Text) -> bool {
    ||| key == "responses"@ || key == "parameters"@ || key == "examples"@
    ||| key == "requestBodies"@ || key == "securitySchemes"@ || key == "headers"@
    ||| key == "schemas"@
}

/// Whether a bucket is empty.
pub open spec fn is_empty_bucket(v: Option<Json>) -> bool {
    v matches Some(Json::Object(m)) && m.len() == 0
}

proof fn empty_ones_go(m: Members, names: Seq<Text>, i: nat)
    requires
        json::distinct(m),
    ensures
        ({
            let r = components::empty_dropped(m, names, i);
            &&& json::distinct(r)
            &&& forall|key: Text| #[trigger]
                json::lookup(r, key) == (if is_empty_bucket(json::lookup(m, key)) && exists|k: int|
                    i <= k < names.len() && #[trigger] names[k] == key {
                    None
                } else {
                    json::lookup(m, key)
                })
        }),
    decreases names.len() - i,
{
    if i < names.len() {
        let name = names[i as int];
        let m1 = if is_empty_bucket(json::lookup(m, name)) {
            json::remove(m, name)
        } else {
            m
        };
        laws::remove_keeps_distinct(m, name);
        laws::lookup_after_remove(m, name);
        empty_ones_go(m1, names, i + 1);
        let r = components::empty_dropped(m, names, i);
        assert(r == components::empty_dropped(m1, names, i + 1));
        assert forall|key: Text| #[trigger]
            json::lookup(r, key) == (if is_empty_bucket(json::lookup(m, key)) && exists|k: int|
                i <= k < names.len() && #[trigger] names[k] == key {
                None
            } else {
                json::lookup(m, key)
            }) by {
            if key != name {
                laws::lookup_remove_other(m, name, key);
                if exists|k: int| i <= k < names.len() && #[trigger] names[k] == key {
                    let k = choose|k: int| i <= k < names.len() && #[trigger] names[k] == key;
                    assert(i + 1 <= k);
                }
            } else {
                assert(names[i as int] == key);
            }
        }
    }
}

/// The empty buckets go, and no other bucket does. Where none is left, there are no
/// components.
pub proof fn empty_buckets_go(openapi: Json, m: Members)
    requires
        json::distinct(openapi.members()),
        openapi.member("components"@) == Some(Json::Object(m)),
        json::distinct(m),
    ensures
        ({
            let r = components::components_pruned(openapi);
            &&& forall|key: Text| #[trigger]
                r.member2("components"@, key) == (if goes_when_empty(key) && is_empty_bucket(
                    json::lookup(m, key),
                ) {
                    None
                } else {
                    json::lookup(m, key)
                })
            &&& r.member("components"@) matches Some(c) ==> c.members().len() > 0
            &&& forall|key: Text|
                key != "components"@ ==> #[trigger] r.member(key) == openapi.member(key)
        }),
{
    broadcast use laws::group_members;

    let ws = common::words(components::PRUNED_BUCKETS@);
    assert(ws =~= seq![
        "responses"@,
        "parameters"@,
        "examples"@,
        "requestBodies"@,
        "securitySchemes"@,
        "headers"@,
        "schemas"@,
    ]);
    assert(ws[0] == "responses"@);
    assert(ws[1] == "parameters"@);
    assert(ws[2] == "examples"@);
    assert(ws[3] == "requestBodies"@);
    assert(ws[4] == "securitySchemes"@);
    assert(ws[5] == "headers"@);
    assert(ws[6] == "schemas"@);
    empty_ones_go(m, ws, 0);
    let m1 = components::empty_dropped(m, ws, 0);
    let d1 = openapi.with("components"@, Json::Object(m1));
    let r = components::components_pruned(openapi);
    assert(d1.member("components"@) == Some(Json::Object(m1)));
    assert forall|key: Text| #[trigger]
        r.member2("components"@, key) == (if goes_when_empty(key) && is_empty_bucket(
            json::lookup(m, key),
        ) {
            None
        } else {
            json::lookup(m, key)
        }) by {
        assert(json::lookup(m1, key) == (if goes_when_empty(key) && is_empty_bucket(
            json::lookup(m, key),
        ) {
            None
        } else {
            json::lookup(m, key)
        }));
        if m1.len() == 0 {
            assert(json::lookup(m1, key) is None);
        }
    }
}

// --- parameterized hosts ---------------------------------------------------

/// Whether a parameter of a host names itself: it is no reference and has a name.
pub open spec fn names_itself(raw: Json) -> bool {
    &&& raw is Object
    &&& json::distinct(raw.members())
    &&& !(raw.member("$ref"@) matches Some(Json::String(_)))
    &&& raw.member("name"@) matches Some(Json::String(_))
}

/// Whether a value is the server variable of a parameter: it has the default of the
/// parameter, or the first of its values, or `none`. What else the parameter says stays,
/// but for its name, its place, its type and that it is required.
pub open spec fn is_variable_of(x: Json, raw: Json) -> bool {
    &&& x.member("default"@) == (match raw.member("default"@) {
        Some(v) => Some(v),
        None => match raw.member("enum"@) {
            Some(Json::Array(a)) => if a.len() > 0 {
                Some(a[0])
            } else {
                Some(Json::String("none"@))
            },
            _ => Some(Json::String("none"@)),
        },
    })
    &&& !x.has("name"@) && !x.has("in"@) && !x.has("type"@) && !x.has("required"@)
    &&& forall|key: Text|
        key != "default"@ && key != "name"@ && key != "in"@ && key != "type"@ && key
            != "required"@ ==> #[trigger] x.member(key) == raw.member(key)
}

proof fn variable_is_added(
    openapi: Json,
    msp: Text,
    idx: int,
    raw: Json,
    tokens: Seq<Text>,
    variables: Members,
)
    requires
        names_itself(raw),
        !text::starts(msp, "x-"@),
    ensures
        ({
            let r = servers::variable_added(openapi, msp, idx, raw, tokens, variables);
            let n = raw.text_member("name"@)->0;
            &&& json::lookup(r, n) matches Some(x) && is_variable_of(x, raw)
            &&& forall|key: Text|
                key != n ==> #[trigger] json::lookup(r, key) == json::lookup(variables, key)
        }),
{
    broadcast use laws::group_members;

    document_words();
    let p = raw.without("required"@).without("type"@).without("in"@);
    let v = servers::host_variable(openapi, raw);
    assert(v == (if p.has("default"@) {
        p
    } else {
        p.with("default"@, servers::first_value(p))
    }));
    let n = raw.text_member("name"@)->0;
    assert(servers::variable_name(v, idx, tokens) == n);
    let x = v.without("name"@);
    laws::lookup_after_insert(variables, n, x);
    assert(is_variable_of(x, raw));
    assert forall|key: Text| key != n implies #[trigger] json::lookup(
        servers::variable_added(openapi, msp, idx, raw, tokens, variables),
        key,
    ) == json::lookup(variables, key) by {
        laws::lookup_insert_other(variables, n, x, key);
    }
}

proof fn listed_are_added(
    openapi: Json,
    params: Seq<Json>,
    i: nat,
    tokens: Seq<Text>,
    variables: Members,
)
    requires
        forall|k: int| 0 <= k < params.len() ==> names_itself(#[trigger] params[k]),
        forall|k: int, q: int|
            0 <= k < params.len() && 0 <= q < params.len() && k != q ==> (
            #[trigger] params[k]).text_member("name"@) != (#[trigger] params[q]).text_member(
                "name"@,
            ),
    ensures
        ({
            let r = servers::listed_variables_from(openapi, params, i, tokens, variables);
            &&& forall|k: int|
                i <= k < params.len() ==> has_variable_of(r, #[trigger] params[k])
            &&& forall|key: Text|
                (forall|k: int|
                    i <= k < params.len() ==> !(#[trigger] params[k]).says("name"@, key))
                    ==> #[trigger] json::lookup(r, key) == json::lookup(variables, key)
        }),
    decreases params.len() - i,
{
    if i < params.len() {
        let raw = params[i as int];
        let msp = text::decimal(i);
        decimal_is_no_extension(i);
        let v1 = servers::variable_added(openapi, msp, i as int, raw, tokens, variables);
        variable_is_added(openapi, msp, i as int, raw, tokens, variables);
        listed_are_added(openapi, params, i + 1, tokens, v1);
        let r = servers::listed_variables_from(openapi, params, i, tokens, variables);
        let n = raw.text_member("name"@)->0;
        assert forall|k: int| i <= k < params.len() implies has_variable_of(
            r,
            #[trigger] params[k],
        ) by {
            if k == i {
                assert forall|q: int| i + 1 <= q < params.len() implies !(
                #[trigger] params[q]).says("name"@, n) by {
                    assert(params[q].text_member("name"@) != params[i as int].text_member(
                        "name"@,
                    ));
                }
                assert(json::lookup(r, n) == json::lookup(v1, n));
            }
        }
        assert forall|key: Text|
            (forall|k: int|
                i <= k < params.len() ==> !(#[trigger] params[k]).says(
                    "name"@,
                    key,
                )) implies #[trigger] json::lookup(r, key) == json::lookup(variables, key) by {
            assert(!params[i as int].says("name"@, key));
        }
    }
}

/// Whether some variables hold that of a parameter under its name.
pub open spec fn has_variable_of(variables: Members, raw: Json) -> bool {
    json::lookup(variables, raw.text_member("name"@)->0) matches Some(x) && is_variable_of(x, raw)
}

proof fn decimal_is_no_extension(n: nat)
    ensures
        !text::starts(text::decimal(n), "x-"@),
{
    reveal_strlit("x-");
    let t = text::decimal(n);
    path_laws::decimal_spells(n);
    if text::starts(t, "x-"@) {
        assert(t.subrange(0, 2)[0] == t[0]);
    }
}

/// A parameterized host without a scheme prefix becomes one server, behind those that
/// the document has. Its URL is the template of the host and the base path, and it has
/// the variables of the parameters of the host.
pub proof fn host_becomes_server(openapi: Json, swagger: Json, host: Json, params: Seq<Json>)
    requires
        json::distinct(openapi.members()),
        !openapi.has("servers"@) || openapi.member("servers"@)->0 is Array,
        swagger.member("x-ms-parameterized-host"@) == Some(host),
        host.member("parameters"@) == Some(Json::Array(params)),
        host.member("useSchemePrefix"@) == Some(Json::Bool(false)),
        forall|k: int| 0 <= k < params.len() ==> names_itself(#[trigger] params[k]),
        forall|k: int, q: int|
            0 <= k < params.len() && 0 <= q < params.len() && k != q ==> (
            #[trigger] params[k]).text_member("name"@) != (#[trigger] params[q]).text_member(
                "name"@,
            ),
    ensures
        ({
            let r = servers::parameterized_host_built(openapi, swagger);
            let s = servers_of(r);
            let n = servers_of(openapi).len() as int;
            let template = text_or_nothing(host.member("hostTemplate"@));
            let base = text_or_nothing(swagger.member("basePath"@));
            &&& s.len() == n + 1
            &&& s.take(n) == servers_of(openapi)
            &&& s[n].member("url"@) == Some(Json::String(template + base))
            &&& s[n].member("variables"@) matches Some(Json::Object(v)) && forall|k: int|
                0 <= k < params.len() ==> has_variable_of(v, #[trigger] params[k])
            &&& !r.has("x-ms-parameterized-host"@)
            &&& forall|key: Text|
                key != "servers"@ && key != "x-ms-parameterized-host"@ ==> #[trigger] r.member(key)
                    == openapi.member(key)
        }),
{
    broadcast use laws::group_members;

    document_words();
    reveal_strlit("");
    let url = servers::host_url(host, swagger);
    let template = text_or_nothing(host.member("hostTemplate"@));
    let base = text_or_nothing(swagger.member("basePath"@));
    assert(url =~= template + base);
    let tokens = servers::brace_tokens(url, 0);
    listed_are_added(openapi, params, 0, tokens, Seq::empty());
    let server = servers::host_server(openapi, host, url);
    let v = servers::listed_variables_from(openapi, params, 0, tokens, Seq::empty());
    assert(server.member("variables"@) == Some(Json::Object(v)));
    let a = servers_of(openapi);
    let d0 = openapi.with_new("servers"@, Json::Array(Seq::empty()));
    assert(d0.member("servers"@) == Some(Json::Array(a)));
    let d1 = d0.with("servers"@, Json::Array(a.push(server)));
    assert(servers::server_pushed(openapi, server) == d1);
    assert(servers::parameterized_host_built(openapi, swagger) == d1.without(
        "x-ms-parameterized-host"@,
    ));
    assert(a.push(server).take(a.len() as int) =~= a);
}

/// The text of an optional value, or nothing.
pub open spec fn text_or_nothing(v: Option<Json>) -> Text {
    match v {
        Some(Json::String(s)) => s,
        _ => Seq::empty(),
    }
}

proof fn copies_are_pushed(openapi: Json, schemes: Seq<Json>, i: nat, server: Json, url: Text)
    requires
        !openapi.has("servers"@) || openapi.member("servers"@)->0 is Array,
        json::distinct(openapi.members()),
        forall|k: int| 0 <= k < schemes.len() ==> (#[trigger] schemes[k]) is String,
        i <= schemes.len(),
    ensures
        ({
            let r = servers::scheme_servers_from(openapi, schemes, i, server, url);
            let s = servers_of(r);
            let n = servers_of(openapi).len();
            &&& json::distinct(r.members())
            &&& s.len() == n + schemes.len() - i
            &&& forall|k: int| 0 <= k < n ==> #[trigger] s[k] == servers_of(openapi)[k]
            &&& forall|k: int|
                n <= k < s.len() ==> #[trigger] s[k] == server.with(
                    "url"@,
                    Json::String(schemes[k - n + i]->String_0 + "://"@ + url),
                )
        }),
    decreases schemes.len() - i,
{
    broadcast use laws::group_members;

    if i < schemes.len() {
        assert(schemes[i as int] is String);
        let a = servers_of(openapi);
        let x = server.with("url"@, Json::String(schemes[i as int]->String_0 + "://"@ + url));
        let d0 = openapi.with_new("servers"@, Json::Array(Seq::empty()));
        assert(d0.member("servers"@) == Some(Json::Array(a)));
        let d1 = d0.with("servers"@, Json::Array(a.push(x)));
        assert(servers::server_pushed(openapi, x) == d1);
        copies_are_pushed(d1, schemes, i + 1, server, url);
        let s = servers_of(servers::scheme_servers_from(openapi, schemes, i, server, url));
        assert forall|k: int| 0 <= k < a.len() implies #[trigger] s[k] == a[k] by {
            assert(servers_of(d1)[k] == a[k]);
        }
        assert forall|k: int| a.len() <= k < s.len() implies #[trigger] s[k] == server.with(
            "url"@,
            Json::String(schemes[k - a.len() + i]->String_0 + "://"@ + url),
        ) by {
            if k == a.len() {
                assert(servers_of(d1)[k] == x);
            }
        }
    }
}

/// A parameterized host with a scheme prefix becomes a server for each scheme of the
/// document, in their order, behind those that the document has. The URL of each is the
/// scheme, the template of the host and the base path.
pub proof fn host_becomes_server_for_each_scheme(
    openapi: Json,
    swagger: Json,
    host: Json,
    schemes: Seq<Json>,
    k: int,
)
    requires
        json::distinct(openapi.members()),
        !openapi.has("servers"@) || openapi.member("servers"@)->0 is Array,
        swagger.member("x-ms-parameterized-host"@) == Some(host),
        host.member("useSchemePrefix"@) != Some(Json::Bool(false)),
        swagger.member("schemes"@) == Some(Json::Array(schemes)),
        forall|q: int| 0 <= q < schemes.len() ==> (#[trigger] schemes[q]) is String,
        0 <= k < schemes.len(),
    ensures
        ({
            let r = servers::parameterized_host_built(openapi, swagger);
            let s = servers_of(r);
            let n = servers_of(openapi).len() as int;
            let template = text_or_nothing(host.member("hostTemplate"@));
            let base = text_or_nothing(swagger.member("basePath"@));
            &&& s.len() == n + schemes.len()
            &&& s.take(n) == servers_of(openapi)
            &&& s[n + k].member("url"@) == Some(
                Json::String(schemes[k]->String_0 + "://"@ + (template + base)),
            )
            &&& !r.has("x-ms-parameterized-host"@)
        }),
{
    broadcast use laws::group_members;

    document_words();
    reveal_strlit("");
    let url = servers::host_url(host, swagger);
    let template = text_or_nothing(host.member("hostTemplate"@));
    let base = text_or_nothing(swagger.member("basePath"@));
    assert(url =~= template + base);
    let server = servers::host_server(openapi, host, url);
    copies_are_pushed(openapi, schemes, 0, server, url);
    let d1 = servers::scheme_servers_from(openapi, schemes, 0, server, url);
    let r = servers::parameterized_host_built(openapi, swagger);
    assert(r == d1.without("x-ms-parameterized-host"@));
    let s = servers_of(d1);
    let n = servers_of(openapi).len() as int;
    assert(s.take(n) =~= servers_of(openapi));
    assert(s[n + k] == server.with("url"@, Json::String(schemes[k]->String_0 + "://"@ + url)));
}

// --- the skeleton ----------------------------------------------------------

proof fn others_are_kept(m: Members, more: Members, i: int, key: Text)
    requires
        0 <= i,
        forall|k: int| i <= k < more.len() ==> (#[trigger] more[k]).0 != key,
    ensures
        json::lookup(json::insert_all(m, more, i), key) == json::lookup(m, key),
    decreases more.len() - i,
{
    if i < more.len() {
        let (name, v) = more[i];
        assert(more[i].0 != key);
        laws::lookup_insert_other(m, name, v, key);
        others_are_kept(json::insert(m, name, v), more, i + 1, key);
    }
}

proof fn all_are_kept(m: Members, more: Members, i: int, k: int)
    requires
        0 <= i,
        json::distinct(m),
        json::distinct(more),
        i <= k < more.len(),
    ensures
        json::lookup(json::insert_all(m, more, i), more[k].0) == Some(more[k].1),
    decreases more.len() - i,
{
    let (name, v) = more[i];
    laws::insert_keeps_distinct(m, name, v);
    if i == k {
        laws::lookup_after_insert(m, name, v);
        others_are_kept(json::insert(m, name, v), more, i + 1, more[k].0);
    } else {
        all_are_kept(json::insert(m, name, v), more, i + 1, k);
    }
}

proof fn all_stay_distinct(m: Members, more: Members, i: int)
    requires
        0 <= i,
        json::distinct(m),
    ensures
        json::distinct(json::insert_all(m, more, i)),
    decreases more.len() - i,
{
    if i < more.len() {
        laws::insert_keeps_distinct(m, more[i].0, more[i].1);
        all_stay_distinct(
            json::insert(m, more[i].0, more[i].1),
            more,
            i + 1,
        );
    }
}

/// The members of a document are copied, but for its version, and a version of the
/// target goes with them. The version is the one that was asked for, where that is one
/// of the third line.
pub proof fn document_is_copied(swagger: Json, o: Settings, key: Text)
    requires
        json::distinct(swagger.members()),
        !swagger.has("openapi"@) && !swagger.has("x-origin"@),
    ensures
        ({
            let r = skeleton::members_copied(swagger, o);
            &&& swagger.has(key) && key != "swagger"@ ==> r.member(key) == swagger.member(key)
            &&& !r.has("swagger"@)
            &&& r.member("openapi"@) == Some(
                Json::String(
                    match o.target_version {
                        Some(t) => if t.len() >= 2 && t[0] == '3' && t[1] == '.' {
                            t
                        } else {
                            "3.0.0"@
                        },
                        None => "3.0.0"@,
                    },
                ),
            )
            &&& !o.origin ==> !r.has("x-origin"@)
            &&& o.origin ==> (r.member("x-origin"@) matches Some(Json::Array(a)) && a.len() == 1
                && is_origin_of(a[0], swagger, o))
        }),
{
    broadcast use laws::group_members;

    document_words();
    reveal_strlit("3.");
    assert(crate::TARGET_VERSION@ == "3.0.0"@);
    if let Some(t) = o.target_version {
        if text::starts(t, "3."@) {
            assert(t.subrange(0, 2)[0] == t[0] && t.subrange(0, 2)[1] == t[1]);
        } else if t.len() >= 2 && t[0] == '3' && t[1] == '.' {
            assert(t.subrange(0, 2) =~= "3."@);
        }
    }
    let d0 = Json::empty().with("openapi"@, Json::String(skeleton::target_version(o)));
    let d1 = if o.origin {
        d0.with("x-origin"@, Json::Array(seq![skeleton::origin_entry(swagger, o)]))
    } else {
        d0
    };
    let m = swagger.members();
    assert(json::distinct(Json::empty().members()));
    all_stay_distinct(d1.members(), m, 0);
    let x = Json::Object(json::insert_all(d1.members(), m, 0));
    assert(skeleton::members_copied(swagger, o) == x.without("swagger"@));
    if swagger.has(key) {
        laws::index_found(m, key, 0);
        all_are_kept(d1.members(), m, 0, json::index_of(m, key));
    }
    assert forall|k: int| 0 <= k < m.len() implies (#[trigger] m[k]).0 != "openapi"@ && m[k].0
        != "x-origin"@ by {
        laws::index_is_first(m, m[k].0, 0, k);
    }
    others_are_kept(d1.members(), m, 0, "openapi"@);
    others_are_kept(d1.members(), m, 0, "x-origin"@);
    assert(x.member("openapi"@) == d1.member("openapi"@));
    assert(x.member("x-origin"@) == d1.member("x-origin"@));
    if o.origin {
        assert(is_origin_of(skeleton::origin_entry(swagger, o), swagger, o));
    }
}

/// Whether a value says where a document came from: its source, its format, its version
/// and what converted it.
pub open spec fn is_origin_of(x: Json, swagger: Json, o: Settings) -> bool {
    &&& x.member("url"@) == Some(
        Json::String(
            match o.source {
                Some(s) => s,
                None => "true"@,
            },
        ),
    )
    &&& x.member("format"@) == Some(Json::String("swagger"@))
    &&& swagger.has("swagger"@) ==> x.member("version"@) == swagger.member("swagger"@)
    &&& x.has("converter"@)
}

/// The callbacks and the links of a document go among its components, and the buckets
/// that a conversion fills start empty.
pub proof fn extensions_become_buckets(openapi: Json)
    requires
        json::distinct(openapi.members()),
    ensures
        ({
            let r = components::components_built(openapi);
            &&& r.member2("components"@, "callbacks"@) == openapi.member("x-callbacks"@)
            &&& r.member2("components"@, "links"@) == openapi.member("x-links"@)
            &&& !r.has("x-callbacks"@) && !r.has("x-links"@)
            &&& is_empty_bucket(r.member2("components"@, "examples"@))
            &&& is_empty_bucket(r.member2("components"@, "headers"@))
            &&& is_empty_bucket(r.member2("components"@, "requestBodies"@))
        }),
{
    broadcast use laws::group_members;

    document_words();
    let (c1, d1) = components::extension_moved(
        Json::empty(),
        openapi,
        "x-callbacks"@,
        "callbacks"@,
    );
    let c2 = c1.with("examples"@, Json::empty()).with("headers"@, Json::empty());
    let (c3, d3) = components::extension_moved(c2, d1, "x-links"@, "links"@);
    assert(json::distinct(d1.members()) && json::distinct(d3.members()));
    assert(c3.member("callbacks"@) == openapi.member("x-callbacks"@));
    assert(c3.member("links"@) == openapi.member("x-links"@));
}

/// Listed servers replace those that were derived from the host. Without a list those
/// stay.
pub proof fn listed_servers_replace(openapi: Json)
    requires
        json::distinct(openapi.members()),
    ensures
        ({
            let r = skeleton::servers_replaced(openapi);
            &&& openapi.member("x-servers"@) matches Some(Json::Array(a)) ==> r.member("servers"@)
                == Some(Json::Array(a)) && !r.has("x-servers"@)
            &&& !(openapi.member("x-servers"@) matches Some(Json::Array(_))) ==> r == openapi
            &&& forall|key: Text|
                key != "servers"@ && key != "x-servers"@ ==> #[trigger] r.member(key)
                    == openapi.member(key)
        }),
{
    broadcast use laws::group_members;

    document_words();
}

} // verus!
