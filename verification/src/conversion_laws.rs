//! Laws of whole conversions.

use vstd::prelude::*;

use crate::common::{self, HTTP_METHODS};
use crate::convert::{self, Outcome};
use crate::convert::body;
use crate::convert::cache::{self, Cached};
use crate::convert::components;
use crate::convert::info;
use crate::convert::main_pass;
use crate::convert::operation;
use crate::convert::paths;
use crate::convert::servers;
use crate::convert::skeleton::{self, NullStripper};
use crate::error;
use crate::jptr::{self, Target};
use crate::json::{self, Json, Members, Text};
use crate::laws;
use crate::options::Settings;
use crate::path_laws;
use crate::recurse;
use crate::text;

verus! {

// --- the pointer to a request body -----------------------------------------

/// Whether a text is made of ASCII letters and `-`, so that it stands in a pointer
/// as it is.
pub open spec fn is_word(s: Text) -> bool {
    forall|i: int| 0 <= i < s.len() ==> text::ascii_letter(#[trigger] s[i]) || s[i] == '-'
}

/// A word needs no escapes.
pub proof fn word_escapes_to_itself(s: Text, i: int)
    requires
        0 <= i <= s.len(),
        is_word(s),
    ensures
        jptr::escape_from(s, i) == s.skip(i),
    decreases s.len() - i,
{
    if i < s.len() {
        word_escapes_to_itself(s, i + 1);
        assert(text::ascii_letter(s[i]) || s[i] == '-');
        assert(seq![s[i]] + s.skip(i + 1) =~= s.skip(i));
    } else {
        assert(s.skip(i) =~= Seq::empty());
    }
}

proof fn word_encodes_to_itself(s: Text, bytes: Seq<u8>, i: int)
    requires
        0 <= i <= s.len(),
        is_word(s),
        bytes.len() == s.len(),
        forall|k: int| 0 <= k < s.len() ==> #[trigger] bytes[k] == s[k] as u8,
    ensures
        common::encode_from(bytes, i) == s.skip(i),
    decreases s.len() - i,
{
    if i < s.len() {
        word_encodes_to_itself(s, bytes, i + 1);
        assert(text::ascii_letter(s[i]) || s[i] == '-');
        assert(bytes[i] == s[i] as u8);
        assert(bytes[i] as char == s[i]);
        assert(seq![s[i]] + s.skip(i + 1) =~= s.skip(i));
    } else {
        assert(s.skip(i) =~= Seq::empty());
    }
}

/// A word is its own path segment.
proof fn word_is_segment(s: Text)
    requires
        is_word(s),
    ensures
        common::uri_encoded(jptr::escaped(s)) == s,
{
    word_escapes_to_itself(s, 0);
    assert(s.skip(0) =~= s);
    assert forall|i: int| 0 <= i < s.len() implies '\0' <= #[trigger] s[i] <= '\u{7f}' by {
        assert(text::ascii_letter(s[i]) || s[i] == '-');
    }
    assert(vstd::utf8::is_ascii_chars(s));
    vstd::utf8::is_ascii_chars_encode_utf8(s);
    word_encodes_to_itself(s, vstd::utf8::encode_utf8(s), 0);
}

/// The name of an operation is a word.
proof fn method_is_word(name: Text)
    requires
        paths::is_method(name),
    ensures
        is_word(name),
{
    reveal_strlit("get");
    reveal_strlit("post");
    reveal_strlit("put");
    reveal_strlit("delete");
    reveal_strlit("patch");
    reveal_strlit("head");
    reveal_strlit("options");
    reveal_strlit("trace");
    reveal_strlit("x-amazon-apigateway-any-method");
    if name != "x-amazon-apigateway-any-method"@ {
        let ws = common::words(HTTP_METHODS@);
        let k = choose|k: int| 0 <= k < ws.len() && ws[k] == name;
        assert(name == HTTP_METHODS@[k]@);
        assert(k == 0 || k == 1 || k == 2 || k == 3 || k == 4 || k == 5 || k == 6 || k == 7);
    }
}

/// Whether a name is that of a container of path items.
pub open spec fn is_paths_container(name: Text) -> bool {
    name == "paths"@ || name == "x-ms-paths"@
}

/// The pointer that is noted for a request body addresses that request body.
pub proof fn body_pointer_addresses_body(container: Text, p: Text, method: Text)
    requires
        is_paths_container(container),
        paths::is_method(method),
    ensures
        jptr::target(operation::body_pointer(container, p, method)) == Target::Path(
            seq![container, p, method, "requestBody"@],
        ),
{
    let keys = seq![container, p, method, "requestBody"@];
    reveal_strlit("paths");
    reveal_strlit("x-ms-paths");
    reveal_strlit("requestBody");
    reveal_strlit("#");
    reveal_strlit("/");
    reveal_strlit("#/");
    reveal_strlit("/requestBody");
    method_is_word(method);
    word_is_segment(container);
    word_is_segment(method);
    word_is_segment("requestBody"@);
    reveal_with_fuel(path_laws::path_of, 5);
    let k1 = keys.drop_last();
    let k2 = k1.drop_last();
    let k3 = k2.drop_last();
    assert(k3.drop_last().len() == 0);
    assert(k3.last() == container && k2.last() == p && k1.last() == method && keys.last()
        == "requestBody"@);
    let e = common::uri_encoded(jptr::escaped(p));
    assert("#/"@ =~= "#"@ + "/"@);
    assert("/requestBody"@ =~= "/"@ + "requestBody"@);
    assert(path_laws::path_of(keys) =~= operation::body_pointer(container, p, method));
    path_laws::path_addresses_keys(keys);
}

// --- what the cache points to ----------------------------------------------

/// Whether a pointer leads into a container of path items.
pub open spec fn leads_into_paths(pointer: Text) -> bool {
    jptr::target(pointer) matches Target::Path(parts) && parts.len() > 0 && is_paths_container(
        parts[0],
    )
}

/// Whether every pointer of the cache leads into a container of path items.
pub open spec fn cache_leads_into_paths(c: Seq<Cached>) -> bool {
    forall|k: int, q: int|
        0 <= k < c.len() && 0 <= q < c[k].refs.len() ==> leads_into_paths(
            #[trigger] c[k].refs[q],
        )
}

proof fn seen_body_leads(
    op: Json,
    p: Text,
    method: Text,
    container: Text,
    c: Seq<Cached>,
)
    requires
        is_paths_container(container),
        paths::is_method(method),
        cache_leads_into_paths(c),
    ensures
        cache_leads_into_paths(operation::op_body_seen(op, p, method, container, c).1),
{
    if let Some(body) = op.member("requestBody"@) {
        let rb = body.without("x-s2o-name"@);
        let h = cache::body_hash(rb) as i32;
        let name = operation::body_name(op, p, method);
        let (c1, i) = cache::body_seen(c, h, rb, name);
        cache::bodies_stay_apart(c, h, rb, name);
        let pointer = operation::body_pointer(container, p, method);
        body_pointer_addresses_body(container, p, method);
        let c2 = cache::ref_seen(c1, i, pointer);
        assert(leads_into_paths(pointer));
        assert forall|k: int, q: int|
            0 <= k < c2.len() && 0 <= q < c2[k].refs.len() implies leads_into_paths(
            #[trigger] c2[k].refs[q],
        ) by {
            if k < c.len() {
                assert(c1[k] == c[k]);
                if k != i || q < c[k].refs.len() {
                    assert(c2[k].refs[q] == c[k].refs[q]);
                }
            }
        }
    }
}

proof fn methods_lead(
    path: Json,
    names: Seq<Text>,
    i: nat,
    p: Text,
    container: Text,
    openapi: Json,
    c: Seq<Cached>,
    o: Settings,
)
    requires
        is_paths_container(container),
        cache_leads_into_paths(c),
    ensures
        cache_leads_into_paths(
            paths::methods_from(path, names, i, p, container, openapi, c, o).2,
        ),
    decreases names.len() - i,
{
    if i < names.len() {
        let name = names[i as int];
        if paths::is_method(name) {
            let (path1, d1, c1, o1, e1) = operation::op_processed(
                path,
                p,
                name,
                container,
                openapi,
                c,
                o,
            );
            operation_leads(path, p, name, container, openapi, c, o);
            methods_lead(path1, names, i + 1, p, container, d1, c1, o1);
        } else {
            methods_lead(path, names, i + 1, p, container, openapi, c, o);
        }
    }
}

proof fn finalized_leads(
    path: Json,
    p: Text,
    method: Text,
    container: Text,
    openapi: Json,
    c: Seq<Cached>,
    o: Settings,
)
    requires
        is_paths_container(container),
        paths::is_method(method),
        cache_leads_into_paths(c),
    ensures
        cache_leads_into_paths(
            operation::op_finalized(path, p, method, container, openapi, c, o).2,
        ),
{
    assert forall|op: Json| cache_leads_into_paths(
        (#[trigger] operation::op_body_seen(op, p, method, container, c)).1,
    ) by {
        seen_body_leads(op, p, method, container, c);
    }
}

proof fn operation_leads(
    path: Json,
    p: Text,
    method: Text,
    container: Text,
    openapi: Json,
    c: Seq<Cached>,
    o: Settings,
)
    requires
        is_paths_container(container),
        paths::is_method(method),
        cache_leads_into_paths(c),
    ensures
        cache_leads_into_paths(
            operation::op_processed(path, p, method, container, openapi, c, o).2,
        ),
{
    assert forall|path3: Json, o3: Settings| cache_leads_into_paths(
        (#[trigger] operation::op_finalized(path3, p, method, container, openapi, c, o3)).2,
    ) by {
        finalized_leads(path3, p, method, container, openapi, c, o3);
    }
}

proof fn items_lead(
    items: Json,
    names: Seq<Text>,
    i: nat,
    container: Text,
    openapi: Json,
    c: Seq<Cached>,
    o: Settings,
)
    requires
        is_paths_container(container),
        cache_leads_into_paths(c),
    ensures
        cache_leads_into_paths(
            paths::paths_from(items, names, i, container, openapi, c, o).2,
        ),
    decreases names.len() - i,
{
    if i < names.len() {
        let p = names[i as int];
        match items.member(p) {
            Some(path) => {
                let (path1, d1, c1, o1, e1) = paths::path_processed(
                    path,
                    p,
                    container,
                    openapi,
                    c,
                    o,
                );
                let path0 = paths::path_extensions_promoted(path);
                methods_lead(
                    path0,
                    json::keys(path0.members()),
                    0,
                    p,
                    container,
                    openapi,
                    c,
                    o,
                );
                items_lead(items.with(p, path1), names, i + 1, container, d1, c1, o1);
            },
            None => {
                items_lead(items, names, i + 1, container, openapi, c, o);
            },
        }
    }
}

/// The conversion of a container of path items notes pointers into it.
pub proof fn container_leads_into_paths(
    openapi: Json,
    name: Text,
    c: Seq<Cached>,
    o: Settings,
)
    requires
        is_paths_container(name),
        cache_leads_into_paths(c),
    ensures
        cache_leads_into_paths(main_pass::container_processed(openapi, name, c, o).1),
{
    let (given, d1) = match openapi.member(name) {
        Some(v) => (v, openapi.with(name, Json::Null)),
        None => (Json::empty(), openapi),
    };
    items_lead(given, json::keys(given.members()), 0, name, d1, c, o);
}

/// Request bodies that exist already bring no pointers.
pub proof fn existing_bodies_lead_nowhere(c: Seq<Cached>, bodies: Members, i: nat)
    requires
        cache_leads_into_paths(c),
    ensures
        cache_leads_into_paths(components::bodies_seen(c, bodies, i)),
    decreases bodies.len() - i,
{
    if i < bodies.len() {
        let (name, rb) = bodies[i as int];
        let h = cache::body_hash(rb) as i32;
        let (c1, k) = cache::body_seen(c, h, rb, name);
        cache::bodies_stay_apart(c, h, rb, name);
        assert forall|k: int, q: int|
            0 <= k < c1.len() && 0 <= q < c1[k].refs.len() implies leads_into_paths(
            #[trigger] c1[k].refs[q],
        ) by {
            if k < c.len() {
                assert(c1[k] == c[k]);
                assert(leads_into_paths(c[k].refs[q]));
            }
        }
        existing_bodies_lead_nowhere(c1, bodies, i + 1);
    }
}

// --- what sharing touches --------------------------------------------------

proof fn refs_placed_touch_paths(openapi: Json, refs: Seq<Text>, i: nat, v: Json, key: Text)
    requires
        forall|q: int| 0 <= q < refs.len() ==> leads_into_paths(#[trigger] refs[q]),
        !is_paths_container(key),
    ensures
        components::refs_placed(openapi, refs, i, v).member(key) == openapi.member(key),
    decreases refs.len() - i,
{
    if i < refs.len() {
        let r = refs[i as int];
        assert(leads_into_paths(r));
        let d1 = jptr::write(openapi, r, v).0;
        if let Target::Path(parts) = jptr::target(r) {
            path_laws::write_keeps_other_members(openapi, parts, v, key);
        }
        refs_placed_touch_paths(d1, refs, i + 1, v, key);
    }
}

proof fn extraction_touches(x: components::Extraction, c: Seq<Cached>, i: nat, key: Text)
    requires
        cache_leads_into_paths(c),
        !is_paths_container(key),
        key != "components"@,
    ensures
        components::entries_extracted(x, c, i).openapi.member(key) == x.openapi.member(key),
    decreases c.len() - i,
{
    if i < c.len() {
        let e = c[i as int];
        let x1 = components::entry_extracted(x, e);
        if e.refs.len() > 1 {
            let name = components::shared_name(x, e.name);
            let placed = components::body_placed(x.openapi, name, e.body);
            let path = components::bucket_path("requestBodies"@);
            if let Some(bodies) = json::value_at(x.openapi, path, 0) {
                assert(path[0] == "components"@);
                laws::with_brings_no_other(
                    x.openapi,
                    "components"@,
                    json::with_at(
                        x.openapi.member("components"@)->0,
                        path,
                        1,
                        bodies.with(name, e.body),
                    ),
                    key,
                );
            }
            assert forall|q: int| 0 <= q < e.refs.len() implies leads_into_paths(
                #[trigger] e.refs[q],
            ) by {
                assert(leads_into_paths(c[i as int].refs[q]));
            }
            refs_placed_touch_paths(placed, e.refs, 0, components::shared_ref(name), key);
        }
        extraction_touches(x1, c, i + 1, key);
    }
}

/// Sharing request bodies and pruning components touch only `components` and the
/// containers of path items.
pub proof fn sharing_touches_paths_and_components(
    openapi: Json,
    c: Seq<Cached>,
    o: Settings,
    key: Text,
)
    requires
        cache_leads_into_paths(c),
        !is_paths_container(key),
        key != "components"@,
    ensures
        components::bodies_shared(openapi, c, o).member(key) == openapi.member(key),
        !openapi.has(key) ==> !components::components_pruned(
            components::bodies_shared(openapi, c, o),
        ).has(key),
{
    if let Some(b) = openapi.member("components"@) {
        laws::with_brings_no_other(
            openapi,
            "components"@,
            b.with("requestBodies"@, Json::empty()),
            key,
        );
    }
    let d1 = components::bodies_reset(openapi);
    extraction_touches(
        components::Extraction { openapi: d1, given: Seq::empty(), counter: 1 },
        c,
        0,
        key,
    );
    let d2 = components::bodies_shared(openapi, c, o);
    if let Some(Json::Object(m)) = d2.member("components"@) {
        let kept = Json::Object(
            components::empty_dropped(m, common::words(components::PRUNED_BUCKETS@), 0),
        );
        laws::with_brings_no_other(d2, "components"@, kept, key);
        if !openapi.has(key) {
            laws::remove_brings_none(
                d2.with("components"@, kept).members(),
                "components"@,
                key,
            );
        }
    }
    if !openapi.has(key) {
        laws::remove_brings_none(d2.members(), "components"@, key);
    }
}

// --- members that pass through ---------------------------------------------

/// Whether a member stays as it is, and names stay distinct.
pub open spec fn keeps(a: Json, b: Json, key: Text) -> bool {
    json::distinct(a.members()) ==> json::distinct(b.members()) && b.member(key) == a.member(key)
}

pub proof fn with_keeps(j: Json, k: Text, v: Json, key: Text)
    requires
        k != key,
    ensures
        keeps(j, j.with(k, v), key),
        keeps(j, j.with_new(k, v), key),
{
    laws::lookup_insert_other(j.members(), k, v, key);
    if json::distinct(j.members()) {
        laws::insert_keeps_distinct(j.members(), k, v);
    }
}

pub proof fn without_keeps(j: Json, k: Text, key: Text)
    requires
        k != key,
    ensures
        keeps(j, j.without(k), key),
{
    if json::distinct(j.members()) {
        laws::lookup_remove_other(j.members(), k, key);
        laws::remove_keeps_distinct(j.members(), k);
    }
}

/// A dropped member is gone.
pub proof fn without_drops(j: Json, k: Text)
    requires
        json::distinct(j.members()),
    ensures
        !j.without(k).has(k),
{
    laws::lookup_after_remove(j.members(), k);
}

proof fn pushed_server_keeps(openapi: Json, server: Json, key: Text)
    requires
        key != "servers"@,
    ensures
        keeps(openapi, servers::server_pushed(openapi, server), key),
{
    let d1 = openapi.with_new("servers"@, Json::Array(Seq::empty()));
    with_keeps(openapi, "servers"@, Json::Array(Seq::empty()), key);
    if let Some(Json::Array(a)) = d1.member("servers"@) {
        with_keeps(d1, "servers"@, Json::Array(a.push(server)), key);
    }
}

proof fn host_servers_keep(
    openapi: Json,
    schemes: Seq<Text>,
    i: nat,
    host: Text,
    swagger: Json,
    key: Text,
)
    requires
        key != "servers"@,
    ensures
        keeps(openapi, servers::host_servers_from(openapi, schemes, i, host, swagger), key),
    decreases schemes.len() - i,
{
    if i < schemes.len() {
        let url = servers::server_url(schemes[i as int], host, swagger);
        let server = servers::server_params_extracted(Json::single("url"@, Json::String(url)));
        pushed_server_keeps(openapi, server, key);
        host_servers_keep(
            servers::server_pushed(openapi, server),
            schemes,
            i + 1,
            host,
            swagger,
            key,
        );
    }
}

proof fn scheme_servers_keep(
    openapi: Json,
    schemes: Seq<Json>,
    i: nat,
    server: Json,
    url: Text,
    key: Text,
)
    requires
        key != "servers"@,
    ensures
        keeps(openapi, servers::scheme_servers_from(openapi, schemes, i, server, url), key),
    decreases schemes.len() - i,
{
    if i < schemes.len() {
        let scheme = match schemes[i as int].text() {
            Some(s) => s,
            None => ""@,
        };
        let copy = server.with("url"@, Json::String(scheme + "://"@ + url));
        pushed_server_keeps(openapi, copy, key);
        scheme_servers_keep(
            servers::server_pushed(openapi, copy),
            schemes,
            i + 1,
            server,
            url,
            key,
        );
    }
}

/// Whether servers are derived from a member or put under it.
pub open spec fn is_server_member(key: Text) -> bool {
    key == "servers"@ || key == "host"@ || key == "basePath"@ || key == "x-servers"@ || key
        == "x-ms-parameterized-host"@
}

proof fn derived_servers_keep(openapi: Json, swagger: Json, key: Text)
    requires
        !is_server_member(key),
    ensures
        keeps(openapi, skeleton::servers_derived(openapi, swagger), key),
{
    let d1 = match swagger.text_member("host"@) {
        Some(host) => servers::host_servers_from(
            openapi,
            servers::document_schemes(swagger),
            0,
            host,
            swagger,
        ),
        None => match swagger.text_member("basePath"@) {
            Some(p) => servers::server_pushed(
                openapi,
                servers::server_params_extracted(Json::single("url"@, Json::String(p))),
            ),
            None => openapi,
        },
    };
    match swagger.text_member("host"@) {
        Some(host) => {
            host_servers_keep(
                openapi,
                servers::document_schemes(swagger),
                0,
                host,
                swagger,
                key,
            );
        },
        None => {
            if let Some(p) = swagger.text_member("basePath"@) {
                pushed_server_keeps(
                    openapi,
                    servers::server_params_extracted(Json::single("url"@, Json::String(p))),
                    key,
                );
            }
        },
    }
    without_keeps(d1, "host"@, key);
    without_keeps(d1.without("host"@), "basePath"@, key);
    later_servers_keep(servers::servers_built(openapi, swagger), swagger, key);
}

/// The servers of extensions leave other members alone.
proof fn later_servers_keep(d2: Json, swagger: Json, key: Text)
    requires
        key != "servers"@,
        key != "x-servers"@,
        key != "x-ms-parameterized-host"@,
    ensures
        keeps(
            d2,
            servers::parameterized_host_built(skeleton::servers_replaced(d2), swagger),
            key,
        ),
{
    if let Some(Json::Array(a)) = d2.member("x-servers"@) {
        without_keeps(d2, "x-servers"@, key);
        with_keeps(d2.without("x-servers"@), "servers"@, Json::Array(a), key);
    }
    let d3 = skeleton::servers_replaced(d2);
    if let Some(host) = swagger.member("x-ms-parameterized-host"@) {
        let url = servers::host_url(host, swagger);
        let server = servers::host_server(d3, host, url);
        let schemes = body::elements_of(swagger.member("schemes"@));
        pushed_server_keeps(d3, server, key);
        scheme_servers_keep(d3, schemes, 0, server, url, key);
        let d4 = if host.member("useSchemePrefix"@) == Some(Json::Bool(false)) {
            servers::server_pushed(d3, server)
        } else {
            servers::scheme_servers_from(d3, schemes, 0, server, url)
        };
        without_keeps(d4, "x-ms-parameterized-host"@, key);
    }
}

proof fn info_with_keeps(openapi: Json, k: Text, v: Json, key: Text)
    requires
        key != "info"@,
    ensures
        keeps(openapi, info::info_with(openapi, k, v), key),
        keeps(openapi, info::info_without(openapi, k), key),
{
    let d1 = openapi.with_new("info"@, Json::empty());
    with_keeps(openapi, "info"@, Json::empty(), key);
    with_keeps(d1, "info"@, d1.member("info"@)->0.with(k, v), key);
    if let Some(info) = openapi.member("info"@) {
        with_keeps(openapi, "info"@, info.without(k), key);
    }
}

proof fn supplied_info_keeps(openapi: Json, o: Settings, key: Text)
    requires
        key != "info"@,
    ensures
        keeps(openapi, info::info_supplied(openapi, o).0, key),
{
    let empty = Json::String(""@);
    let made = Json::empty().with("version"@, empty).with("title"@, empty);
    let message = "info must be an object"@;
    with_keeps(openapi, "info"@, made, key);
    with_keeps(openapi, "info"@, error::warned(Json::empty(), message, o).0, key);
    with_keeps(
        openapi.with("info"@, made),
        "info"@,
        error::warned(Json::empty(), message, o.patched()).0,
        key,
    );
}

proof fn fixed_essentials_keep(openapi: Json, o: Settings, key: Text)
    requires
        key != "info"@,
        key != "paths"@,
    ensures
        keeps(openapi, skeleton::essentials_fixed(openapi, o).0, key),
{
    reveal(skeleton::essentials_fixed);
    let empty = Json::String(""@);
    supplied_info_keeps(openapi, o, key);
    let (d1, o1, e1) = info::info_supplied(openapi, o);
    info_with_keeps(d1, "title"@, empty, key);
    let (d2, o2, e2) = info::info_member_supplied(
        d1,
        "title"@,
        "(Patchable) info.title cannot be null"@,
        o1,
    );
    info_with_keeps(d2, "version"@, empty, key);
    let (d3, o3, e3) = info::info_member_supplied(
        d2,
        "version"@,
        "(Patchable) info.version cannot be null"@,
        o2,
    );
    let v = d3.member2("info"@, "version"@);
    info_with_keeps(
        d3,
        "version"@,
        Json::String(info::value_text(json::value_or(v, Json::Null))),
        key,
    );
    let (d4, o4, e4) = info::version_made_string(d3, o3);
    if let Some(logo) = d4.member2("info"@, "logo"@) {
        info_with_keeps(d4, "x-logo"@, logo, key);
        info_with_keeps(info::info_with(d4, "x-logo"@, logo), "logo"@, empty, key);
    }
    let (d5, o5, e5) = info::logo_moved(d4, o4);
    info_with_keeps(d5, "termsOfService"@, empty, key);
    info_with_keeps(
        info::info_with(d5, "termsOfService"@, empty),
        "termsOfService"@,
        empty,
        key,
    );
    let (d6, o6, e6) = info::info_fixed(openapi, o);
    with_keeps(d6, "paths"@, Json::empty(), key);
}

proof fn copied_members_keep(m: Members, extra: Members, i: int, key: Text)
    requires
        0 <= i,
        json::distinct(m),
        forall|k: int| i <= k < extra.len() ==> (#[trigger] extra[k]).0 != key,
    ensures
        json::distinct(json::insert_all(m, extra, i)),
        json::lookup(json::insert_all(m, extra, i), key) == json::lookup(m, key),
    decreases extra.len() - i,
{
    if i < extra.len() {
        laws::insert_keeps_distinct(m, extra[i].0, extra[i].1);
        laws::lookup_insert_other(m, extra[i].0, extra[i].1, key);
        copied_members_keep(json::insert(m, extra[i].0, extra[i].1), extra, i + 1, key);
    }
}

proof fn copied_members_are_distinct(m: Members, extra: Members, i: int)
    requires
        0 <= i,
        json::distinct(m),
    ensures
        json::distinct(json::insert_all(m, extra, i)),
    decreases extra.len() - i,
{
    if i < extra.len() {
        laws::insert_keeps_distinct(m, extra[i].0, extra[i].1);
        copied_members_are_distinct(json::insert(m, extra[i].0, extra[i].1), extra, i + 1);
    }
}

/// What is copied of a Swagger document has distinct names and no `swagger`, and
/// starts out with the target version.
proof fn copied_document(swagger: Json, o: Settings)
    ensures
        json::distinct(skeleton::members_copied(swagger, o).members()),
        !skeleton::members_copied(swagger, o).has("swagger"@),
        !swagger.has("openapi"@) ==> skeleton::members_copied(swagger, o).member("openapi"@)
            == Some(Json::String(skeleton::target_version(o))),
{
    reveal_strlit("openapi");
    reveal_strlit("x-origin");
    reveal_strlit("swagger");
    assert("openapi"@[0] == 'o' && "x-origin"@[0] == 'x' && "swagger"@[0] == 's');
    let v = Json::String(skeleton::target_version(o));
    let d0 = Json::empty().with("openapi"@, v);
    laws::insert_keeps_distinct(Seq::empty(), "openapi"@, v);
    laws::lookup_after_insert(Seq::empty(), "openapi"@, v);
    let origin = Json::Array(seq![skeleton::origin_entry(swagger, o)]);
    with_keeps(d0, "x-origin"@, origin, "openapi"@);
    let d1 = if o.origin {
        d0.with("x-origin"@, origin)
    } else {
        d0
    };
    let extra = swagger.members();
    let all = Json::Object(json::insert_all(d1.members(), extra, 0));
    copied_members_are_distinct(d1.members(), extra, 0);
    without_drops(all, "swagger"@);
    without_keeps(all, "swagger"@, "openapi"@);
    if !swagger.has("openapi"@) {
        laws::index_found(extra, "openapi"@, 0);
        copied_members_keep(d1.members(), extra, 0, "openapi"@);
    }
}

/// The removal of nulls brings no member and keeps plain ones.
proof fn stripped_members(h: nat, ks: Seq<Text>, i: nat, m: Members, path: Text, key: Text)
    requires
        json::distinct(m),
    ensures
        ({
            let r = recurse::traverse_keys::<NullStripper>(
                h,
                ks,
                i,
                (),
                Json::Object(m),
                path,
            ).1;
            &&& r is Object
            &&& json::distinct(r.members())
            &&& json::lookup(m, key) is None ==> !r.has(key)
            &&& (json::lookup(m, key) matches Some(v) && !recurse::is_container(v) && v
                != Json::Null) ==> r.member(key) == json::lookup(m, key)
        }),
    decreases ks.len() - i,
{
    if i < ks.len() {
        let j = Json::Object(m);
        let k = ks[i as int];
        if recurse::child_at(j, k) is None {
            stripped_members(h, ks, i + 1, m, path, key);
        } else {
            let p = recurse::child_path(path, k);
            let drops = skeleton::null_is_dropped(j, k, p);
            let m1 = if drops {
                json::remove(m, k)
            } else {
                m
            };
            laws::remove_keeps_distinct(m, k);
            if json::lookup(m, key) is None {
                laws::remove_brings_none(m, k, key);
            }
            if k != key {
                laws::lookup_remove_other(m, k, key);
            }
            let j1 = Json::Object(m1);
            match recurse::child_at(j1, k) {
                Some(c) => {
                    if recurse::is_container(c) && h > 0 {
                        let c2 = recurse::traverse::<NullStripper>((h - 1) as nat, (), c, p).1;
                        laws::insert_keeps_distinct(m1, k, c2);
                        if k != key {
                            laws::lookup_insert_other(m1, k, c2, key);
                        }
                        stripped_members(h, ks, i + 1, json::insert(m1, k, c2), path, key);
                    } else {
                        stripped_members(h, ks, i + 1, m1, path, key);
                    }
                },
                None => {
                    stripped_members(h, ks, i + 1, m1, path, key);
                },
            }
        }
    }
}

/// Whether a member is moved under `components`, or is `components`.
pub open spec fn is_component_member(key: Text) -> bool {
    key == "components"@ || key == "definitions"@ || key == "responses"@ || key == "parameters"@
        || key == "securityDefinitions"@ || key == "x-callbacks"@ || key == "x-links"@
}

/// The top-level containers of a document become components, and every other
/// member stays.
pub proof fn containers_become_components(openapi: Json, key: Text)
    requires
        json::distinct(openapi.members()),
    ensures
        ({
            let d = components::components_built(openapi);
            &&& json::distinct(d.members())
            &&& !d.has("definitions"@) && !d.has("responses"@) && !d.has("parameters"@) && !d.has(
                "securityDefinitions"@,
            )
            &&& d.member2("components"@, "schemas"@) == Some(
                components::bucket_or_empty(openapi, "definitions"@),
            )
            &&& d.member2("components"@, "responses"@) == Some(
                components::bucket_or_empty(openapi, "responses"@),
            )
            &&& d.member2("components"@, "parameters"@) == Some(
                components::bucket_or_empty(openapi, "parameters"@),
            )
            &&& d.member2("components"@, "securitySchemes"@) == Some(
                components::bucket_or_empty(openapi, "securityDefinitions"@),
            )
            &&& !is_component_member(key) ==> d.member(key) == openapi.member(key)
        }),
{
    component_names_differ();
    let (c1, d1) = components::extension_moved(
        Json::empty(),
        openapi,
        "x-callbacks"@,
        "callbacks"@,
    );
    let c2 = c1.with("examples"@, Json::empty()).with("headers"@, Json::empty());
    let (c3, d3) = components::extension_moved(c2, d1, "x-links"@, "links"@);
    let params = components::bucket_or_empty(d3, "parameters"@);
    let responses = components::bucket_or_empty(d3, "responses"@);
    let schemes = components::bucket_or_empty(d3, "securityDefinitions"@);
    let schemas = components::bucket_or_empty(d3, "definitions"@);
    let ca = c3.with("parameters"@, params);
    let cb = ca.with("responses"@, responses);
    let cc = cb.with("requestBodies"@, Json::empty());
    let cd = cc.with("securitySchemes"@, schemes);
    let c4 = cd.with("schemas"@, schemas);
    laws::lookup_after_insert(c3.members(), "parameters"@, params);
    laws::with_brings_no_other(ca, "responses"@, responses, "parameters"@);
    laws::with_brings_no_other(cb, "requestBodies"@, Json::empty(), "parameters"@);
    laws::with_brings_no_other(cc, "securitySchemes"@, schemes, "parameters"@);
    laws::with_brings_no_other(cd, "schemas"@, schemas, "parameters"@);
    laws::lookup_after_insert(ca.members(), "responses"@, responses);
    laws::with_brings_no_other(cb, "requestBodies"@, Json::empty(), "responses"@);
    laws::with_brings_no_other(cc, "securitySchemes"@, schemes, "responses"@);
    laws::with_brings_no_other(cd, "schemas"@, schemas, "responses"@);
    laws::lookup_after_insert(cc.members(), "securitySchemes"@, schemes);
    laws::with_brings_no_other(cd, "schemas"@, schemas, "securitySchemes"@);
    laws::lookup_after_insert(cd.members(), "schemas"@, schemas);
    assert(is_component_member("definitions"@));
    assert(is_component_member("responses"@));
    assert(is_component_member("parameters"@));
    assert(is_component_member("securityDefinitions"@));
    extensions_keep(openapi, "definitions"@);
    extensions_keep(openapi, "responses"@);
    extensions_keep(openapi, "parameters"@);
    extensions_keep(openapi, "securityDefinitions"@);
    if !is_component_member(key) {
        extensions_keep(openapi, key);
        with_keeps(d3, "components"@, c4, key);
    }
    let e1 = d3.with("components"@, c4);
    let e2 = e1.without("definitions"@);
    let e3 = e2.without("responses"@);
    let e4 = e3.without("parameters"@);
    laws::insert_keeps_distinct(d3.members(), "components"@, c4);
    laws::lookup_after_insert(d3.members(), "components"@, c4);
    without_drops(e1, "definitions"@);
    laws::remove_keeps_distinct(e1.members(), "definitions"@);
    without_drops(e2, "responses"@);
    laws::remove_keeps_distinct(e2.members(), "responses"@);
    without_drops(e3, "parameters"@);
    laws::remove_keeps_distinct(e3.members(), "parameters"@);
    without_drops(e4, "securityDefinitions"@);
    laws::remove_keeps_distinct(e4.members(), "securityDefinitions"@);
    without_keeps(e1, "definitions"@, "components"@);
    without_keeps(e2, "responses"@, "components"@);
    without_keeps(e3, "parameters"@, "components"@);
    without_keeps(e4, "securityDefinitions"@, "components"@);
    without_keeps(e2, "responses"@, "definitions"@);
    without_keeps(e3, "parameters"@, "definitions"@);
    without_keeps(e4, "securityDefinitions"@, "definitions"@);
    without_keeps(e3, "parameters"@, "responses"@);
    without_keeps(e4, "securityDefinitions"@, "responses"@);
    without_keeps(e4, "securityDefinitions"@, "parameters"@);
    if !is_component_member(key) {
        without_keeps(e1, "definitions"@, key);
        without_keeps(e2, "responses"@, key);
        without_keeps(e3, "parameters"@, key);
        without_keeps(e4, "securityDefinitions"@, key);
    }
}

/// The names around `components` differ.
proof fn component_names_differ()
    ensures
        "definitions"@ != "responses"@,
        "definitions"@ != "parameters"@,
        "definitions"@ != "securityDefinitions"@,
        "definitions"@ != "components"@,
        "responses"@ != "parameters"@,
        "responses"@ != "securityDefinitions"@,
        "responses"@ != "components"@,
        "parameters"@ != "securityDefinitions"@,
        "parameters"@ != "components"@,
        "securityDefinitions"@ != "components"@,
        "schemas"@ != "parameters"@,
        "schemas"@ != "responses"@,
        "schemas"@ != "securitySchemes"@,
        "securitySchemes"@ != "parameters"@,
        "securitySchemes"@ != "responses"@,
        "requestBodies"@ != "parameters"@,
        "requestBodies"@ != "responses"@,
        forall|k: Text|
            k == "definitions"@ || k == "responses"@ || k == "parameters"@ || k
                == "securityDefinitions"@ ==> #[trigger] is_component_member(k) && k
                != "x-callbacks"@ && k != "x-links"@,
{
    reveal_strlit("definitions");
    reveal_strlit("responses");
    reveal_strlit("parameters");
    reveal_strlit("securityDefinitions");
    reveal_strlit("components");
    reveal_strlit("schemas");
    reveal_strlit("securitySchemes");
    reveal_strlit("requestBodies");
    reveal_strlit("x-callbacks");
    reveal_strlit("x-links");
    assert("definitions"@.len() == 11 && "responses"@.len() == 9 && "parameters"@.len() == 10);
    assert("securityDefinitions"@.len() == 19 && "components"@.len() == 10);
    assert("parameters"@[0] == 'p' && "components"@[0] == 'c');
    assert("schemas"@.len() == 7 && "securitySchemes"@.len() == 15 && "requestBodies"@.len()
        == 13);
    assert("x-callbacks"@[0] == 'x' && "x-links"@[0] == 'x' && "definitions"@[0] == 'd');
    assert("responses"@[0] == 'r' && "securityDefinitions"@[0] == 's');
}

proof fn extensions_keep(openapi: Json, key: Text)
    requires
        key != "x-callbacks"@,
        key != "x-links"@,
        json::distinct(openapi.members()),
    ensures
        ({
            let (c1, d1) = components::extension_moved(
                Json::empty(),
                openapi,
                "x-callbacks"@,
                "callbacks"@,
            );
            let c2 = c1.with("examples"@, Json::empty()).with("headers"@, Json::empty());
            let d3 = components::extension_moved(c2, d1, "x-links"@, "links"@).1;
            json::distinct(d3.members()) && d3.member(key) == openapi.member(key)
        }),
{
    without_keeps(openapi, "x-callbacks"@, key);
    without_keeps(openapi, "x-links"@, key);
    without_keeps(openapi.without("x-callbacks"@), "x-links"@, key);
}

/// Whether a conversion derives a top-level member of its skeleton, or derives
/// others from it.
pub open spec fn is_derived_member(key: Text) -> bool {
    is_server_member(key) || is_component_member(key) || key == "info"@ || key == "paths"@ || key
        == "consumes"@ || key == "produces"@
}

/// A Swagger document without its nulls, before anything is derived from it.
pub open spec fn source_document(swagger: Json, o: Settings) -> Json {
    skeleton::nulls_stripped(skeleton::members_copied(swagger, o))
}

/// What the skeleton of a Swagger document holds: the containers of the document
/// as components, no container of its own, no `swagger`, `host` or `basePath`, and
/// every member that is not derived as it was.
pub proof fn skeleton_of_document(swagger: Json, o: Settings, key: Text)
    requires
        skeleton::skeleton(swagger, o).2 is None,
    ensures
        ({
            let s = source_document(swagger, o);
            let d = skeleton::skeleton(swagger, o).0;
            &&& json::distinct(d.members())
            &&& !d.has("swagger"@) && !d.has("host"@) && !d.has("basePath"@)
            &&& !d.has("definitions"@) && !d.has("responses"@) && !d.has("parameters"@) && !d.has(
                "securityDefinitions"@,
            )
            &&& d.member2("components"@, "schemas"@) == Some(
                components::bucket_or_empty(s, "definitions"@),
            )
            &&& d.member2("components"@, "responses"@) == Some(
                components::bucket_or_empty(s, "responses"@),
            )
            &&& d.member2("components"@, "parameters"@) == Some(
                components::bucket_or_empty(s, "parameters"@),
            )
            &&& d.member2("components"@, "securitySchemes"@) == Some(
                components::bucket_or_empty(s, "securityDefinitions"@),
            )
            &&& !is_derived_member(key) ==> d.member(key) == s.member(key)
            &&& !swagger.has("openapi"@) ==> d.member("openapi"@) == Some(
                Json::String(skeleton::target_version(o)),
            )
        }),
{
    reveal(skeleton::skeleton);
    top_level_names_differ();
    component_names_differ();
    let d0 = skeleton::members_copied(swagger, o);
    let m0 = d0.members();
    copied_document(swagger, o);
    let ks = recurse::child_keys(d0);
    stripped_members(json::height(d0), ks, 0, m0, "#"@, "openapi"@);
    stripped_members(json::height(d0), ks, 0, m0, "#"@, "swagger"@);
    let s = source_document(swagger, o);
    assert(json::distinct(s.members()));
    let d1 = skeleton::servers_derived(s, swagger);
    let d2 = skeleton::essentials_fixed(d1, o).0;
    let d3 = skeleton::listed(d2, "consumes"@);
    let d4 = skeleton::listed(d3, "produces"@);
    assert forall|k: Text|
        !is_server_member(k) && k != "info"@ && k != "paths"@ && k != "consumes"@ && k
            != "produces"@ implies #[trigger] d4.member(k) == s.member(k) && json::distinct(
        d4.members(),
    ) by {
        derived_servers_keep(s, swagger, k);
        listing_keeps(d1, o, k);
    }
    assert(!is_server_member("definitions"@) && !is_server_member("responses"@));
    assert(!is_server_member("parameters"@) && !is_server_member("securityDefinitions"@));
    assert(!is_server_member("openapi"@) && !is_server_member("swagger"@));
    assert(!is_component_member("openapi"@) && !is_component_member("swagger"@));
    assert(!is_component_member("host"@) && !is_component_member("basePath"@));
    assert(d4.member("definitions"@) == s.member("definitions"@));
    assert(d4.member("responses"@) == s.member("responses"@));
    assert(d4.member("parameters"@) == s.member("parameters"@));
    assert(d4.member("securityDefinitions"@) == s.member("securityDefinitions"@));
    assert(d4.member("openapi"@) == s.member("openapi"@));
    assert(d4.member("swagger"@) == s.member("swagger"@));
    assert(!is_derived_member(key) ==> d4.member(key) == s.member(key));
    host_is_gone(s, swagger);
    listing_keeps(d1, o, "host"@);
    listing_keeps(d1, o, "basePath"@);
    containers_become_components(d4, key);
    containers_become_components(d4, "openapi"@);
    containers_become_components(d4, "swagger"@);
    containers_become_components(d4, "host"@);
    containers_become_components(d4, "basePath"@);
}

proof fn server_name_differs()
    ensures
        "servers"@ != "info"@ && "servers"@ != "paths"@,
        "servers"@ != "consumes"@ && "servers"@ != "produces"@,
        !is_component_member("servers"@),
{
    reveal_strlit("servers");
    reveal_strlit("info");
    reveal_strlit("paths");
    reveal_strlit("consumes");
    reveal_strlit("produces");
    reveal_strlit("components");
    reveal_strlit("definitions");
    reveal_strlit("responses");
    reveal_strlit("parameters");
    reveal_strlit("securityDefinitions");
    reveal_strlit("x-callbacks");
    reveal_strlit("x-links");
    assert("servers"@[0] == 's' && "x-links"@[0] == 'x');
    assert("servers"@.len() == 7 && "info"@.len() == 4 && "paths"@.len() == 5);
    assert("consumes"@.len() == 8 && "produces"@.len() == 8 && "components"@.len() == 10);
    assert("definitions"@.len() == 11 && "responses"@.len() == 9 && "parameters"@.len() == 10);
    assert("securityDefinitions"@.len() == 19 && "x-callbacks"@.len() == 11);
}

/// The skeleton of a document has the servers that are derived from the host, replaced by
/// those that are listed, and those of a parameterized host.
pub proof fn skeleton_has_servers(swagger: Json, o: Settings)
    requires
        skeleton::skeleton(swagger, o).2 is None,
    ensures
        ({
            let hosted = servers::servers_built(source_document(swagger, o), swagger);
            let listed = skeleton::servers_replaced(hosted);
            skeleton::skeleton(swagger, o).0.member("servers"@)
                == servers::parameterized_host_built(listed, swagger).member("servers"@)
        }),
{
    reveal(skeleton::skeleton);
    top_level_names_differ();
    component_names_differ();
    server_name_differs();
    let d0 = skeleton::members_copied(swagger, o);
    copied_document(swagger, o);
    let ks = recurse::child_keys(d0);
    stripped_members(json::height(d0), ks, 0, d0.members(), "#"@, "openapi"@);
    let s = source_document(swagger, o);
    assert(json::distinct(s.members()));
    let d1 = skeleton::servers_derived(s, swagger);
    assert(!is_server_member("openapi"@));
    derived_servers_keep(s, swagger, "openapi"@);
    listing_keeps(d1, o, "servers"@);
    let d2 = skeleton::essentials_fixed(d1, o).0;
    let d4 = skeleton::listed(skeleton::listed(d2, "consumes"@), "produces"@);
    containers_become_components(d4, "servers"@);
}

proof fn listing_keeps(d1: Json, o: Settings, key: Text)
    requires
        key != "info"@,
        key != "paths"@,
        key != "consumes"@,
        key != "produces"@,
    ensures
        ({
            let d2 = skeleton::essentials_fixed(d1, o).0;
            keeps(d1, skeleton::listed(skeleton::listed(d2, "consumes"@), "produces"@), key)
        }),
{
    let d2 = skeleton::essentials_fixed(d1, o).0;
    fixed_essentials_keep(d1, o, key);
    if let Some(Json::String(x)) = d2.member("consumes"@) {
        with_keeps(d2, "consumes"@, Json::Array(seq![Json::String(x)]), key);
    }
    let d3 = skeleton::listed(d2, "consumes"@);
    if let Some(Json::String(x)) = d3.member("produces"@) {
        with_keeps(d3, "produces"@, Json::Array(seq![Json::String(x)]), key);
    }
}

/// The host and the base path are gone once the servers are derived.
proof fn host_is_gone(openapi: Json, swagger: Json)
    requires
        json::distinct(openapi.members()),
    ensures
        !skeleton::servers_derived(openapi, swagger).has("host"@),
        !skeleton::servers_derived(openapi, swagger).has("basePath"@),
        json::distinct(skeleton::servers_derived(openapi, swagger).members()),
{
    top_level_names_differ();
    assert(!is_component_member("host"@) && !is_component_member("basePath"@));
    let d1 = match swagger.text_member("host"@) {
        Some(host) => servers::host_servers_from(
            openapi,
            servers::document_schemes(swagger),
            0,
            host,
            swagger,
        ),
        None => match swagger.text_member("basePath"@) {
            Some(p) => servers::server_pushed(
                openapi,
                servers::server_params_extracted(Json::single("url"@, Json::String(p))),
            ),
            None => openapi,
        },
    };
    match swagger.text_member("host"@) {
        Some(host) => {
            host_servers_keep(
                openapi,
                servers::document_schemes(swagger),
                0,
                host,
                swagger,
                "host"@,
            );
        },
        None => {
            if let Some(p) = swagger.text_member("basePath"@) {
                pushed_server_keeps(
                    openapi,
                    servers::server_params_extracted(Json::single("url"@, Json::String(p))),
                    "host"@,
                );
            }
        },
    }
    without_drops(d1, "host"@);
    laws::remove_keeps_distinct(d1.members(), "host"@);
    without_drops(d1.without("host"@), "basePath"@);
    laws::remove_keeps_distinct(d1.without("host"@).members(), "basePath"@);
    without_keeps(d1.without("host"@), "basePath"@, "host"@);
    let d2 = servers::servers_built(openapi, swagger);
    later_servers_keep(d2, swagger, "host"@);
    later_servers_keep(d2, swagger, "basePath"@);
}

/// The names of top-level members differ.
proof fn top_level_names_differ()
    ensures
        forall|k: Text|
            k == "definitions"@ || k == "responses"@ || k == "parameters"@ || k
                == "securityDefinitions"@ || k == "openapi"@ || k == "swagger"@
                ==> !#[trigger] is_server_member(k) && k != "info"@ && k != "paths"@ && k
                != "consumes"@ && k != "produces"@,
        forall|k: Text|
            k == "host"@ || k == "basePath"@ || k == "openapi"@ || k == "swagger"@
                ==> !#[trigger] is_component_member(k) && k != "info"@ && k != "paths"@ && k
                != "consumes"@ && k != "produces"@ && k != "servers"@ && k != "x-servers"@ && k
                != "x-ms-parameterized-host"@,
        "host"@ != "basePath"@,
{
    reveal_strlit("definitions");
    reveal_strlit("responses");
    reveal_strlit("parameters");
    reveal_strlit("securityDefinitions");
    reveal_strlit("components");
    reveal_strlit("x-callbacks");
    reveal_strlit("x-links");
    reveal_strlit("openapi");
    reveal_strlit("swagger");
    reveal_strlit("servers");
    reveal_strlit("host");
    reveal_strlit("basePath");
    reveal_strlit("x-servers");
    reveal_strlit("x-ms-parameterized-host");
    reveal_strlit("info");
    reveal_strlit("paths");
    reveal_strlit("consumes");
    reveal_strlit("produces");
    assert("definitions"@.len() == 11 && "responses"@.len() == 9 && "parameters"@.len() == 10);
    assert("securityDefinitions"@.len() == 19 && "components"@.len() == 10);
    assert("x-callbacks"@.len() == 11 && "x-links"@.len() == 7 && "openapi"@.len() == 7);
    assert("swagger"@.len() == 7 && "servers"@.len() == 7 && "host"@.len() == 4);
    assert("basePath"@.len() == 8 && "x-servers"@.len() == 9 && "info"@.len() == 4);
    assert("x-ms-parameterized-host"@.len() == 23 && "paths"@.len() == 5);
    assert("consumes"@.len() == 8 && "produces"@.len() == 8);
    assert("openapi"@[0] == 'o' && "swagger"@[0] == 's' && "servers"@[0] == 's');
    assert("swagger"@[1] == 'w' && "servers"@[1] == 'e' && "x-links"@[0] == 'x');
    assert("responses"@[0] == 'r' && "x-servers"@[0] == 'x' && "host"@[0] == 'h');
    assert("info"@[0] == 'i' && "basePath"@[0] == 'b' && "consumes"@[0] == 'c');
    assert("produces"@[0] == 'p');
}

// --- entry -----------------------------------------------------------------

/// Anchors are rejected unless they are allowed, whatever the document is.
pub proof fn anchors_are_rejected(swagger: Json, o: Settings)
    requires
        o.had_anchors,
        !o.anchors,
    ensures
        convert::converted(swagger, o) == (
            convert::started(convert::given_document(swagger), o),
            Outcome::Failed("YAML anchor or merge key"@),
        ),
{
}

/// A document that is neither Swagger 2.0 nor OpenAPI 3 is rejected with the version
/// that it reports, and no output is set.
pub proof fn other_versions_are_rejected(swagger: Json, o: Settings)
    requires
        o.had_anchors ==> o.anchors,
        !convert::is_openapi_three(convert::given_document(swagger)),
        !skeleton::swagger_two(convert::given_document(swagger).member("swagger"@)),
    ensures
        convert::converted(swagger, o) == (
            convert::started(convert::given_document(swagger), o),
            Outcome::Failed(
                "Unsupported swagger/OpenAPI version: "@ + convert::reported_version(
                    convert::given_document(swagger),
                ),
            ),
        ),
        convert::converted(swagger, o).0.openapi == o.openapi,
{
}

/// Whether a document has paths and an info object that need no repair.
pub open spec fn is_described(doc: Json) -> bool {
    &&& doc.member("info"@) matches Some(Json::Object(_))
    &&& !info::absent(doc.member2("info"@, "title"@))
    &&& doc.member2("info"@, "version"@) matches Some(Json::String(_))
    &&& doc.member2("info"@, "logo"@) is None
    &&& match doc.member2("info"@, "termsOfService"@) {
        Some(Json::String(s)) => info::url_like(s),
        Some(_) => false,
        None => true,
    }
    &&& doc.has("paths"@)
}

/// An OpenAPI 3 document that needs no repair is its own output.
pub proof fn openapi_three_passes_through(doc: Json, o: Settings)
    requires
        o.had_anchors ==> o.anchors,
        convert::is_openapi_three(doc),
        is_described(doc),
        !o.resolve,
    ensures
        convert::converted(doc, o) == (
            convert::started(doc, o).with_openapi(doc),
            Outcome::Done,
        ),
{
    reveal(skeleton::essentials_fixed);
    assert(convert::given_document(doc) == doc);
}

} // verus!
