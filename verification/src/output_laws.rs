//! Laws of what a conversion puts out.

use vstd::prelude::*;

use crate::common;
use crate::conversion_laws;
use crate::convert::{self, Outcome, Stage};
use crate::convert::body;
use crate::convert::cache::Cached;
use crate::convert::components;
use crate::convert::examples;
use crate::convert::main_pass;
use crate::convert::operation;
use crate::convert::parameter;
use crate::convert::paths;
use crate::convert::refs::{self, RefCollector};
use crate::convert::security;
use crate::convert::skeleton;
use crate::error;
use crate::fixup;
use crate::jptr::{self, Target};
use crate::json::{self, Json, Members, Text};
use crate::laws;
use crate::options::Settings;
use crate::path_laws;
use crate::recurse;
use crate::suffix;
use crate::text;

verus! {

// --- members that stay -----------------------------------------------------

/// Whether a member of an object stays as it is, and names stay distinct.
pub open spec fn stays(a: Json, b: Json, key: Text) -> bool {
    a is Object && json::distinct(a.members()) ==> b is Object && json::distinct(b.members())
        && b.member(key) == a.member(key)
}

proof fn with_stays(j: Json, k: Text, v: Json, key: Text)
    requires
        k != key,
    ensures
        stays(j, j.with(k, v), key),
        stays(j, j.with_new(k, v), key),
{
    conversion_laws::with_keeps(j, k, v, key);
}

proof fn without_stays(j: Json, k: Text, key: Text)
    requires
        k != key,
    ensures
        stays(j, j.without(k), key),
{
    conversion_laws::without_keeps(j, k, key);
}

proof fn with_at_stays(j: Json, names: Seq<Text>, v: Json, key: Text)
    requires
        names.len() > 0,
        names[0] != key,
    ensures
        stays(j, json::with_at(j, names, 0, v), key),
{
    let inner = json::with_at(j.member(names[0])->0, names, 1, v);
    with_stays(j, names[0], inner, key);
}

// --- components ------------------------------------------------------------

proof fn renamed_component_stays(
    openapi: Json,
    bucket: Text,
    from: Text,
    to: Text,
    label: Text,
    o: Settings,
    key: Text,
)
    requires
        key != "components"@,
    ensures
        stays(openapi, components::component_renamed(openapi, bucket, from, to, label, o).0, key),
{
    let path = components::bucket_path(bucket);
    let at = components::component_path(bucket, from);
    if let Some(c) = json::value_at(openapi, at, 0) {
        with_at_stays(openapi, at, error::warned(c, label + to, o).0, key);
    }
    if let Some(Json::Object(m)) = json::value_at(openapi, path, 0) {
        if let Some(v) = json::lookup(m, from) {
            with_at_stays(
                openapi,
                path,
                Json::Object(json::insert(json::remove(m, from), to, v)),
                key,
            );
        }
    }
}

proof fn schemes_stay(openapi: Json, names: Seq<Text>, i: nat, o: Settings, key: Text)
    requires
        key != "components"@,
    ensures
        stays(openapi, components::schemes_from(openapi, names, i, o).0, key),
    decreases names.len() - i,
{
    if i < names.len() {
        let sname = common::sanitised(names[i as int]);
        let label = "Duplicate sanitised securityScheme name "@;
        renamed_component_stays(openapi, "securitySchemes"@, names[i as int], sname, label, o, key);
        let (d1, name, e1) = components::component_renamed(
            openapi,
            "securitySchemes"@,
            names[i as int],
            sname,
            label,
            o,
        );
        let at = components::component_path("securitySchemes"@, name);
        match json::value_at(d1, at, 0) {
            Some(scheme) => {
                let (s2, o2, e2) = security::scheme_fixed(scheme, o);
                with_at_stays(d1, at, s2, key);
                schemes_stay(json::with_at(d1, at, 0, s2), names, i + 1, o2, key);
            },
            None => {
                schemes_stay(d1, names, i + 1, o, key);
            },
        }
    }
}

proof fn schemas_stay(
    openapi: Json,
    names: Seq<Text>,
    i: nat,
    renamed: Members,
    o: Settings,
    key: Text,
)
    requires
        key != "components"@,
    ensures
        stays(openapi, components::schemas_from(openapi, names, i, renamed, o).0, key),
    decreases names.len() - i,
{
    if i < names.len() {
        let s = names[i as int];
        let name = components::schema_final_name(openapi, s);
        let d1 = components::schema_renamed(openapi, s, name);
        let bucket = components::bucket_path("schemas"@);
        if let Some(Json::Object(m)) = json::value_at(openapi, bucket, 0) {
            if let Some(v) = json::lookup(m, s) {
                with_at_stays(
                    openapi,
                    bucket,
                    Json::Object(json::insert(json::remove(m, s), name, v)),
                    key,
                );
            }
        }
        let renamed1 = json::insert(renamed, s, Json::String(name));
        let at = components::component_path("schemas"@, name);
        match json::value_at(d1, at, 0) {
            Some(schema) => {
                let (s2, o2, e2) = fixup::schema_fixed(schema, o);
                with_at_stays(d1, at, s2, key);
                schemas_stay(json::with_at(d1, at, 0, s2), names, i + 1, renamed1, o2, key);
            },
            None => {
                schemas_stay(d1, names, i + 1, renamed1, o, key);
            },
        }
    }
}

proof fn params_stay(openapi: Json, names: Seq<Text>, i: nat, o: Settings, key: Text)
    requires
        key != "components"@,
    ensures
        stays(openapi, components::params_from(openapi, names, i, o).0, key),
    decreases names.len() - i,
{
    if i < names.len() {
        let sname = common::sanitised(names[i as int]);
        let label = "Duplicate sanitised parameter name "@;
        renamed_component_stays(openapi, "parameters"@, names[i as int], sname, label, o, key);
        let (d1, name, e1) = components::component_renamed(
            openapi,
            "parameters"@,
            names[i as int],
            sname,
            label,
            o,
        );
        let at = components::component_path("parameters"@, name);
        match json::value_at(d1, at, 0) {
            Some(param) => {
                let (p2, _, o2, e2) = parameter::param_processed(
                    param,
                    None,
                    name,
                    d1,
                    body::media_types(None, d1, "consumes"@),
                    o,
                );
                with_at_stays(d1, at, p2, key);
                params_stay(json::with_at(d1, at, 0, p2), names, i + 1, o2, key);
            },
            None => {
                params_stay(d1, names, i + 1, o, key);
            },
        }
    }
}

proof fn responses_stay(openapi: Json, names: Seq<Text>, i: nat, o: Settings, key: Text)
    requires
        key != "components"@,
    ensures
        stays(openapi, components::responses_from(openapi, names, i, o).0, key),
    decreases names.len() - i,
{
    if i < names.len() {
        let sname = common::sanitised(names[i as int]);
        let label = "Duplicate sanitised response name "@;
        renamed_component_stays(openapi, "responses"@, names[i as int], sname, label, o, key);
        let (d1, name, e1) = components::component_renamed(
            openapi,
            "responses"@,
            names[i as int],
            sname,
            label,
            o,
        );
        let at = components::component_path("responses"@, name);
        match json::value_at(d1, at, 0) {
            Some(response) => {
                let (r2, o2, e2) = components::component_response_processed(response, d1, o);
                with_at_stays(d1, at, r2, key);
                responses_stay(json::with_at(d1, at, 0, r2), names, i + 1, o2, key);
            },
            None => {
                responses_stay(d1, names, i + 1, o, key);
            },
        }
    }
}

// --- references ------------------------------------------------------------

/// Whether a pointer leads into the member `key`, or to the whole document.
pub open spec fn leads_into(pointer: Text, key: Text) -> bool {
    match jptr::target(pointer) {
        Target::Whole => true,
        Target::External => false,
        Target::Path(parts) => parts.len() > 0 && parts[0] == key,
    }
}

/// A write elsewhere lets a member stay.
proof fn write_stays(j: Json, pointer: Text, v: Json, key: Text)
    requires
        !leads_into(pointer, key),
    ensures
        stays(j, jptr::write(j, pointer, v).0, key),
{
    if let Target::Path(parts) = jptr::target(pointer) {
        if parts.len() > 0 {
            path_laws::write_keeps_other_members(j, parts, v, key);
            if let Json::Object(m) = j {
                if json::distinct(m) {
                    if parts.len() == 1 {
                        laws::insert_keeps_distinct(m, parts[0], v);
                    } else {
                        let c = match json::lookup(m, parts[0]) {
                            Some(c0) => jptr::assign(c0, parts, 1, v).0,
                            None => jptr::made(parts, 1, v).0,
                        };
                        laws::insert_keeps_distinct(m, parts[0], c);
                    }
                }
            }
        }
    }
}

/// Whether a member is missing or no container, so that no path goes on below it.
pub open spec fn is_plain_member(j: Json, key: Text) -> bool {
    match j.member(key) {
        Some(v) => !recurse::is_container(v),
        None => true,
    }
}

/// A pointer to a container does not lead into a plain member.
proof fn container_is_elsewhere(j: Json, pointer: Text, key: Text)
    requires
        j is Object,
        is_plain_member(j, key),
        pointer.len() > 1,
        jptr::read(j, pointer) matches Some(c) && recurse::is_container(c),
    ensures
        !leads_into(pointer, key),
{
    reveal_strlit("#");
    assert("#"@.len() == 1);
    if let Target::Path(parts) = jptr::target(pointer) {
        reveal_with_fuel(jptr::resolve, 3);
        if parts.len() > 1 && parts[0] == key {
            if let Some(v) = j.member(key) {
                assert(jptr::child(v, parts[1]) is None);
            }
        }
    }
}

/// A character is found at or after each of its places.
proof fn found_at_or_after(s: Text, c: char, n: int, i: int)
    requires
        0 <= i < n <= s.len(),
        s[i] == c,
    ensures
        text::rfind_from(s, c, n) matches Some(k) && i <= k,
    decreases n,
{
    if s[n - 1] != c {
        found_at_or_after(s, c, n - 1, i);
    }
}

/// The container of a key has a path of its own.
proof fn container_path_is_long(path: Text, key: Text)
    requires
        path.len() > 1,
    ensures
        refs::container_path(recurse::child_path(path, key)).len() > 1,
{
    reveal_strlit("/");
    let p = recurse::child_path(path, key);
    assert(p[path.len() as int] == '/');
    found_at_or_after(p, '/', p.len() as int, path.len() as int);
    let k = text::rfind_from(p, '/', p.len() as int)->0;
    rfind_is_inside(p, '/', p.len() as int);
    assert(p.take(k).len() == k);
}

proof fn rfind_is_inside(s: Text, c: char, n: int)
    requires
        n <= s.len(),
    ensures
        text::rfind_from(s, c, n) matches Some(k) ==> k < n,
    decreases n,
{
    if n > 0 && s[n - 1] != c {
        rfind_is_inside(s, c, n - 1);
    }
}

/// Whether no site is the whole document.
spec fn no_site_is_whole(s: Seq<(Text, bool)>) -> bool {
    forall|k: int| 0 <= k < s.len() ==> (#[trigger] s[k]).0.len() > 1
}

/// Sites below the document are not the whole document, and the collection leaves
/// containers containers.
proof fn sites_below(
    h: nat,
    ks: Seq<Text>,
    i: nat,
    s: Seq<(Text, bool)>,
    j: Json,
    path: Text,
)
    requires
        path.len() > 1,
        no_site_is_whole(s),
    ensures
        ({
            let r = recurse::traverse_keys::<RefCollector>(h, ks, i, s, j, path);
            no_site_is_whole(r.0) && (recurse::is_container(j) ==> recurse::is_container(r.1))
        }),
    decreases h, ks.len() - i,
{
    if i < ks.len() {
        let key = ks[i as int];
        if recurse::child_at(j, key) is None {
            sites_below(h, ks, i + 1, s, j, path);
        } else {
            let p = recurse::child_path(path, key);
            container_path_is_long(path, key);
            let (s1, j1) = <RefCollector as recurse::Visitor>::visited(s, j, key, p);
            assert(no_site_is_whole(s1));
            match recurse::child_at(j1, key) {
                Some(c) => {
                    if recurse::is_container(c) && h > 0 {
                        let d = (h - 1) as nat;
                        sites_below(d, recurse::child_keys(c), 0, s1, c, p);
                        let (s2, c2) = recurse::traverse::<RefCollector>(d, s1, c, p);
                        sites_below(
                            h,
                            ks,
                            i + 1,
                            s2,
                            recurse::with_child(j1, key, c2),
                            path,
                        );
                    } else {
                        sites_below(h, ks, i + 1, s1, j1, path);
                    }
                },
                None => {
                    sites_below(h, ks, i + 1, s1, j1, path);
                },
            }
        }
    }
}

/// Whether the document itself is a site.
pub open spec fn is_site(j: Json) -> bool {
    recurse::names_ref(j, "$ref"@) || refs::names_odata(j, "x-ms-odata"@)
}

/// No site of a document is the document itself, unless it holds a reference of
/// its own.
proof fn sites_of_document(h: nat, ks: Seq<Text>, i: nat, s: Seq<(Text, bool)>, j: Json)
    requires
        j is Object,
        !is_site(j),
        no_site_is_whole(s),
    ensures
        no_site_is_whole(recurse::traverse_keys::<RefCollector>(h, ks, i, s, j, "#"@).0),
    decreases ks.len() - i,
{
    if i < ks.len() {
        let key = ks[i as int];
        if recurse::child_at(j, key) is None {
            sites_of_document(h, ks, i + 1, s, j);
        } else {
            let p = recurse::child_path("#"@, key);
            reveal_strlit("#");
            reveal_strlit("/");
            assert("#"@.len() == 1 && "/"@.len() == 1);
            assert(p.len() > 1);
            let c = recurse::child_at(j, key)->0;
            if recurse::is_container(c) && h > 0 {
                let d = (h - 1) as nat;
                sites_below(d, recurse::child_keys(c), 0, s, c, p);
                let (s2, c2) = recurse::traverse::<RefCollector>(d, s, c, p);
                let m = j->Object_0;
                let j2 = recurse::with_child(j, key, c2);
                laws::lookup_after_insert(m, key, c2);
                if key != "$ref"@ {
                    laws::lookup_insert_other(m, key, c2, "$ref"@);
                }
                if key != "x-ms-odata"@ {
                    laws::lookup_insert_other(m, key, c2, "x-ms-odata"@);
                }
                sites_of_document(h, ks, i + 1, s2, j2);
            } else {
                sites_of_document(h, ks, i + 1, s, j);
            }
        }
    }
}

/// The rewriting of a site lets a plain member stay.
proof fn site_stays(
    openapi: Json,
    site: (Text, bool),
    names: Members,
    refmap: Members,
    o: Settings,
    key: Text,
)
    requires
        openapi is Object,
        is_plain_member(openapi, key),
        site.0.len() > 1,
        key != "components"@,
    ensures
        stays(openapi, refs::site_rewritten(openapi, site, names, refmap, o).0, key),
{
    if let Some(container) = jptr::read(openapi, site.0) {
        let odata = refs::names_odata(container, "x-ms-odata"@);
        let (c1, e1) = if odata {
            refs::odata_rewritten(container, container.text_member("x-ms-odata"@)->0, names, o)
        } else {
            (container, None)
        };
        if e1 is None && (odata || c1.text_member("$ref"@) is Some) {
            assert(container is Object);
            container_is_elsewhere(openapi, site.0, key);
            let d1 = if odata {
                jptr::write(openapi, site.0, c1).0
            } else {
                openapi
            };
            write_stays(openapi, site.0, c1, key);
            if let Some(r) = c1.text_member("$ref"@) {
                let (d2, c2, m2, o2, e2) = refs::ref_rewritten(d1, c1, r, names, refmap, o);
                rewritten_stays(d1, c1, r, names, refmap, o, key);
                write_stays(
                    d2,
                    site.0,
                    refs::siblings_handled(c2, site.1, o2.ref_siblings),
                    key,
                );
            }
        }
    }
}

proof fn rewritten_stays(
    openapi: Json,
    container: Json,
    r: Text,
    names: Members,
    refmap: Members,
    o: Settings,
    key: Text,
)
    requires
        key != "components"@,
    ensures
        stays(openapi, refs::ref_rewritten(openapi, container, r, names, refmap, o).0, key),
{
    assert forall|target: Json| stays(
        openapi,
        (#[trigger] refs::target_placed(openapi, container, r, target, refmap)).0,
        key,
    ) by {
        let bucket = refs::ref_bucket(r);
        if bucket != "responses"@ && bucket != "extensions"@ {
            let pointer = refs::relocated_pointer(openapi, bucket, target, container);
            refs::relocated_into_components(openapi, r, target, container);
            let placed = if bucket == "examples"@ {
                Json::single("value"@, target)
            } else {
                target
            };
            write_stays(openapi, pointer, placed, key);
        }
    }
}

proof fn sites_stay(
    openapi: Json,
    all: Seq<(Text, bool)>,
    i: nat,
    names: Members,
    refmap: Members,
    o: Settings,
    key: Text,
)
    requires
        openapi is Object,
        json::distinct(openapi.members()),
        is_plain_member(openapi, key),
        no_site_is_whole(all),
        key != "components"@,
    ensures
        stays(openapi, refs::sites_rewritten(openapi, all, i, names, refmap, o).0, key),
    decreases all.len() - i,
{
    if i < all.len() {
        let site = all[i as int];
        site_stays(openapi, site, names, refmap, o, key);
        let (d1, m1, o1, e1) = refs::site_rewritten(openapi, site, names, refmap, o);
        sites_stay(d1, all, i + 1, names, m1, o1, key);
    }
}

/// Whether a relocation takes its target out of the member `key`, or is of the
/// whole document.
pub open spec fn relocates(refmap: Members, key: Text) -> bool {
    exists|i: int| 0 <= i < refmap.len() && leads_into((#[trigger] refmap[i]).0, key)
}

/// Whether the whole document is the target of a relocation.
pub open spec fn relocates_whole(refmap: Members) -> bool {
    exists|i: int|
        0 <= i < refmap.len() && jptr::target((#[trigger] refmap[i]).0) == Target::Whole
}

/// Whether no relocation leads into the member `key` but one of the whole document.
spec fn none_from(refmap: Members, key: Text) -> bool {
    forall|i: int|
        0 <= i < refmap.len() && leads_into((#[trigger] refmap[i]).0, key) ==> jptr::target(
            refmap[i].0,
        ) == Target::Whole
}

/// No reference is relocated from a member that is missing.
proof fn missing_is_no_target(
    openapi: Json,
    container: Json,
    r: Text,
    names: Members,
    refmap: Members,
    o: Settings,
    key: Text,
)
    requires
        openapi is Object,
        !openapi.has(key),
        none_from(refmap, key),
    ensures
        none_from(refs::ref_rewritten(openapi, container, r, names, refmap, o).2, key),
{
    if jptr::read(openapi, r) is Some {
        assert(leads_into(r, key) ==> jptr::target(r) == Target::Whole);
        assert forall|v: Json| none_from(#[trigger] json::insert(refmap, r, v), key) by {
            let m = json::insert(refmap, r, v);
            laws::index_found(refmap, r, 0);
            assert forall|i: int|
                0 <= i < m.len() && leads_into((#[trigger] m[i]).0, key) implies jptr::target(
                m[i].0,
            ) == Target::Whole by {
                if m[i].0 != r {
                    assert(m[i] == refmap[i]);
                }
            }
        }
        assert forall|target: Json| none_from(
            (#[trigger] refs::target_placed(openapi, container, r, target, refmap)).2,
            key,
        ) by {
        }
    }
}

proof fn missing_is_not_relocated(
    openapi: Json,
    all: Seq<(Text, bool)>,
    i: nat,
    names: Members,
    refmap: Members,
    o: Settings,
    key: Text,
)
    requires
        openapi is Object,
        json::distinct(openapi.members()),
        !openapi.has(key),
        no_site_is_whole(all),
        none_from(refmap, key),
        key != "components"@,
    ensures
        none_from(refs::sites_rewritten(openapi, all, i, names, refmap, o).1, key),
    decreases all.len() - i,
{
    if i < all.len() {
        let site = all[i as int];
        site_stays(openapi, site, names, refmap, o, key);
        let (d1, m1, o1, e1) = refs::site_rewritten(openapi, site, names, refmap, o);
        if let Some(container) = jptr::read(openapi, site.0) {
            let odata = refs::names_odata(container, "x-ms-odata"@);
            let (c, e) = if odata {
                refs::odata_rewritten(
                    container,
                    container.text_member("x-ms-odata"@)->0,
                    names,
                    o,
                )
            } else {
                (container, None)
            };
            if e is None {
                if let Some(r) = c.text_member("$ref"@) {
                    let d = if odata {
                        jptr::write(openapi, site.0, c).0
                    } else {
                        openapi
                    };
                    container_is_elsewhere(openapi, site.0, key);
                    write_stays(openapi, site.0, c, key);
                    missing_is_no_target(d, c, r, names, refmap, o, key);
                }
            }
        }
        missing_is_not_relocated(d1, all, i + 1, names, m1, o1, key);
    }
}

proof fn deduped_stay(openapi: Json, refmap: Members, i: nat, key: Text)
    requires
        !relocates(refmap, key),
    ensures
        stays(openapi, refs::refs_deduped(openapi, refmap, i), key),
    decreases refmap.len() - i,
{
    if i < refmap.len() {
        let (src, target) = refmap[i as int];
        assert(!leads_into(refmap[i as int].0, key));
        let d1 = match target {
            Json::String(t) => jptr::write(
                openapi,
                src,
                Json::single("$ref"@, Json::String(t)),
            ).0,
            _ => openapi,
        };
        if let Json::String(t) = target {
            write_stays(openapi, src, Json::single("$ref"@, Json::String(t)), key);
        }
        deduped_stay(d1, refmap, i + 1, key);
    }
}

// --- paths -----------------------------------------------------------------

proof fn example_responses_stay(
    op: Json,
    name: Text,
    se: Text,
    responses: Members,
    i: nat,
    openapi: Json,
    key: Text,
)
    requires
        key != "components"@,
    ensures
        stays(
            openapi,
            examples::response_examples_from(op, name, se, responses, i, openapi).1,
            key,
        ),
    decreases responses.len() - i,
{
    if i < responses.len() {
        let (r, resp) = responses[i as int];
        let op1 = examples::header_examples_from(
            op,
            r,
            examples::members_of(resp.member("headers"@)),
            0,
        );
        let (op2, d2) = examples::body_example(op1, name, se, r, resp, openapi);
        if let Some(body) = resp.member("body"@) {
            let d1 = openapi.with_new("components"@, Json::empty());
            with_stays(openapi, "components"@, Json::empty(), key);
            with_stays(
                d1,
                "components"@,
                examples::example_set(
                    d1.member("components"@)->0,
                    se,
                    Json::single("value"@, body),
                ),
                key,
            );
        }
        example_responses_stay(op2, name, se, responses, i + 1, d2, key);
    }
}

proof fn examples_stay(
    op: Json,
    path_params: Json,
    all: Members,
    i: nat,
    openapi: Json,
    key: Text,
)
    requires
        key != "components"@,
    ensures
        stays(openapi, examples::ms_examples_from(op, path_params, all, i, openapi).2, key),
    decreases all.len() - i,
{
    if i < all.len() {
        let (name, example) = all[i as int];
        let (op1, p1) = examples::param_examples_from(
            op,
            path_params,
            name,
            examples::members_of(example.member("parameters"@)),
            0,
            openapi,
        );
        let se = common::sanitised_all(name);
        let responses = examples::members_of(example.member("responses"@));
        example_responses_stay(op1, name, se, responses, 0, openapi, key);
        let (op2, d2) = examples::response_examples_from(op1, name, se, responses, 0, openapi);
        examples_stay(op2, p1, all, i + 1, d2, key);
    }
}

proof fn operation_stays(
    path: Json,
    p: Text,
    method: Text,
    container: Text,
    openapi: Json,
    c: Seq<Cached>,
    o: Settings,
    key: Text,
)
    requires
        key != "components"@,
    ensures
        stays(
            openapi,
            operation::op_processed(path, p, method, container, openapi, c, o).1,
            key,
        ),
{
    assert forall|path3: Json, o3: Settings| stays(
        openapi,
        (#[trigger] operation::op_finalized(path3, p, method, container, openapi, c, o3)).1,
        key,
    ) by {
        if let Some(op) = path3.member(method) {
            let path4 = path3.with(method, operation::media_types_dropped(op, o3));
            if let Some(Json::Object(all)) = path4.member2(method, "x-ms-examples"@) {
                let params = json::value_or(path4.member("parameters"@), Json::Null);
                let path5 = path4.dropped("parameters"@);
                if let Some(op5) = path5.member(method) {
                    examples_stay(op5, params, all, 0, openapi, key);
                }
            }
        }
    }
}

proof fn methods_stay(
    path: Json,
    names: Seq<Text>,
    i: nat,
    p: Text,
    container: Text,
    openapi: Json,
    c: Seq<Cached>,
    o: Settings,
    key: Text,
)
    requires
        key != "components"@,
    ensures
        stays(
            openapi,
            paths::methods_from(path, names, i, p, container, openapi, c, o).1,
            key,
        ),
    decreases names.len() - i,
{
    if i < names.len() {
        let name = names[i as int];
        if paths::is_method(name) {
            let (path1, d1, c1, o1, e1) = operation::op_processed(
                path,
                p,
                name,
                container,
                openapi,
                c,
                o,
            );
            operation_stays(path, p, name, container, openapi, c, o, key);
            methods_stay(path1, names, i + 1, p, container, d1, c1, o1, key);
        } else {
            methods_stay(path, names, i + 1, p, container, openapi, c, o, key);
        }
    }
}

proof fn items_stay(
    items: Json,
    names: Seq<Text>,
    i: nat,
    container: Text,
    openapi: Json,
    c: Seq<Cached>,
    o: Settings,
    key: Text,
)
    requires
        key != "components"@,
    ensures
        stays(openapi, paths::paths_from(items, names, i, container, openapi, c, o).1, key),
    decreases names.len() - i,
{
    if i < names.len() {
        let p = names[i as int];
        match items.member(p) {
            Some(path) => {
                let (path1, d1, c1, o1, e1) = paths::path_processed(
                    path,
                    p,
                    container,
                    openapi,
                    c,
                    o,
                );
                let path0 = paths::path_extensions_promoted(path);
                methods_stay(
                    path0,
                    json::keys(path0.members()),
                    0,
                    p,
                    container,
                    openapi,
                    c,
                    o,
                    key,
                );
                items_stay(items.with(p, path1), names, i + 1, container, d1, c1, o1, key);
            },
            None => {
                items_stay(items, names, i + 1, container, openapi, c, o, key);
            },
        }
    }
}

/// The conversion of a container of path items leaves the other members of the document,
/// but for the components, as they are.
pub proof fn container_stays(openapi: Json, name: Text, c: Seq<Cached>, o: Settings, key: Text)
    requires
        key != "components"@,
        key != name,
    ensures
        stays(openapi, main_pass::container_processed(openapi, name, c, o).0, key),
{
    let (given, d1) = match openapi.member(name) {
        Some(v) => (v, openapi.with(name, Json::Null)),
        None => (Json::empty(), openapi),
    };
    with_stays(openapi, name, Json::Null, key);
    items_stay(given, json::keys(given.members()), 0, name, d1, c, o, key);
    let (items, d2, c2, o2, e2) = paths::paths_processed(given, name, d1, c, o);
    with_stays(d2, name, items, key);
}

proof fn all_paths_stay(openapi: Json, c: Seq<Cached>, o: Settings, key: Text)
    requires
        conversion_laws::cache_leads_into_paths(c),
        !conversion_laws::is_paths_container(key),
        key != "components"@,
    ensures
        stays(openapi, main_pass::all_paths_processed(openapi, c, o).0, key),
        conversion_laws::cache_leads_into_paths(
            main_pass::all_paths_processed(openapi, c, o).1,
        ),
{
    container_stays(openapi, "paths"@, c, o, key);
    conversion_laws::container_leads_into_paths(openapi, "paths"@, c, o);
    let (d1, c1, o1, e1) = main_pass::container_processed(openapi, "paths"@, c, o);
    container_stays(d1, "x-ms-paths"@, c1, o1, key);
    conversion_laws::container_leads_into_paths(d1, "x-ms-paths"@, c1, o1);
}

// --- shared bodies ---------------------------------------------------------

proof fn placed_refs_stay(openapi: Json, all: Seq<Text>, i: nat, v: Json, key: Text)
    requires
        forall|q: int| 0 <= q < all.len() ==> conversion_laws::leads_into_paths(#[trigger] all[q]),
        !conversion_laws::is_paths_container(key),
    ensures
        stays(openapi, components::refs_placed(openapi, all, i, v), key),
    decreases all.len() - i,
{
    if i < all.len() {
        let r = all[i as int];
        assert(conversion_laws::leads_into_paths(r));
        write_stays(openapi, r, v, key);
        placed_refs_stay(jptr::write(openapi, r, v).0, all, i + 1, v, key);
    }
}

proof fn extraction_stays(x: components::Extraction, c: Seq<Cached>, i: nat, key: Text)
    requires
        conversion_laws::cache_leads_into_paths(c),
        !conversion_laws::is_paths_container(key),
        key != "components"@,
    ensures
        stays(x.openapi, components::entries_extracted(x, c, i).openapi, key),
    decreases c.len() - i,
{
    if i < c.len() {
        let e = c[i as int];
        let x1 = components::entry_extracted(x, e);
        if e.refs.len() > 1 {
            let name = components::shared_name(x, e.name);
            let bucket = components::bucket_path("requestBodies"@);
            if let Some(bodies) = json::value_at(x.openapi, bucket, 0) {
                with_at_stays(x.openapi, bucket, bodies.with(name, e.body), key);
            }
            let placed = components::body_placed(x.openapi, name, e.body);
            assert forall|q: int|
                0 <= q < e.refs.len() implies conversion_laws::leads_into_paths(
                #[trigger] e.refs[q],
            ) by {
                assert(c[i as int].refs[q] == e.refs[q]);
            }
            placed_refs_stay(placed, e.refs, 0, components::shared_ref(name), key);
        }
        extraction_stays(x1, c, i + 1, key);
    }
}

proof fn shared_bodies_stay(openapi: Json, c: Seq<Cached>, o: Settings, key: Text)
    requires
        conversion_laws::cache_leads_into_paths(c),
        !conversion_laws::is_paths_container(key),
        key != "components"@,
    ensures
        stays(
            openapi,
            components::components_pruned(components::bodies_shared(openapi, c, o)),
            key,
        ),
{
    let d1 = components::bodies_reset(openapi);
    if let Some(v) = openapi.member("components"@) {
        with_stays(openapi, "components"@, v.with("requestBodies"@, Json::empty()), key);
    }
    extraction_stays(
        components::Extraction { openapi: d1, given: Seq::empty(), counter: 1 },
        c,
        0,
        key,
    );
    let d2 = components::bodies_shared(openapi, c, o);
    let d3 = match d2.member("components"@) {
        Some(Json::Object(m)) => d2.with(
            "components"@,
            Json::Object(
                components::empty_dropped(m, common::words(components::PRUNED_BUCKETS@), 0),
            ),
        ),
        _ => d2,
    };
    if let Some(Json::Object(m)) = d2.member("components"@) {
        with_stays(
            d2,
            "components"@,
            Json::Object(
                components::empty_dropped(m, common::words(components::PRUNED_BUCKETS@), 0),
            ),
            key,
        );
    }
    without_stays(d3, "components"@, key);
}

// --- the core --------------------------------------------------------------

/// Whether the conversion core works on a top-level member.
pub open spec fn is_converted_member(key: Text) -> bool {
    conversion_laws::is_paths_container(key) || key == "components"@ || key == "security"@ || key
        == "consumes"@ || key == "produces"@ || key == "schemes"@ || key == "x-s2o-consumes"@
        || key == "x-s2o-produces"@
}

/// The document that references are rewritten in, the new names of its schemas and
/// the settings.
pub open spec fn before_refs(openapi: Json, o: Settings) -> (Json, Members, Settings) {
    let d0 = match openapi.member("security"@) {
        Some(v) => openapi.with("security"@, security::security_fixed(v)),
        None => openapi,
    };
    let (d1, o1, e1) = components::security_schemes_processed(d0, o);
    let (d2, names, o2, e2) = components::schemas_processed(d1, o1);
    (d2, names, o2)
}

/// Where the references of a document are relocated from, and to.
pub open spec fn relocations(openapi: Json, o: Settings) -> Members {
    let (d2, names, o2) = before_refs(openapi, o);
    refs::sites_rewritten(d2, refs::ref_sites(d2), 0, names, Seq::empty(), o2).1
}

proof fn before_refs_stays(openapi: Json, o: Settings, key: Text)
    requires
        key != "components"@,
        key != "security"@,
    ensures
        stays(openapi, before_refs(openapi, o).0, key),
{
    let d0 = match openapi.member("security"@) {
        Some(v) => openapi.with("security"@, security::security_fixed(v)),
        None => openapi,
    };
    if let Some(v) = openapi.member("security"@) {
        with_stays(openapi, "security"@, security::security_fixed(v), key);
    }
    let names = components::bucket_names(d0, "securitySchemes"@);
    schemes_stay(d0, names, 0, o, key);
    let (d1, o1, e1) = components::security_schemes_processed(d0, o);
    schemas_stay(d1, components::bucket_names(d1, "schemas"@), 0, Seq::empty(), o1, key);
}

/// The names of a reference are none that the conversion core works on.
proof fn reference_names_differ()
    ensures
        "$ref"@ != "components"@,
        "$ref"@ != "security"@,
        "x-ms-odata"@ != "components"@,
        "x-ms-odata"@ != "security"@,
{
    reveal_strlit("$ref");
    reveal_strlit("x-ms-odata");
    reveal_strlit("components");
    reveal_strlit("security");
    assert("$ref"@.len() == 4 && "components"@.len() == 10 && "security"@.len() == 8);
    assert("x-ms-odata"@.len() == 10 && "x-ms-odata"@[0] == 'x' && "components"@[0] == 'c');
}

proof fn components_stay(openapi: Json, o: Settings, key: Text)
    requires
        openapi is Object,
        json::distinct(openapi.members()),
        main_pass::components_processed(openapi, o).2 is None,
        !is_converted_member(key),
        is_plain_member(openapi, key),
        !is_site(openapi),
        !relocates(relocations(openapi, o), key),
    ensures
        stays(openapi, main_pass::components_processed(openapi, o).0, key),
{
    before_refs_stays(openapi, o, key);
    sites_are_below(openapi, o);
    let (d2, names, o2) = before_refs(openapi, o);
    let all = refs::ref_sites(d2);
    sites_stay(d2, all, 0, names, Seq::empty(), o2, key);
    let (d, m, o3, e3) = refs::sites_rewritten(d2, all, 0, names, Seq::empty(), o2);
    deduped_stay(d, m, 0, key);
    let (d3, o4, e4) = refs::refs_fixed(d2, names, o2);
    params_stay(d3, components::bucket_names(d3, "parameters"@), 0, o4, key);
    let (d4, o5, e5) = components::component_params_processed(d3, o4);
    responses_stay(d4, components::bucket_names(d4, "responses"@), 0, o5, key);
}

/// The conversion core leaves a top-level member that it does not work on as it is,
/// or away, where the member is no container, the document holds no reference of its
/// own and no reference is relocated from the member or from the whole document.
pub proof fn core_leaves_members(openapi: Json, o: Settings, key: Text)
    requires
        openapi is Object,
        json::distinct(openapi.members()),
        main_pass::main_converted(openapi, o).2 is None,
        !is_converted_member(key),
        is_plain_member(openapi, key),
        !is_site(openapi),
        !relocates(relocations(openapi, o), key),
    ensures
        json::distinct(main_pass::main_converted(openapi, o).0.members()),
        main_pass::main_converted(openapi, o).0.member(key) == openapi.member(key),
{
    reveal(main_pass::main_converted);
    components_stay(openapi, o, key);
    let (d1, o1, e1) = main_pass::components_processed(openapi, o);
    let bodies = components::existing_bodies(d1);
    let c1 = components::bodies_seen(Seq::empty(), bodies, 0);
    conversion_laws::existing_bodies_lead_nowhere(Seq::empty(), bodies, 0);
    all_paths_stay(d1, c1, o1, key);
    let (d2, c2, o2, e2) = main_pass::all_paths_processed(d1, c1, o1);
    finished_stays(d2, c2, o2, key);
}

/// What follows the conversion of the paths lets a member stay.
proof fn finished_stays(d2: Json, c2: Seq<Cached>, o2: Settings, key: Text)
    requires
        conversion_laws::cache_leads_into_paths(c2),
        !is_converted_member(key),
    ensures
        ({
            let d3 = components::consumed_params_dropped(d2, o2);
            let d4 = operation::media_types_dropped(d3, o2);
            stays(
                d2,
                components::components_pruned(components::bodies_shared(d4, c2, o2)),
                key,
            )
        }),
{
    let bucket = components::bucket_path("parameters"@);
    if let Some(Json::Object(m)) = json::value_at(d2, bucket, 0) {
        with_at_stays(d2, bucket, Json::Object(components::marked_dropped(m, m, 0)), key);
    }
    let d3 = components::consumed_params_dropped(d2, o2);
    dropped_types_stay(d3, o2, key);
    let d4 = operation::media_types_dropped(d3, o2);
    shared_bodies_stay(d4, c2, o2, key);
}

proof fn dropped_types_stay(j: Json, o: Settings, key: Text)
    requires
        !is_converted_member(key),
    ensures
        stays(j, operation::media_types_dropped(j, o), key),
{
    let none = Json::Array(Seq::empty());
    let consumes = json::value_or(j.member("consumes"@), none);
    let produces = json::value_or(j.member("produces"@), none);
    let j1 = j.with("x-s2o-consumes"@, consumes);
    with_stays(j, "x-s2o-consumes"@, consumes, key);
    with_stays(j1, "x-s2o-produces"@, produces, key);
    let j2 = if o.debug {
        j1.with("x-s2o-produces"@, produces)
    } else {
        j
    };
    without_stays(j2, "consumes"@, key);
    without_stays(j2.without("consumes"@), "produces"@, key);
    without_stays(j2.without("consumes"@).without("produces"@), "schemes"@, key);
}

/// The sites of a document before its references are rewritten.
proof fn sites_are_below(openapi: Json, o: Settings)
    requires
        openapi is Object,
        json::distinct(openapi.members()),
        !is_site(openapi),
    ensures
        no_site_is_whole(refs::ref_sites(before_refs(openapi, o).0)),
{
    reference_names_differ();
    before_refs_stays(openapi, o, "$ref"@);
    before_refs_stays(openapi, o, "x-ms-odata"@);
    let d2 = before_refs(openapi, o).0;
    let none = Seq::<(Text, bool)>::empty();
    assert(no_site_is_whole(none));
    sites_of_document(json::height(d2), recurse::child_keys(d2), 0, none, d2);
}

/// The conversion core adds no top-level member but those that it works on, where
/// the document holds no reference of its own and is no target of one.
pub proof fn core_adds_no_member(openapi: Json, o: Settings, key: Text)
    requires
        openapi is Object,
        json::distinct(openapi.members()),
        main_pass::main_converted(openapi, o).2 is None,
        !is_converted_member(key),
        !openapi.has(key),
        !is_site(openapi),
        !relocates_whole(relocations(openapi, o)),
    ensures
        !main_pass::main_converted(openapi, o).0.has(key),
{
    before_refs_stays(openapi, o, key);
    sites_are_below(openapi, o);
    let (d2, names, o2) = before_refs(openapi, o);
    missing_is_not_relocated(d2, refs::ref_sites(d2), 0, names, Seq::empty(), o2, key);
    let m = relocations(openapi, o);
    assert(none_from(m, key));
    core_leaves_members(openapi, o, key);
}

// --- whole conversions -----------------------------------------------------

/// What a finished conversion of a Swagger document puts out: no member that only
/// Swagger knows, and the version of OpenAPI, where the document holds no reference
/// of its own and is no target of one. A document that has an `openapi` member
/// already, or a reference to it, is left out of what is said of the version.
pub proof fn converted_document(swagger: Json, o: Settings)
    requires
        convert::begun(swagger, o).1 == Ok::<Stage, Text>(Stage::Skeleton),
        convert::converted(swagger, o).1 == Outcome::Done,
        ({
            let s = convert::begun(swagger, o).0;
            &&& !is_site(s.openapi)
            &&& !relocates_whole(relocations(s.openapi, s.with_openapi(Json::Null)))
        }),
    ensures
        ({
            let s = convert::begun(swagger, o).0;
            let d = convert::converted(swagger, o).0.openapi;
            &&& !d.has("swagger"@) && !d.has("host"@) && !d.has("basePath"@)
            &&& !d.has("definitions"@) && !d.has("responses"@) && !d.has("parameters"@) && !d.has(
                "securityDefinitions"@,
            )
            &&& !convert::given_document(swagger).has("openapi"@) && !relocates(
                relocations(s.openapi, s.with_openapi(Json::Null)),
                "openapi"@,
            ) ==> d.member("openapi"@) == Some(Json::String(skeleton::target_version(o)))
        }),
{
    let doc = convert::given_document(swagger);
    let o1 = convert::started(doc, o);
    let s = convert::begun(swagger, o).0;
    let d0 = skeleton::skeleton(doc, o1).0;
    conversion_laws::skeleton_of_document(doc, o1, "openapi"@);
    swagger_names_differ();
    let core = s.with_openapi(Json::Null);
    core_adds_no_member(d0, core, "swagger"@);
    core_adds_no_member(d0, core, "host"@);
    core_adds_no_member(d0, core, "basePath"@);
    core_adds_no_member(d0, core, "definitions"@);
    core_adds_no_member(d0, core, "responses"@);
    core_adds_no_member(d0, core, "parameters"@);
    core_adds_no_member(d0, core, "securityDefinitions"@);
    if !doc.has("openapi"@) && !relocates(relocations(d0, core), "openapi"@) {
        core_leaves_members(d0, core, "openapi"@);
    }
}

/// The members that only Swagger knows are none that the conversion core works on.
proof fn swagger_names_differ()
    ensures
        !is_converted_member("swagger"@),
        !is_converted_member("host"@),
        !is_converted_member("basePath"@),
        !is_converted_member("definitions"@),
        !is_converted_member("responses"@),
        !is_converted_member("parameters"@),
        !is_converted_member("securityDefinitions"@),
        !is_converted_member("openapi"@),
{
    reveal_strlit("swagger");
    reveal_strlit("host");
    reveal_strlit("basePath");
    reveal_strlit("definitions");
    reveal_strlit("responses");
    reveal_strlit("parameters");
    reveal_strlit("securityDefinitions");
    reveal_strlit("openapi");
    reveal_strlit("components");
    reveal_strlit("security");
    reveal_strlit("consumes");
    reveal_strlit("produces");
    reveal_strlit("schemes");
    reveal_strlit("paths");
    reveal_strlit("x-ms-paths");
    reveal_strlit("x-s2o-consumes");
    reveal_strlit("x-s2o-produces");
    assert("swagger"@.len() == 7 && "host"@.len() == 4 && "basePath"@.len() == 8);
    assert("definitions"@.len() == 11 && "responses"@.len() == 9 && "parameters"@.len() == 10);
    assert("securityDefinitions"@.len() == 19 && "openapi"@.len() == 7);
    assert("components"@.len() == 10 && "security"@.len() == 8 && "consumes"@.len() == 8);
    assert("produces"@.len() == 8 && "schemes"@.len() == 7 && "paths"@.len() == 5);
    assert("x-ms-paths"@.len() == 10 && "x-s2o-consumes"@.len() == 14);
    assert("x-s2o-produces"@.len() == 14);
    assert("swagger"@[1] == 'w' && "schemes"@[1] == 'c' && "openapi"@[0] == 'o');
    assert("schemes"@[0] == 's' && "basePath"@[0] == 'b' && "security"@[0] == 's');
    assert("consumes"@[0] == 'c' && "produces"@[0] == 'p' && "parameters"@[0] == 'p');
    assert("components"@[0] == 'c' && "x-ms-paths"@[0] == 'x');
}

// --- names -----------------------------------------------------------------

/// A schema that gets another name gets one that no schema has.
pub proof fn schema_name_is_free(openapi: Json, s: Text)
    requires
        s != common::sanitised_all(s),
    ensures
        json::value_at(openapi, components::bucket_path("schemas"@), 0) matches Some(
            Json::Object(m),
        ) ==> !json::has_key(m, components::schema_final_name(openapi, s)),
{
    if let Some(Json::Object(m)) = json::value_at(
        openapi,
        components::bucket_path("schemas"@),
        0,
    ) {
        let sname = common::sanitised_all(s);
        let taken = |k: nat| json::has_key(m, sname + suffix::suffix_at(None, k));
        let longest = suffix::longest_name(m, 0);
        let bound = suffix::pow10(longest);
        suffix::long_suffix(None, bound, longest);
        if taken(bound) {
            let name = sname + suffix::suffix_at(None, bound);
            laws::index_found(m, name, 0);
            suffix::name_is_short(m, 0, json::index_of(m, name));
        }
        suffix::first_free_is_free(taken, bound);
        assert(!taken(suffix::first_free(taken)));
    }
}

/// A shared request body gets a name that no other one has.
pub proof fn shared_name_is_new(x: components::Extraction, name: Text)
    ensures
        !x.given.contains(components::shared_name(x, name)),
{
    if name.len() == 0 {
        given_suffix_is_free(x.given, "requestBody"@, Some(x.counter));
    } else {
        given_suffix_is_free(x.given, name, None);
    }
}

proof fn given_suffix_is_free(given: Seq<Text>, name: Text, start: Option<nat>)
    ensures
        !given.contains(name + components::free_given_suffix(given, name, start)),
{
    let taken = |k: nat| given.contains(name + suffix::suffix_at(start, k));
    let longest = suffix::longest_text(given, 0);
    let bound = suffix::pow10(longest);
    suffix::long_suffix(start, bound, longest);
    if taken(bound) {
        let k = choose|k: int|
            0 <= k < given.len() && given[k] == name + suffix::suffix_at(start, bound);
        suffix::text_is_short(given, 0, k);
    }
    suffix::first_free_is_free(taken, bound);
    assert(!taken(suffix::first_free(taken)));
}

} // verus!
