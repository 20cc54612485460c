//! Laws of servers.

use vstd::prelude::*;

use crate::convert::operation;
use crate::convert::servers;
use crate::json::{self, Json, Text};
use crate::laws;
use crate::name_laws;
use crate::text;

verus! {

/// The words that these laws speak of differ.
proof fn server_words()
    ensures
        "url"@.len() == 3,
        "host"@.len() == 4,
        "servers"@.len() == 7 && "servers"@[2] == 'r',
        "default"@.len() == 7 && "default"@[2] == 'f',
        "unknown"@.len() == 7 && "unknown"@[2] == 'k',
        "schemes"@.len() == 7 && "schemes"@[2] == 'h',
        "basePath"@.len() == 8,
        "variables"@.len() == 9 && "variables"@[0] == 'v',
        "x-servers"@.len() == 9 && "x-servers"@[0] == 'x',
{
    reveal_strlit("url");
    reveal_strlit("host");
    reveal_strlit("servers");
    reveal_strlit("default");
    reveal_strlit("unknown");
    reveal_strlit("schemes");
    reveal_strlit("basePath");
    reveal_strlit("variables");
    reveal_strlit("x-servers");
}

// --- templates -------------------------------------------------------------

/// Whether a text holds no two like braces side by side.
pub open spec fn single_braces(s: Text) -> bool {
    forall|k: int|
        0 <= k < s.len() - 1 ==> !(#[trigger] s[k] == '{' && s[k + 1] == '{') && !(s[k] == '}'
            && s[k + 1] == '}')
}

/// Whether a template name stands between the positions `o` and `c`: a brace opens at
/// `o`, closes at `c`, nothing closes it before, and all that open before are closed.
pub open spec fn stands_between(s: Text, o: int, c: int) -> bool {
    &&& 0 <= o < c < s.len()
    &&& s[o] == '{' && s[c] == '}'
    &&& forall|k: int| o < k < c ==> #[trigger] s[k] != '}'
    &&& forall|k: int|
        0 <= k < o && #[trigger] s[k] == '{' ==> exists|q: int| k < q < o && #[trigger] s[q] == '}'
}

/// A replacement of what does not occur changes nothing.
pub proof fn nothing_to_replace(s: Text, pat: Text, to: Text, i: int)
    requires
        0 <= i,
        forall|k: int| i <= k < s.len() ==> !(#[trigger] text::stands_at(s, pat, k)),
    ensures
        i <= s.len() ==> text::replace_from(s, pat, to, i) == s.skip(i),
    decreases s.len() - i,
{
    if i < s.len() {
        assert(!text::stands_at(s, pat, i));
        nothing_to_replace(s, pat, to, i + 1);
        assert(seq![s[i]] + s.skip(i + 1) =~= s.skip(i));
    } else if i == s.len() {
        assert(s.skip(i) =~= Seq::empty());
    }
}

proof fn braces_stay(s: Text)
    requires
        single_braces(s),
    ensures
        servers::braces_collapsed(s) == s,
{
    reveal_strlit("{{");
    reveal_strlit("}}");
    assert forall|k: int| 0 <= k < s.len() implies !(#[trigger] text::stands_at(s, "{{"@, k))
        by {
        if k + 2 <= s.len() {
            assert(s.subrange(k, k + 2)[0] == s[k]);
            assert(s.subrange(k, k + 2)[1] == s[k + 1]);
        }
    }
    assert forall|k: int| 0 <= k < s.len() implies !(#[trigger] text::stands_at(s, "}}"@, k))
        by {
        if k + 2 <= s.len() {
            assert(s.subrange(k, k + 2)[0] == s[k]);
            assert(s.subrange(k, k + 2)[1] == s[k + 1]);
        }
    }
    nothing_to_replace(s, "{{"@, "{"@, 0);
    assert(s.skip(0) =~= s);
    nothing_to_replace(s, "}}"@, "}"@, 0);
}

proof fn char_stands(s: Text, pat: Text, k: int)
    requires
        pat.len() == 1,
        0 <= k,
    ensures
        text::stands_at(s, pat, k) == (k < s.len() && s[k] == pat[0]),
{
    if k < s.len() {
        if s[k] == pat[0] {
            assert(s.subrange(k, k + 1) =~= pat);
        } else {
            assert(s.subrange(k, k + 1)[0] == s[k]);
        }
    }
}

proof fn char_is_found(s: Text, pat: Text, i: int, k: int)
    requires
        pat.len() == 1,
        0 <= i <= k < s.len(),
        s[k] == pat[0],
    ensures
        text::find_from(s, pat, i) matches Some(f) && i <= f <= k && s[f] == pat[0],
{
    char_stands(s, pat, k);
    name_laws::search_finds_first(s, pat, i, k);
    char_stands(s, pat, text::find_from(s, pat, i)->0);
}

proof fn name_is_collected(s: Text, i: int, o: int, c: int)
    requires
        stands_between(s, o, c),
        0 <= i <= o,
    ensures
        servers::template_names(s, i).contains(s.subrange(o + 1, c)),
    decreases o - i,
{
    reveal_strlit("{");
    reveal_strlit("}");
    char_is_found(s, "{"@, i, o);
    let open = text::find_from(s, "{"@, i)->0;
    char_is_found(s, "}"@, open + 1, c);
    let close = text::find_from(s, "}"@, open + 1)->0;
    let rest = servers::template_names(s, close + 1);
    let all = seq![s.subrange(open + 1, close)] + rest;
    assert(servers::template_names(s, i) == all);
    if open == o {
        assert(close == c);
        assert(all[0] == s.subrange(o + 1, c));
    } else {
        let q = choose|q: int| open < q < o && #[trigger] s[q] == '}';
        char_is_found(s, "}"@, open + 1, q);
        name_is_collected(s, close + 1, o, c);
        let k = choose|k: int| 0 <= k < rest.len() && rest[k] == s.subrange(o + 1, c);
        assert(all[k + 1] == s.subrange(o + 1, c));
    }
}

proof fn collected_are_names(s: Text, i: int, k: int)
    requires
        0 <= i,
        0 <= k < servers::template_names(s, i).len(),
    ensures
        exists|o: int, c: int|
            i <= o < c < s.len() && #[trigger] s[o] == '{' && #[trigger] s[c] == '}'
                && servers::template_names(s, i)[k] == s.subrange(o + 1, c),
    decreases s.len() + 1 - i,
{
    reveal_strlit("{");
    reveal_strlit("}");
    let open = text::find_from(s, "{"@, i)->0;
    let close = text::find_from(s, "}"@, open + 1)->0;
    found_stands(s, "{"@, i);
    found_stands(s, "}"@, open + 1);
    char_stands(s, "{"@, open);
    char_stands(s, "}"@, close);
    let rest = servers::template_names(s, close + 1);
    let all = seq![s.subrange(open + 1, close)] + rest;
    assert(servers::template_names(s, i) == all);
    if k == 0 {
        assert(all[0] == s.subrange(open + 1, close));
    } else {
        assert(all[k] == rest[k - 1]);
        collected_are_names(s, close + 1, k - 1);
    }
}

/// What a search finds stands there.
pub proof fn found_stands(s: Text, pat: Text, i: int)
    ensures
        text::find_from(s, pat, i) matches Some(f) ==> i <= f && text::stands_at(s, pat, f),
    decreases s.len() + 1 - i,
{
    if i <= s.len() && !text::stands_at(s, pat, i) {
        found_stands(s, pat, i + 1);
    }
}

proof fn variables_are_set(vars: Json, names: Seq<Text>, i: nat, key: Text)
    ensures
        servers::variables_from(vars, names, i).member(key) == (if exists|k: int|
            i <= k < names.len() && #[trigger] names[k] == key {
            Some(Json::single("default"@, Json::String("unknown"@)))
        } else {
            vars.member(key)
        }),
    decreases names.len() - i,
{
    broadcast use laws::group_members;

    if i < names.len() {
        let v = Json::single("default"@, Json::String("unknown"@));
        let vars1 = vars.with(names[i as int], v);
        variables_are_set(vars1, names, i + 1, key);
        if exists|k: int| i <= k < names.len() && #[trigger] names[k] == key {
            let k = choose|k: int| i <= k < names.len() && #[trigger] names[k] == key;
            if k != i {
                assert(i + 1 <= k < names.len() && names[k] == key);
            }
        }
    }
}

/// A server has a variable, with the default `unknown`, for each name that stands in
/// braces in its URL. No other variable appears, and nothing else of the server changes.
pub proof fn templates_become_variables(server: Json, url: Text, o: int, c: int)
    requires
        server.text_member("url"@) == Some(url),
        single_braces(url),
        stands_between(url, o, c),
    ensures
        ({
            let r = servers::server_params_extracted(server);
            &&& r.member2("variables"@, url.subrange(o + 1, c)) == Some(
                Json::single("default"@, Json::String("unknown"@)),
            )
            &&& forall|key: Text| #[trigger]
                r.member2("variables"@, key) != server.member2("variables"@, key) ==> exists|
                    a: int,
                    b: int,
                |
                    0 <= a < b < url.len() && #[trigger] url[a] == '{' && #[trigger] url[b] == '}'
                        && key == url.subrange(a + 1, b)
            &&& forall|key: Text|
                key != "variables"@ ==> #[trigger] r.member(key) == server.member(key)
        }),
{
    broadcast use laws::group_members;

    server_words();
    braces_stay(url);
    name_is_collected(url, 0, o, c);
    let names = servers::template_names(url, 0);
    let s1 = server.with("url"@, Json::String(url));
    let s2 = s1.with_new("variables"@, Json::empty());
    let vars = s2.member("variables"@)->0;
    let r = servers::server_params_extracted(server);
    assert(r == s2.with("variables"@, servers::variables_from(vars, names, 0)));
    let name = url.subrange(o + 1, c);
    variables_are_set(vars, names, 0, name);
    let k = choose|k: int| 0 <= k < names.len() && names[k] == name;
    assert(names[k] == name);
    assert forall|key: Text| #[trigger]
        r.member2("variables"@, key) != server.member2("variables"@, key) implies exists|
        a: int,
        b: int,
    |
        0 <= a < b < url.len() && #[trigger] url[a] == '{' && #[trigger] url[b] == '}' && key
            == url.subrange(a + 1, b) by {
        variables_are_set(vars, names, 0, key);
        if exists|k: int| 0 <= k < names.len() && #[trigger] names[k] == key {
            let k = choose|k: int| 0 <= k < names.len() && #[trigger] names[k] == key;
            collected_are_names(url, 0, k);
        } else {
            assert(vars.member(key) == server.member2("variables"@, key));
        }
    }
}

/// A server whose URL has no braces stays.
pub proof fn plain_server_stays(server: Json, url: Text)
    requires
        server.text_member("url"@) == Some(url),
        forall|k: int| 0 <= k < url.len() ==> #[trigger] url[k] != '{' && url[k] != '}',
    ensures
        forall|key: Text| #[trigger]
            servers::server_params_extracted(server).member(key) == server.member(key),
{
    broadcast use laws::group_members;

    braces_stay(url);
    reveal_strlit("{");
    name_laws::search_misses(url, "{"@, 0);
}

/// Doubled braces in a URL become single braces.
pub proof fn doubled_braces_collapse(server: Json, before: Text, name: Text, after: Text)
    requires
        server.text_member("url"@) == Some(before + seq!['{', '{'] + name + seq!['}', '}'] + after),
        no_brace(before) && no_brace(name) && no_brace(after),
    ensures
        servers::server_params_extracted(server).member("url"@) == Some(
            Json::String(before + seq!['{'] + name + seq!['}'] + after),
        ),
{
    broadcast use laws::group_members;

    server_words();
    reveal_strlit("{{");
    reveal_strlit("}}");
    reveal_strlit("{");
    reveal_strlit("}");
    let u = before + seq!['{', '{'] + name + seq!['}', '}'] + after;
    let t = name + seq!['}', '}'] + after;
    assert(u =~= before + "{{"@ + t);
    assert forall|k: int| 0 <= k < t.len() implies #[trigger] t[k] != '{' by {}
    one_replaced(before, "{{"@, "{"@, t);
    let u1 = before + seq!['{'] + name + seq!['}', '}'] + after;
    assert(before + "{"@ + t =~= u1);
    assert(text::replaced(u, "{{"@, "{"@) == u1);
    let h = before + seq!['{'] + name;
    assert forall|k: int| 0 <= k < h.len() implies #[trigger] h[k] != '}' by {}
    one_replaced(h, "}}"@, "}"@, after);
    assert(u1 =~= h + "}}"@ + after);
    let u2 = before + seq!['{'] + name + seq!['}'] + after;
    assert(h + "}"@ + after =~= u2);
    assert(servers::braces_collapsed(u) == u2);
}

/// Whether a text has no braces.
pub open spec fn no_brace(s: Text) -> bool {
    forall|k: int| 0 <= k < s.len() ==> #[trigger] s[k] != '{' && s[k] != '}'
}

proof fn one_replaced(before: Text, pat: Text, to: Text, after: Text)
    requires
        pat.len() == 2,
        pat[0] == pat[1],
        forall|k: int| 0 <= k < before.len() ==> #[trigger] before[k] != pat[0],
        forall|k: int| 0 <= k < after.len() ==> #[trigger] after[k] != pat[0],
    ensures
        text::replaced(before + pat + after, pat, to) == before + to + after,
{
    let s = before + pat + after;
    let n = before.len() as int;
    assert forall|k: int| n + 2 <= k < s.len() implies !(#[trigger] text::stands_at(s, pat, k)) by {
        if k + 2 <= s.len() {
            assert(s.subrange(k, k + 2)[0] == s[k]);
            assert(s[k] == after[k - n - 2]);
        }
    }
    nothing_to_replace(s, pat, to, n + 2);
    assert(s.skip(n + 2) =~= after);
    assert(s.subrange(n, n + 2) =~= pat);
    assert(text::stands_at(s, pat, n));
    assert(text::replace_from(s, pat, to, n) == to + after);
    assert(s.take(n) =~= before);
    kept_before(s, pat, to, before, 0, to + after);
    assert(before.skip(0) + (to + after) =~= before + to + after);
}

proof fn kept_before(s: Text, pat: Text, to: Text, before: Text, i: int, rest: Text)
    requires
        pat.len() > 0,
        0 <= i <= before.len() < s.len(),
        s.take(before.len() as int) == before,
        forall|k: int| 0 <= k < before.len() ==> #[trigger] before[k] != pat[0],
        text::replace_from(s, pat, to, before.len() as int) == rest,
    ensures
        text::replace_from(s, pat, to, i) == before.skip(i) + rest,
    decreases before.len() - i,
{
    if i < before.len() {
        kept_before(s, pat, to, before, i + 1, rest);
        assert(s.take(before.len() as int)[i] == s[i]);
        if i + pat.len() <= s.len() {
            assert(s.subrange(i, i + pat.len())[0] == s[i]);
        }
        assert(seq![s[i]] + (before.skip(i + 1) + rest) =~= before.skip(i) + rest);
    } else {
        assert(before.skip(i) + rest =~= rest);
    }
}

// --- the servers of a document ---------------------------------------------

/// The servers that a document lists.
pub open spec fn servers_of(j: Json) -> Seq<Json> {
    match j.member("servers"@) {
        Some(Json::Array(a)) => a,
        _ => Seq::empty(),
    }
}

/// Whether one text is the other without the slashes at its end.
pub open spec fn is_without_end_slashes(t: Text, s: Text) -> bool {
    &&& t.len() <= s.len() && s.take(t.len() as int) == t
    &&& t.len() > 0 ==> t.last() != '/'
    &&& forall|k: int| t.len() <= k < s.len() ==> #[trigger] s[k] == '/'
}

proof fn trailing_slashes_go(s: Text)
    ensures
        is_without_end_slashes(text::without_trailing(s, '/'), s),
    decreases s.len(),
{
    let t = text::without_trailing(s, '/');
    if s.len() > 0 && s.last() == '/' {
        let s1 = s.drop_last();
        trailing_slashes_go(s1);
        assert(s1.take(t.len() as int) =~= s.take(t.len() as int));
        assert forall|k: int| t.len() <= k < s.len() implies #[trigger] s[k] == '/' by {
            if k < s1.len() {
                assert(s1[k] == s[k]);
            }
        }
    } else {
        assert(s.take(s.len() as int) =~= s);
    }
}

/// The text of the base path.
pub open spec fn base_of(swagger: Json) -> Text {
    match swagger.text_member("basePath"@) {
        Some(s) => s,
        None => Seq::empty(),
    }
}

proof fn hosts_are_served(openapi: Json, schemes: Seq<Text>, i: nat, host: Text, swagger: Json)
    requires
        !openapi.has("servers"@) || openapi.member("servers"@)->0 is Array,
        i <= schemes.len(),
    ensures
        ({
            let r = servers::host_servers_from(openapi, schemes, i, host, swagger);
            let s = servers_of(r);
            let n = servers_of(openapi).len();
            &&& json::distinct(openapi.members()) ==> json::distinct(r.members())
            &&& s.len() == n + schemes.len() - i
            &&& i < schemes.len() ==> r.member("servers"@) == Some(Json::Array(s))
            &&& forall|k: int| 0 <= k < n ==> #[trigger] s[k] == servers_of(openapi)[k]
            &&& forall|k: int|
                n <= k < s.len() ==> #[trigger] s[k] == servers::server_params_extracted(
                    Json::single(
                        "url"@,
                        Json::String(servers::server_url(schemes[k - n + i], host, swagger)),
                    ),
                )
            &&& forall|key: Text|
                key != "servers"@ ==> #[trigger] r.member(key) == openapi.member(key)
        }),
    decreases schemes.len() - i,
{
    broadcast use laws::group_members;

    if i < schemes.len() {
        let url = servers::server_url(schemes[i as int], host, swagger);
        let server = servers::server_params_extracted(Json::single("url"@, Json::String(url)));
        let d0 = openapi.with_new("servers"@, Json::Array(Seq::empty()));
        let d1 = servers::server_pushed(openapi, server);
        let a = servers_of(openapi);
        assert(d0.member("servers"@) == Some(Json::Array(a)));
        assert(d1 == d0.with("servers"@, Json::Array(a.push(server))));
        assert(servers_of(d1) == a.push(server));
        hosts_are_served(d1, schemes, i + 1, host, swagger);
        let s = servers_of(servers::host_servers_from(openapi, schemes, i, host, swagger));
        assert forall|k: int| 0 <= k < a.len() implies #[trigger] s[k] == a[k] by {
            assert(servers_of(d1)[k] == a[k]);
        }
        assert forall|k: int| a.len() <= k < s.len() implies #[trigger] s[k]
            == servers::server_params_extracted(
            Json::single(
                "url"@,
                Json::String(servers::server_url(schemes[k - a.len() + i], host, swagger)),
            ),
        ) by {
            if k == a.len() {
                assert(servers_of(d1)[k] == server);
            }
        }
    }
}

/// The texts of a list of texts.
pub open spec fn all_texts(a: Seq<Json>) -> bool {
    forall|k: int| 0 <= k < a.len() ==> (#[trigger] a[k]) is String
}

proof fn strings_are_all(a: Seq<Json>, i: nat)
    requires
        all_texts(a),
        i <= a.len(),
    ensures
        ({
            let s = crate::convert::body::strings_from(a, i);
            &&& s.len() == a.len() - i
            &&& forall|k: int| 0 <= k < s.len() ==> Json::String(#[trigger] s[k]) == a[k + i]
        }),
    decreases a.len() - i,
{
    if i < a.len() {
        assert(a[i as int] is String);
        strings_are_all(a, i + 1);
    }
}

/// A document with a host has one server for each of its schemes, in their order, behind
/// the servers that it has already. The URL of each is made of the scheme, the host, and
/// the base path without the slashes at its end.
pub proof fn host_gets_server_for_each_scheme(
    openapi: Json,
    swagger: Json,
    host: Text,
    schemes: Seq<Json>,
    k: int,
)
    requires
        json::distinct(openapi.members()),
        !openapi.has("servers"@) || openapi.member("servers"@)->0 is Array,
        swagger.text_member("host"@) == Some(host),
        swagger.member("schemes"@) == Some(Json::Array(schemes)),
        all_texts(schemes),
        0 <= k < schemes.len(),
        schemes[k]->String_0.len() > 0,
        no_brace(schemes[k]->String_0) && no_brace(host) && no_brace(base_of(swagger)),
    ensures
        ({
            let r = servers::servers_built(openapi, swagger);
            let n = servers_of(openapi).len();
            &&& servers_of(r).len() == n + schemes.len()
            &&& forall|q: int| 0 <= q < n ==> #[trigger] servers_of(r)[q] == servers_of(openapi)[q]
            &&& exists|base: Text| #[trigger] is_without_end_slashes(base, base_of(swagger))
                && servers_of(r)[n + k].member("url"@) == Some(
                Json::String(schemes[k]->String_0 + seq![':', '/', '/'] + host + base),
            )
            &&& !servers_of(r)[n + k].has("variables"@)
            &&& !r.has("host"@) && !r.has("basePath"@)
            &&& forall|key: Text|
                key != "servers"@ && key != "host"@ && key != "basePath"@ ==> #[trigger] r.member(
                    key,
                ) == openapi.member(key)
        }),
{
    broadcast use laws::group_members;

    server_words();
    reveal_strlit("");
    strings_are_all(schemes, 0);
    let names = servers::document_schemes(swagger);
    hosts_are_served(openapi, names, 0, host, swagger);
    let d1 = servers::host_servers_from(openapi, names, 0, host, swagger);
    let r = servers::servers_built(openapi, swagger);
    assert(r == d1.without("host"@).without("basePath"@));
    assert(servers_of(r) == servers_of(d1));
    let n = servers_of(openapi).len() as int;
    assert(Json::String(names[k]) == schemes[k + 0]);
    let scheme = names[k];
    assert(servers::base_path(swagger) =~= base_of(swagger));
    trailing_slashes_go(base_of(swagger));
    let base = text::without_trailing(base_of(swagger), '/');
    reveal_strlit(":");
    reveal_strlit("//");
    let url = scheme + seq![':', '/', '/'] + host + base;
    assert(servers::server_url(scheme, host, swagger) =~= url);
    assert forall|q: int| 0 <= q < url.len() implies #[trigger] url[q] != '{' && url[q] != '}' by {
        let h = scheme.len() as int + 3;
        if q < scheme.len() {
            assert(url[q] == scheme[q]);
        } else if q < h {
        } else if q < h + host.len() {
            assert(url[q] == host[q - h]);
        } else {
            assert(url[q] == base[q - h - host.len()]);
            assert(base_of(swagger).take(base.len() as int)[q - h - host.len()] == base[q - h
                - host.len()]);
        }
    }
    let server = Json::single("url"@, Json::String(url));
    plain_server_stays(server, url);
    assert(servers_of(d1)[n + k] == servers::server_params_extracted(server));
    assert(is_without_end_slashes(base, base_of(swagger)));
}

/// A document without a host has one server at its base path, behind the servers that it
/// has already, or none where it has no base path.
pub proof fn base_path_gets_server(openapi: Json, swagger: Json, base: Text)
    requires
        json::distinct(openapi.members()),
        !openapi.has("servers"@) || openapi.member("servers"@)->0 is Array,
        !(swagger.member("host"@) matches Some(Json::String(_))),
        base_of(swagger) == base && no_brace(base),
    ensures
        ({
            let s = servers_of(servers::servers_built(openapi, swagger));
            let n = servers_of(openapi).len();
            if swagger.text_member("basePath"@) is Some {
                &&& s.len() == n + 1
                &&& s.take(n as int) == servers_of(openapi)
                &&& s[n as int].member("url"@) == Some(Json::String(base))
            } else {
                s == servers_of(openapi)
            }
        }),
{
    broadcast use laws::group_members;

    server_words();
    let a = servers_of(openapi);
    if swagger.text_member("basePath"@) is Some {
        let server = Json::single("url"@, Json::String(base));
        plain_server_stays(server, base);
        let x = servers::server_params_extracted(server);
        let d0 = openapi.with_new("servers"@, Json::Array(Seq::empty()));
        assert(d0.member("servers"@) == Some(Json::Array(a)));
        let d1 = d0.with("servers"@, Json::Array(a.push(x)));
        assert(servers::server_pushed(openapi, x) == d1);
        assert(servers_of(servers::servers_built(openapi, swagger)) == a.push(x));
        assert(a.push(x).take(a.len() as int) =~= a);
    }
}

// --- the servers of an operation -------------------------------------------

/// What stands before `://` in a URL is replaced by another scheme.
pub proof fn scheme_is_replaced(before: Text, rest: Text, scheme: Text)
    requires
        forall|k: int| 0 <= k < before.len() ==> #[trigger] before[k] != ':',
    ensures
        operation::url_with_scheme(before + "://"@ + rest, scheme) == scheme + "://"@ + rest,
{
    reveal_strlit("://");
    let url = before + "://"@ + rest;
    let n = before.len() as int;
    assert(url.subrange(n, n + 3) =~= "://"@);
    assert(text::stands_at(url, "://"@, n));
    name_laws::search_finds_first(url, "://"@, 0, n);
    let f = text::find_from(url, "://"@, 0)->0;
    if f < n {
        assert(url.subrange(f, f + 3)[0] == url[f]);
        assert(url[f] == before[f]);
    }
    assert(url.skip(n + 3) =~= rest);
}

/// A URL without a colon gets the scheme, in front of its slashes where it has them.
pub proof fn scheme_is_put_in_front(rest: Text, scheme: Text)
    requires
        forall|k: int| 0 <= k < rest.len() ==> #[trigger] rest[k] != ':',
    ensures
        operation::url_with_scheme("//"@ + rest, scheme) == scheme + "://"@ + rest,
        rest.len() > 0 && rest[0] != '/' ==> operation::url_with_scheme(rest, scheme) == scheme
            + "://"@ + rest,
{
    reveal_strlit("://");
    reveal_strlit("//");
    name_laws::search_misses(rest, "://"@, 0);
    if rest.len() > 0 && rest[0] != '/' {
        if text::starts(rest, "//"@) {
            assert(rest.subrange(0, 2)[0] == rest[0]);
        }
    }
    let t = "//"@ + rest;
    assert forall|k: int| 0 <= k < t.len() implies #[trigger] t[k] != ':' by {
        if k >= 2 {
            assert(t[k] == rest[k - 2]);
        }
    }
    name_laws::search_misses(t, "://"@, 0);
    assert(t.subrange(0, 2) =~= "//"@);
    assert(t.skip(2) =~= rest);
}

/// Listed servers of an operation replace those that it has, whatever its schemes are.
pub proof fn listed_servers_stand(op: Json, openapi: Json, a: Seq<Json>)
    requires
        json::distinct(op.members()),
        op.member("x-servers"@) == Some(Json::Array(a)),
    ensures
        ({
            let r = operation::op_servers_converted(op, openapi);
            &&& servers_of(r) == a
            &&& !r.has("x-servers"@)
            &&& forall|key: Text|
                key != "servers"@ && key != "x-servers"@ ==> #[trigger] r.member(key) == op.member(
                    key,
                )
        }),
{
    broadcast use laws::group_members;

    server_words();
}

/// Whether a server is another one under a scheme.
pub open spec fn is_under_scheme(x: Json, server: Json, scheme: Text) -> bool {
    &&& server.text_member("url"@) matches Some(u) ==> x.member("url"@) == Some(
        Json::String(operation::url_with_scheme(u, scheme)),
    )
    &&& server.text_member("url"@) is None ==> x == server
    &&& forall|key: Text| key != "url"@ ==> #[trigger] x.member(key) == server.member(key)
}

proof fn servers_are_copied(op: Json, list: Seq<Json>, i: nat, scheme: Json)
    requires
        op.member("servers"@) is Some && op.member("servers"@)->0 is Array,
        scheme is String,
        i <= list.len(),
    ensures
        ({
            let r = operation::servers_from(op, list, i, scheme);
            let n = servers_of(op).len();
            &&& r.member("servers"@) == Some(Json::Array(servers_of(r)))
            &&& servers_of(r).len() == n + list.len() - i
            &&& forall|k: int| 0 <= k < n ==> #[trigger] servers_of(r)[k] == servers_of(op)[k]
            &&& forall|k: int|
                n <= k < servers_of(r).len() ==> is_under_scheme(
                    #[trigger] servers_of(r)[k],
                    list[k - n + i],
                    scheme->String_0,
                )
            &&& forall|key: Text|
                key != "servers"@ ==> #[trigger] r.member(key) == op.member(key)
        }),
    decreases list.len() - i,
{
    broadcast use laws::group_members;

    if i < list.len() {
        server_words();
        let a = servers_of(op);
        let x = operation::server_with_scheme(list[i as int], scheme);
        assert(is_under_scheme(x, list[i as int], scheme->String_0));
        let op1 = operation::server_appended(op, x);
        assert(op1 == op.with("servers"@, Json::Array(a.push(x))));
        servers_are_copied(op1, list, i + 1, scheme);
        let s = servers_of(operation::servers_from(op, list, i, scheme));
        assert forall|k: int| 0 <= k < a.len() implies #[trigger] s[k] == a[k] by {
            assert(servers_of(op1)[k] == a[k]);
        }
        assert forall|k: int| a.len() <= k < s.len() implies is_under_scheme(
            #[trigger] s[k],
            list[k - a.len() + i],
            scheme->String_0,
        ) by {
            if k == a.len() {
                assert(servers_of(op1)[k] == x);
            }
        }
    }
}

/// Whether an operation has a server under a scheme.
pub open spec fn has_server(op: Json, server: Json, scheme: Text) -> bool {
    exists|q: int|
        0 <= q < servers_of(op).len() && is_under_scheme(
            #[trigger] servers_of(op)[q],
            server,
            scheme,
        )
}

/// Whether an operation serves a scheme: it has each of the servers under it.
pub open spec fn serves(op: Json, list: Seq<Json>, scheme: Text) -> bool {
    forall|k: int| 0 <= k < list.len() ==> #[trigger] has_server(op, list[k], scheme)
}

/// Whether the servers of one operation are the first of the other.
spec fn has_first(r: Json, op: Json) -> bool {
    &&& servers_of(op).len() <= servers_of(r).len()
    &&& forall|k: int|
        0 <= k < servers_of(op).len() ==> #[trigger] servers_of(r)[k] == servers_of(op)[k]
}

proof fn serves_still(op: Json, r: Json, list: Seq<Json>, scheme: Text)
    requires
        serves(op, list, scheme),
        has_first(r, op),
    ensures
        serves(r, list, scheme),
{
    assert forall|k: int| 0 <= k < list.len() implies #[trigger] has_server(r, list[k], scheme) by {
        assert(has_server(op, list[k], scheme));
        let q = choose|q: int|
            0 <= q < servers_of(op).len() && is_under_scheme(
                #[trigger] servers_of(op)[q],
                list[k],
                scheme,
            );
        assert(is_under_scheme(servers_of(r)[q], list[k], scheme));
    }
}

proof fn scheme_is_served(op: Json, schemes: Seq<Json>, i: int, openapi: Json)
    requires
        0 <= i < schemes.len(),
        schemes[i] is String,
        !has_equal(schemes_of(openapi), schemes[i]),
        !op.has("servers"@) || op.member("servers"@)->0 is Array,
    ensures
        ({
            let op0 = op.with_new("servers"@, Json::Array(Seq::empty()));
            let r = operation::servers_from(op0, servers_of(openapi), 0, schemes[i]);
            &&& r.member("servers"@) == Some(Json::Array(servers_of(r)))
            &&& has_first(r, op)
            &&& serves(r, servers_of(openapi), schemes[i]->String_0)
            &&& forall|q: int|
                servers_of(op).len() <= q < servers_of(r).len() ==> is_wanted(
                    #[trigger] servers_of(r)[q],
                    schemes,
                    openapi,
                )
            &&& forall|key: Text|
                key != "servers"@ ==> #[trigger] r.member(key) == op.member(key)
        }),
{
    broadcast use laws::group_members;

    let list = servers_of(openapi);
    let scheme = schemes[i]->String_0;
    let a = servers_of(op);
    let op0 = op.with_new("servers"@, Json::Array(Seq::empty()));
    assert(op0.member("servers"@) == Some(Json::Array(a)));
    servers_are_copied(op0, list, 0, schemes[i]);
    let r = operation::servers_from(op0, list, 0, schemes[i]);
    assert forall|k: int| 0 <= k < list.len() implies #[trigger] has_server(r, list[k], scheme) by {
        let q = a.len() + k;
        assert(is_under_scheme(servers_of(r)[q], list[q - a.len() + 0], scheme));
    }
    assert forall|q: int| a.len() <= q < servers_of(r).len() implies is_wanted(
        #[trigger] servers_of(r)[q],
        schemes,
        openapi,
    ) by {
        let k = q - a.len();
        assert(is_under_scheme(servers_of(r)[q], list[k + 0], scheme));
        assert(schemes[i]->String_0 == scheme && servers_of(openapi)[k] == list[k]);
    }
}

/// Whether a list holds an equal value.
pub open spec fn has_equal(a: Seq<Json>, v: Json) -> bool {
    exists|k: int| 0 <= k < a.len() && json::same(#[trigger] a[k], v)
}

proof fn holds_is_has(a: Seq<Json>, i: nat, v: Json)
    ensures
        operation::holds_from(a, i, v) == (exists|k: int|
            i <= k < a.len() && json::same(#[trigger] a[k], v)),
    decreases a.len() - i,
{
    if i < a.len() {
        holds_is_has(a, i + 1, v);
        if exists|k: int| i <= k < a.len() && json::same(#[trigger] a[k], v) {
            let k = choose|k: int| i <= k < a.len() && json::same(#[trigger] a[k], v);
            assert(k == i || i + 1 <= k);
        }
    }
}

proof fn schemes_are_served(op: Json, schemes: Seq<Json>, i: nat, openapi: Json)
    requires
        all_texts(schemes),
        !op.has("servers"@) || op.member("servers"@)->0 is Array,
    ensures
        ({
            let r = operation::schemes_from(op, schemes, i, openapi);
            let list = servers_of(openapi);
            let known = schemes_of(openapi);
            let n = servers_of(op).len();
            &&& !r.has("servers"@) || r.member("servers"@)->0 is Array
            &&& has_first(r, op)
            &&& forall|k: int|
                i <= k < schemes.len() && !has_equal(known, #[trigger] schemes[k]) ==> serves(
                    r,
                    list,
                    schemes[k]->String_0,
                )
            &&& forall|q: int|
                n <= q < servers_of(r).len() ==> is_wanted(
                    #[trigger] servers_of(r)[q],
                    schemes,
                    openapi,
                )
            &&& forall|key: Text|
                key != "servers"@ ==> #[trigger] r.member(key) == op.member(key)
        }),
    decreases schemes.len() - i,
{
    broadcast use laws::group_members;

    if i < schemes.len() {
        let list = servers_of(openapi);
        let known = schemes_of(openapi);
        let scheme = schemes[i as int];
        holds_is_has(known, 0, scheme);
        let held = has_equal(known, scheme);
        let op1 = if held {
            op
        } else {
            let op0 = op.with_new("servers"@, Json::Array(Seq::empty()));
            operation::servers_from(op0, list, 0, scheme)
        };
        if !held {
            scheme_is_served(op, schemes, i as int, openapi);
        }
        let r = operation::schemes_from(op, schemes, i, openapi);
        assert(r == operation::schemes_from(op1, schemes, i + 1, openapi));
        schemes_are_served(op1, schemes, i + 1, openapi);
        assert(has_first(op1, op));
        assert(has_first(r, op)) by {
            assert forall|k: int| 0 <= k < servers_of(op).len() implies #[trigger] servers_of(r)[k]
                == servers_of(op)[k] by {
                assert(servers_of(op1)[k] == servers_of(op)[k]);
            }
        }
        if !held {
            serves_still(op1, r, list, scheme->String_0);
        }
        assert forall|q: int| servers_of(op).len() <= q < servers_of(r).len() implies is_wanted(
            #[trigger] servers_of(r)[q],
            schemes,
            openapi,
        ) by {
            if q < servers_of(op1).len() {
                assert(servers_of(r)[q] == servers_of(op1)[q]);
            }
        }
    }
}

/// The schemes that a document lists.
pub open spec fn schemes_of(j: Json) -> Seq<Json> {
    match j.member("schemes"@) {
        Some(Json::Array(a)) => a,
        _ => Seq::empty(),
    }
}

/// Whether a server is one of the document under a scheme of the operation that the
/// document does not have.
pub open spec fn is_wanted(x: Json, schemes: Seq<Json>, openapi: Json) -> bool {
    exists|k: int, q: int|
        0 <= k < schemes.len() && 0 <= q < servers_of(openapi).len() && !has_equal(
            schemes_of(openapi),
            #[trigger] schemes[k],
        ) && is_under_scheme(x, #[trigger] servers_of(openapi)[q], schemes[k]->String_0)
}

/// An operation has each server of the document under each of its own schemes that the
/// document does not have, behind the servers that it has already, and no others.
pub proof fn operation_serves_its_schemes(op: Json, openapi: Json)
    requires
        !(op.member("x-servers"@) matches Some(Json::Array(_))),
        !op.has("servers"@) || op.member("servers"@)->0 is Array,
        all_texts(schemes_of(op)),
    ensures
        ({
            let r = operation::op_servers_converted(op, openapi);
            let n = servers_of(op).len();
            &&& n <= servers_of(r).len()
            &&& forall|k: int| 0 <= k < n ==> #[trigger] servers_of(r)[k] == servers_of(op)[k]
            &&& forall|k: int|
                0 <= k < schemes_of(op).len() && !has_equal(
                    schemes_of(openapi),
                    #[trigger] schemes_of(op)[k],
                ) ==> serves(r, servers_of(openapi), schemes_of(op)[k]->String_0)
            &&& forall|q: int|
                n <= q < servers_of(r).len() ==> is_wanted(
                    #[trigger] servers_of(r)[q],
                    schemes_of(op),
                    openapi,
                )
            &&& forall|key: Text|
                key != "servers"@ ==> #[trigger] r.member(key) == op.member(key)
        }),
{
    schemes_are_served(op, schemes_of(op), 0, openapi);
}

} // verus!
