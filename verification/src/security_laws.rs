//! Laws of security schemes.

use vstd::prelude::*;

use crate::convert::security;
use crate::json::{self, Json, Text};
use crate::laws;
use crate::options::Settings;
use crate::path_laws;
use crate::text;

verus! {

/// The words that these laws speak of differ.
proof fn security_words()
    ensures
        "/"@.len() == 1,
        "type"@.len() == 4 && "type"@[0] == 't',
        "flow"@.len() == 4 && "flow"@[0] == 'f',
        "name"@.len() == 4 && "name"@[0] == 'n',
        "http"@.len() == 4 && "http"@[0] == 'h',
        "flows"@.len() == 5 && "flows"@[0] == 'f',
        "basic"@.len() == 5 && "basic"@[0] == 'b',
        "scopes"@.len() == 6 && "scopes"@[2] == 'o',
        "oauth2"@.len() == 6 && "oauth2"@[2] == 'u',
        "scheme"@.len() == 6 && "scheme"@[2] == 'h',
        "tokenUrl"@.len() == 8 && "tokenUrl"@[0] == 't',
        "implicit"@.len() == 8 && "implicit"@[0] == 'i',
        "password"@.len() == 8 && "password"@[0] == 'p',
        "undefined"@.len() == 9,
        "accessCode"@.len() == 10,
        "application"@.len() == 11,
        "authorizationUrl"@.len() == 16,
        "clientCredentials"@.len() == 17 && "clientCredentials"@[0] == 'c',
        "authorizationCode"@.len() == 17 && "authorizationCode"@[0] == 'a',
{
    reveal_strlit("/");
    reveal_strlit("type");
    reveal_strlit("flow");
    reveal_strlit("name");
    reveal_strlit("http");
    reveal_strlit("flows");
    reveal_strlit("basic");
    reveal_strlit("scopes");
    reveal_strlit("oauth2");
    reveal_strlit("scheme");
    reveal_strlit("tokenUrl");
    reveal_strlit("implicit");
    reveal_strlit("password");
    reveal_strlit("undefined");
    reveal_strlit("accessCode");
    reveal_strlit("application");
    reveal_strlit("authorizationUrl");
    reveal_strlit("clientCredentials");
    reveal_strlit("authorizationCode");
}

/// The member of a scheme that its conversion to OpenAPI 3 replaces or drops.
pub open spec fn is_oauth_member(key: Text) -> bool {
    key == "flow"@ || key == "flows"@ || key == "authorizationUrl"@ || key == "tokenUrl"@ || key
        == "scopes"@ || key == "name"@
}

/// A converted OAuth2 scheme has one flow. The four flows of Swagger become the four
/// flows of OpenAPI: `implicit` and `password` keep their names, `application`
/// becomes `clientCredentials` and `accessCode` becomes `authorizationCode`. A flow of
/// another name keeps it. Nothing else of the scheme changes but what moved into the
/// flow, and a `name`, which is dropped under `patch`.
pub proof fn oauth_scheme_has_one_flow(scheme: Json, o: Settings)
    requires
        json::distinct(scheme.members()),
        scheme.says("type"@, "oauth2"@),
        security::scheme_fixed(scheme, o).2 is None,
    ensures
        ({
            let r = security::scheme_fixed(scheme, o).0;
            let flow = scheme.text_member("flow"@);
            let flows = r.member("flows"@);
            let name = if flow == Some("application"@) {
                "clientCredentials"@
            } else if flow == Some("accessCode"@) {
                "authorizationCode"@
            } else if flow is Some {
                flow->0
            } else {
                "undefined"@
            };
            &&& flow == Some("implicit"@) ==> name == "implicit"@
            &&& flow == Some("password"@) ==> name == "password"@
            &&& flows matches Some(Json::Object(m)) && m.len() == 1 && m[0].0 == name
            &&& forall|key: Text| #[trigger]
                r.member(key) == (if key == "flows"@ {
                    flows
                } else if is_oauth_member(key) {
                    None
                } else {
                    scheme.member(key)
                })
        }),
{
    broadcast use laws::group_members;

    security_words();
}

/// The flow of a converted OAuth2 scheme has the scopes of the scheme, or none, and
/// a URL for each URL of the scheme, and nothing else.
pub proof fn oauth_flow_members(scheme: Json, o: Settings)
    requires
        scheme.says("type"@, "oauth2"@),
        json::distinct(scheme.members()),
        security::scheme_fixed(scheme, o).2 is None,
    ensures
        ({
            let flows = security::scheme_fixed(scheme, o).0.member("flows"@)->0.members();
            let flow = flows[0].1;
            &&& flows.len() == 1
            &&& flow.member("scopes"@) == Some(
                match scheme.member("scopes"@) {
                    Some(v) => v,
                    None => Json::empty(),
                },
            )
            &&& flow.has("authorizationUrl"@) == scheme.text_member("authorizationUrl"@) is Some
            &&& flow.has("tokenUrl"@) == scheme.text_member("tokenUrl"@) is Some
            &&& forall|key: Text| #[trigger]
                flow.has(key) ==> key == "scopes"@ || key == "authorizationUrl"@ || key
                    == "tokenUrl"@
        }),
{
    broadcast use laws::group_members;

    security_words();
}

/// A URL of an OAuth2 scheme loses its query and the white space around it, and
/// becomes `/` where nothing is left. This is so of either URL.
pub proof fn oauth_urls_lose_query(
    scheme: Json,
    key: Text,
    before: Text,
    url: Text,
    after: Text,
    query: Option<Text>,
    o: Settings,
)
    requires
        scheme.says("type"@, "oauth2"@),
        json::distinct(scheme.members()),
        security::scheme_fixed(scheme, o).2 is None,
        key == "authorizationUrl"@ || key == "tokenUrl"@,
        blank(before) && blank(after),
        url.len() > 0 ==> !text::white_space(url[0]) && !text::white_space(url.last()),
        url.len() == 0 ==> before.len() == 0,
        forall|i: int| 0 <= i < url.len() ==> #[trigger] url[i] != '?',
        scheme.text_member(key) == Some(
            before + url + after + (match query {
                Some(q) => seq!['?'] + q,
                None => Seq::empty(),
            }),
        ),
    ensures
        security::scheme_fixed(scheme, o).0.member("flows"@)->0.members()[0].1.member(key)
            == Some(
            Json::String(
                if url.len() == 0 {
                    "/"@
                } else {
                    url
                },
            ),
        ),
{
    broadcast use laws::group_members;

    security_words();
    let whole = before + url + after + (match query {
        Some(q) => seq!['?'] + q,
        None => Seq::empty(),
    });
    let head = before + url + after;
    assert forall|i: int| 0 <= i < head.len() implies #[trigger] head[i] != '?' by {
        if i < before.len() {
            assert(head[i] == before[i]);
        } else if i < before.len() + url.len() {
            assert(head[i] == url[i - before.len()]);
        } else {
            assert(head[i] == after[i - before.len() - url.len()]);
        }
    }
    assert(whole.take(head.len() as int) =~= head);
    head_before_query(head, whole);
    trimmed_is_core(before, url, after);
}

/// A scheme of type `basic` becomes one of type `http` with the scheme `basic`, and
/// every other member stays. A scheme of any other type but `oauth2` stays whole.
pub proof fn other_schemes_stay(scheme: Json, o: Settings)
    requires
        !scheme.says("type"@, "oauth2"@),
    ensures
        ({
            let (r, o1, e) = security::scheme_fixed(scheme, o);
            &&& o1 == o && e is None
            &&& !scheme.says("type"@, "basic"@) ==> r == scheme
            &&& scheme.says("type"@, "basic"@) ==> forall|key: Text| #[trigger]
                r.member(key) == (if key == "type"@ {
                    Some(Json::String("http"@))
                } else if key == "scheme"@ {
                    Some(Json::String("basic"@))
                } else {
                    scheme.member(key)
                })
        }),
{
    broadcast use laws::group_members;

    security_words();
}

/// The conversion of a scheme fails exactly for an OAuth2 scheme with a `name`, and
/// only without `patch`. It counts that one patch.
pub proof fn scheme_fails_for_name(scheme: Json, o: Settings)
    requires
        json::distinct(scheme.members()),
    ensures
        ({
            let (r, o1, e) = security::scheme_fixed(scheme, o);
            let named = scheme.says("type"@, "oauth2"@) && scheme.has("name"@);
            &&& (e is Some) == (named && !o.patch)
            &&& o1 == (if named && o.patch {
                o.patched()
            } else {
                o
            })
        }),
{
    broadcast use laws::group_members;

    security_words();
}

// --- URLs ------------------------------------------------------------------

/// Whether a text holds only white space.
pub open spec fn blank(s: Text) -> bool {
    forall|i: int| 0 <= i < s.len() ==> text::white_space(#[trigger] s[i])
}

proof fn blank_start(before: Text, rest: Text)
    requires
        blank(before),
    ensures
        text::trimmed_start(before + rest) == text::trimmed_start(rest),
    decreases before.len(),
{
    if before.len() > 0 {
        let s = before + rest;
        assert(s[0] == before[0]);
        assert(s.drop_first() =~= before.drop_first() + rest);
        assert(blank(before.drop_first()));
        blank_start(before.drop_first(), rest);
    } else {
        assert(before + rest =~= rest);
    }
}

proof fn blank_end(rest: Text, after: Text)
    requires
        blank(after),
    ensures
        text::trimmed_end(rest + after) == text::trimmed_end(rest),
    decreases after.len(),
{
    if after.len() > 0 {
        let s = rest + after;
        assert(s.last() == after[after.len() - 1]);
        assert(s.drop_last() =~= rest + after.drop_last());
        assert(blank(after.drop_last()));
        blank_end(rest, after.drop_last());
    } else {
        assert(rest + after =~= rest);
    }
}

/// What is left of a text without the white space around it.
pub proof fn trimmed_is_core(before: Text, core: Text, after: Text)
    requires
        blank(before) && blank(after),
        core.len() > 0 ==> !text::white_space(core[0]) && !text::white_space(core.last()),
        core.len() == 0 ==> before.len() == 0,
    ensures
        text::trimmed(before + core + after) == core,
{
    assert(before + core + after =~= before + (core + after));
    blank_start(before, core + after);
    if core.len() > 0 {
        assert((core + after)[0] == core[0]);
        blank_end(core, after);
    } else {
        assert(core + after =~= after);
        blank_start(after, Seq::empty());
        assert(after + Seq::<char>::empty() =~= after);
        assert(core =~= Seq::empty());
    }
}

/// The part of a text before its first `?` is its first piece.
proof fn head_before_query(head: Text, whole: Text)
    requires
        forall|i: int| 0 <= i < head.len() ==> #[trigger] head[i] != '?',
        head.len() <= whole.len(),
        whole.take(head.len() as int) == head,
        head.len() < whole.len() ==> whole[head.len() as int] == '?',
    ensures
        text::pieces(whole, '?')[0] == head,
{
    let n = head.len() as int;
    assert forall|k: int| 0 <= k < n implies #[trigger] whole[k] != '?' by {
        assert(whole.take(n)[k] == head[k]);
    }
    path_laws::no_separator(whole, '?', 0, 0, n);
    assert(whole.subrange(0, n) =~= head);
}

} // verus!
