//! Security requirements and schemes.

use vstd::prelude::*;

use crate::common::{self, sanitise};
use crate::error::{self, S2OError};
use crate::json::{self, Json, Members, Text};
use crate::options::{Options, Settings};
use crate::text;
use crate::value::{self, JsonValue, Object};

verus! {

/// The requirement with the names from position `i` on sanitised.
pub open spec fn requirement_renamed(m: Members, names: Seq<Text>, i: nat) -> Members
    decreases names.len() - i,
{
    if i >= names.len() {
        m
    } else {
        let name = names[i as int];
        let sname = common::sanitised(name);
        let m1 = if name != sname {
            match json::lookup(m, name) {
                Some(v) => json::insert(json::remove(m, name), sname, v),
                None => m,
            }
        } else {
            m
        };
        requirement_renamed(m1, names, i + 1)
    }
}

/// A security requirement with sanitised names.
pub open spec fn requirement_fixed(entry: Json) -> Json {
    match entry {
        Json::Object(m) => Json::Object(requirement_renamed(m, json::keys(m), 0)),
        _ => entry,
    }
}

/// The security requirements with sanitised names.
pub open spec fn security_fixed(security: Json) -> Json {
    match security {
        Json::Array(a) => Json::Array(Seq::new(a.len(), |i: int| requirement_fixed(a[i]))),
        _ => security,
    }
}

/// Rename the keys of one security requirement to their sanitised form.
fn process_requirement(map: &mut Object)
    ensures
        final(map)@ == requirement_renamed(old(map)@, json::keys(old(map)@), 0),
{
    let keys = map.keys();
    let ghost names = json::texts(keys@);
    let mut i: usize = 0;
    while i < keys.len()
        invariant
            i <= keys@.len(),
            names == json::texts(keys@),
            requirement_renamed(old(map)@, names, 0) == requirement_renamed(
                map@,
                names,
                i as nat,
            ),
        decreases keys@.len() - i,
    {
        let k = keys[i].as_str();
        assert(names[i as int] == k@);
        let sname = sanitise(k);
        if !(*k == *sname.as_str()) {
            if let Some(v) = map.remove(k) {
                map.insert(sname.as_str(), v);
            }
        }
        i += 1;
    }
}

/// Rename security requirement keys to their sanitised form.
pub fn process_security(security: &mut JsonValue)
    ensures
        final(security)@ == security_fixed(old(security)@),
{
    if let Some(list) = security.as_array_mut() {
        let ghost a = value::views(list@);
        let mut i: usize = 0;
        while i < list.len()
            invariant
                i <= list@.len(),
                list@.len() == a.len(),
                forall|k: int| 0 <= k < i ==> (#[trigger] list@[k])@ == requirement_fixed(a[k]),
                forall|k: int| i <= k < a.len() ==> (#[trigger] list@[k])@ == a[k],
            decreases list@.len() - i,
        {
            if let Some(map) = list[i].as_object_mut() {
                process_requirement(map);
            }
            i += 1;
        }
        assert(value::views(list@) =~= Seq::new(a.len(), |i: int| requirement_fixed(a[i])));
    }
}

/// An OAuth2 URL without its query and surrounding white space, or `/`.
pub open spec fn url_trimmed(url: Text) -> Text {
    let head = text::trimmed(text::pieces(url, '?')[0]);
    if head.len() == 0 {
        "/"@
    } else {
        head
    }
}

/// Strip the query and trailing whitespace from an OAuth2 URL, default `/`.
pub fn trim_url(url: &str) -> (r: String)
    ensures
        r@ == url_trimmed(url@),
{
    let parts = text::split(url, '?');
    proof {
        text::pieces_nonempty(url@, '?', 0, 0);
    }
    let head = text::trim(parts[0].as_str());
    if head.as_str().is_empty() {
        "/".to_owned()
    } else {
        head
    }
}

/// The name of the OAuth2 flow.
pub open spec fn flow_name(scheme: Json) -> Text {
    match scheme.text_member("flow"@) {
        Some(flow) => if flow == "application"@ {
            "clientCredentials"@
        } else if flow == "accessCode"@ {
            "authorizationCode"@
        } else {
            flow
        },
        None => "undefined"@,
    }
}

/// Set the trimmed URL under `key` where the scheme has one.
pub open spec fn url_copied(flow: Json, scheme: Json, key: Text) -> Json {
    match scheme.text_member(key) {
        Some(url) => flow.with(key, Json::String(url_trimmed(url))),
        None => flow,
    }
}

/// The OAuth2 flow of a scheme.
pub open spec fn oauth_flow(scheme: Json) -> Json {
    url_copied(
        url_copied(Json::empty(), scheme, "authorizationUrl"@),
        scheme,
        "tokenUrl"@,
    ).with("scopes"@, json::value_or(scheme.member("scopes"@), Json::empty()))
}

/// The OAuth2 scheme in 3.0 shape, the settings and the failure.
pub open spec fn oauth_fixed(scheme: Json, o: Settings) -> (Json, Settings, Option<Text>) {
    let j = scheme.with("flows"@, Json::single(flow_name(scheme), oauth_flow(scheme))).without(
        "flow"@,
    ).without("authorizationUrl"@).without("tokenUrl"@).without("scopes"@);
    if j.has("name"@) {
        if o.patch {
            (j.without("name"@), o.patched(), None)
        } else {
            (
                j,
                o,
                Some("(Patchable) oauth2 securitySchemes should not have name property"@),
            )
        }
    } else {
        (j, o, None)
    }
}

/// The security scheme in 3.0 shape, the settings and the failure.
pub open spec fn scheme_fixed(scheme: Json, o: Settings) -> (Json, Settings, Option<Text>) {
    let j = if scheme.says("type"@, "basic"@) {
        scheme.with("type"@, Json::String("http"@)).with("scheme"@, Json::String("basic"@))
    } else {
        scheme
    };
    if j.says("type"@, "oauth2"@) {
        oauth_fixed(j, o)
    } else {
        (j, o, None)
    }
}

/// The OAuth2 flow of a scheme and its name.
fn build_flow(scheme: &JsonValue) -> (r: (String, JsonValue))
    ensures
        r.0@ == flow_name(scheme@),
        r.1@ == oauth_flow(scheme@),
{
    let name = match scheme.get_str("flow") {
        Some(flow) => if *flow == *"application" {
            "clientCredentials".to_owned()
        } else if *flow == *"accessCode" {
            "authorizationCode".to_owned()
        } else {
            flow.to_owned()
        },
        None => "undefined".to_owned(),
    };
    let mut flow = JsonValue::empty_object();
    if let Some(url) = scheme.get_str("authorizationUrl") {
        flow.put("authorizationUrl", JsonValue::String(trim_url(url)));
    }
    if let Some(url) = scheme.get_str("tokenUrl") {
        flow.put("tokenUrl", JsonValue::String(trim_url(url)));
    }
    let scopes = match scheme.get("scopes") {
        Some(v) => v.clone(),
        None => JsonValue::empty_object(),
    };
    flow.put("scopes", scopes);
    (name, flow)
}

/// Convert a single security scheme from 2.0 to 3.0 shape.
pub fn process_security_scheme(scheme: &mut JsonValue, options: &mut Options) -> (r: Result<
    (),
    S2OError,
>)
    ensures
        (final(scheme)@, final(options)@, error::failure(r)) == scheme_fixed(
            old(scheme)@,
            old(options)@,
        ),
{
    if scheme.says("type", "basic") {
        scheme.put("type", JsonValue::text("http"));
        scheme.put("scheme", JsonValue::text("basic"));
    }
    if scheme.says("type", "oauth2") {
        let (name, flow) = build_flow(scheme);
        scheme.put("flows", JsonValue::single(name.as_str(), flow));
        scheme.cut("flow");
        scheme.cut("authorizationUrl");
        scheme.cut("tokenUrl");
        scheme.cut("scopes");
        if scheme.has("name") {
            if options.patch {
                options.add_patch();
                scheme.cut("name");
            } else {
                return Err(
                    S2OError::new(
                        "(Patchable) oauth2 securitySchemes should not have name property",
                    ),
                );
            }
        }
    }
    Ok(())
}

} // verus!
