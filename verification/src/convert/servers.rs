//! Servers.

use vstd::prelude::*;

use crate::convert::body::{self, strings_in};
use crate::convert::header;
use crate::convert::operation;
use crate::jptr;
use crate::json::{self, Json, Members, Text};
use crate::text;
use crate::value::{self, JsonValue, Object};

verus! {

// --- template variables ----------------------------------------------------

/// The names between braces from position `i` on.
pub open spec fn template_names(s: Text, i: int) -> Seq<Text>
    decreases s.len() + 1 - i,
{
    match text::find_from(s, "{"@, i) {
        Some(open) => match text::find_from(s, "}"@, open + 1) {
            Some(close) => if i <= open < close < s.len() {
                seq![s.subrange(open + 1, close)] + template_names(s, close + 1)
            } else {
                Seq::empty()
            },
            None => Seq::empty(),
        },
        None => Seq::empty(),
    }
}

/// The variables with an unknown default for each name from position `i` on.
pub open spec fn variables_from(vars: Json, names: Seq<Text>, i: nat) -> Json
    decreases names.len() - i,
{
    if i >= names.len() {
        vars
    } else {
        variables_from(
            vars.with(
                names[i as int],
                Json::single("default"@, Json::String("unknown"@)),
            ),
            names,
            i + 1,
        )
    }
}

/// The URL with doubled braces collapsed.
pub open spec fn braces_collapsed(url: Text) -> Text {
    text::replaced(text::replaced(url, "{{"@, "{"@), "}}"@, "}"@)
}

/// The server with its URL template variables registered.
pub open spec fn server_params_extracted(server: Json) -> Json {
    match server.text_member("url"@) {
        Some(u) => {
            let url = braces_collapsed(u);
            let s1 = server.with("url"@, Json::String(url));
            let names = template_names(url, 0);
            if names.len() > 0 {
                let s2 = s1.with_new("variables"@, Json::empty());
                s2.with(
                    "variables"@,
                    variables_from(s2.member("variables"@)->0, names, 0),
                )
            } else {
                s1
            }
        },
        None => server,
    }
}

/// The names between braces.
fn find_template_names(s: &str) -> (r: Vec<String>)
    ensures
        json::texts(r@) == template_names(s@, 0),
{
    proof {
        reveal_strlit("{");
        reveal_strlit("}");
    }
    let mut r: Vec<String> = Vec::new();
    let n: usize = s.unicode_len();
    let mut i: usize = 0;
    assert(json::texts(r@) + template_names(s@, 0) =~= template_names(s@, 0));
    loop
        invariant
            i <= n,
            n == s@.len(),
            "{"@.len() == 1,
            "}"@.len() == 1,
            json::texts(r@) + template_names(s@, i as int) == template_names(s@, 0),
        decreases n - i,
    {
        let ghost before = json::texts(r@);
        let open: usize = match text::find_after(s, "{", i) {
            Some(k) => k,
            None => {
                assert(before + template_names(s@, i as int) =~= before);
                return r;
            },
        };
        let close: usize = match text::find_after(s, "}", open + 1) {
            Some(k) => k,
            None => {
                assert(before + template_names(s@, i as int) =~= before);
                return r;
            },
        };
        let name = s.substring_char(open + 1, close).to_owned();
        r.push(name);
        assert(json::texts(r@) =~= before.push(name@));
        assert(before.push(name@) + template_names(s@, close + 1) =~= before + template_names(
            s@,
            i as int,
        ));
        i = close + 1;
    }
}

/// Register server URL template variables and collapse doubled braces.
pub fn extract_server_parameters(server: &mut JsonValue)
    ensures
        final(server)@ == server_params_extracted(old(server)@),
{
    let url: String = match server.get_str("url") {
        Some(u) => text::replace(text::replace(u, "{{", "{").as_str(), "}}", "}"),
        None => {
            return;
        },
    };
    let names = find_template_names(url.as_str());
    let ghost ns = json::texts(names@);
    server.put("url", JsonValue::String(url));

    // Register each {name} as a variable with default "unknown". The URL text
    // is left unchanged.
    if names.len() > 0 {
        let ghost s1 = server@;
        server.put_new("variables", JsonValue::empty_object());
        proof {
            header::json_new_member(s1, "variables"@, Json::empty());
        }
        if let Some(vars) = server.get_mut("variables") {
            let ghost v0 = vars@;
            let mut i: usize = 0;
            while i < names.len()
                invariant
                    i <= names@.len(),
                    ns == json::texts(names@),
                    variables_from(v0, ns, 0) == variables_from(vars@, ns, i as nat),
                decreases names@.len() - i,
            {
                assert(ns[i as int] == names@[i as int]@);
                let def = JsonValue::single("default", JsonValue::text("unknown"));
                vars.put(names[i].as_str(), def);
                i += 1;
            }
        }
    }
}

// --- host, base path and schemes -------------------------------------------

/// The document with a server appended.
pub open spec fn server_pushed(openapi: Json, server: Json) -> Json {
    operation::server_appended(
        openapi.with_new("servers"@, Json::Array(Seq::empty())),
        server,
    )
}

/// Append a server to `openapi.servers`, creating the array if needed.
pub fn push_server(openapi: &mut JsonValue, server: JsonValue)
    ensures
        final(openapi)@ == server_pushed(old(openapi)@, server@),
{
    openapi.put_new("servers", JsonValue::empty_array());
    let is_list = match openapi.get("servers") {
        Some(v) => v.is_array(),
        None => false,
    };
    if is_list {
        if let Some(servers) = openapi.get_mut("servers") {
            if let Some(list) = servers.as_array_mut() {
                let ghost a = value::views(list@);
                list.push(server);
                assert(value::views(list@) =~= a.push(server@));
            }
        }
    }
}

/// The schemes of a document: one empty scheme when it lists none.
pub open spec fn document_schemes(swagger: Json) -> Seq<Text> {
    match swagger.member("schemes"@) {
        Some(Json::Array(a)) => body::strings_from(a, 0),
        _ => seq![""@],
    }
}

/// The base path of a document.
pub open spec fn base_path(swagger: Json) -> Text {
    match swagger.text_member("basePath"@) {
        Some(s) => s,
        None => ""@,
    }
}

/// The URL of a server.
pub open spec fn server_url(scheme: Text, host: Text, swagger: Json) -> Text {
    let head = if scheme.len() == 0 {
        ""@
    } else {
        scheme + ":"@
    };
    head + "//"@ + host + text::without_trailing(base_path(swagger), '/')
}

/// The document with a server for each scheme from position `i` on.
pub open spec fn host_servers_from(
    openapi: Json,
    schemes: Seq<Text>,
    i: nat,
    host: Text,
    swagger: Json,
) -> Json
    decreases schemes.len() - i,
{
    if i >= schemes.len() {
        openapi
    } else {
        let url = server_url(schemes[i as int], host, swagger);
        host_servers_from(
            server_pushed(
                openapi,
                server_params_extracted(Json::single("url"@, Json::String(url))),
            ),
            schemes,
            i + 1,
            host,
            swagger,
        )
    }
}

/// The document with servers from host, base path and schemes.
pub open spec fn servers_built(openapi: Json, swagger: Json) -> Json {
    let d1 = match swagger.text_member("host"@) {
        Some(host) => host_servers_from(openapi, document_schemes(swagger), 0, host, swagger),
        None => match swagger.text_member("basePath"@) {
            Some(p) => server_pushed(
                openapi,
                server_params_extracted(Json::single("url"@, Json::String(p))),
            ),
            None => openapi,
        },
    };
    d1.without("host"@).without("basePath"@)
}

/// The schemes of a document.
fn list_schemes(swagger: &JsonValue) -> (r: Vec<String>)
    ensures
        json::texts(r@) == document_schemes(swagger@),
{
    if let Some(v) = swagger.get("schemes") {
        if let Some(a) = v.as_array() {
            return strings_in(a);
        }
    }
    let mut r: Vec<String> = Vec::new();
    r.push("".to_owned());
    assert(json::texts(r@) =~= seq![""@]);
    r
}

/// The URL of a server.
fn make_server_url(scheme: &str, host: &str, swagger: &JsonValue) -> (r: String)
    ensures
        r@ == server_url(scheme@, host@, swagger@),
{
    let base: String = match swagger.get_str("basePath") {
        Some(p) => text::trim_end(p, '/'),
        None => text::trim_end("", '/'),
    };
    let head: String = if scheme.is_empty() {
        "".to_owned()
    } else {
        text::cat(scheme, ":")
    };
    let at = text::cat3(head.as_str(), "//", host);
    text::cat(at.as_str(), base.as_str())
}

/// Build the `servers` array from host, basePath, and schemes.
pub fn build_servers(openapi: &mut JsonValue, swagger: &JsonValue)
    ensures
        final(openapi)@ == servers_built(old(openapi)@, swagger@),
{
    if let Some(host) = swagger.get_str("host") {
        let schemes = list_schemes(swagger);
        let ghost ss = json::texts(schemes@);
        let mut i: usize = 0;
        while i < schemes.len()
            invariant
                i <= schemes@.len(),
                ss == json::texts(schemes@),
                host_servers_from(old(openapi)@, ss, 0, host@, swagger@) == host_servers_from(
                    openapi@,
                    ss,
                    i as nat,
                    host@,
                    swagger@,
                ),
            decreases schemes@.len() - i,
        {
            assert(ss[i as int] == schemes@[i as int]@);
            let url = make_server_url(schemes[i].as_str(), host, swagger);
            let mut server = JsonValue::single("url", JsonValue::String(url));
            extract_server_parameters(&mut server);
            push_server(openapi, server);
            i += 1;
        }
    } else if let Some(p) = swagger.get_str("basePath") {
        let mut server = JsonValue::single("url", JsonValue::text(p));
        extract_server_parameters(&mut server);
        push_server(openapi, server);
    }
    openapi.cut("host");
    openapi.cut("basePath");
}

// --- parameterized hosts ---------------------------------------------------

/// The end of the word that starts at position `j`.
pub open spec fn word_end(s: Text, j: int) -> int
    decreases s.len() - j,
{
    if j < s.len() && (text::alphanumeric(s[j]) || s[j] == '_') {
        word_end(s, j + 1)
    } else {
        j
    }
}

/// The `{word}` tokens from position `i` on.
pub open spec fn brace_tokens(s: Text, i: int) -> Seq<Text>
    decreases s.len() - i,
{
    if i >= s.len() {
        Seq::empty()
    } else {
        let j = word_end(s, i + 1);
        if s[i] == '{' && j < s.len() && s[j] == '}' && j > i + 1 {
            seq![s.subrange(i, j + 1)] + brace_tokens(s, j + 1)
        } else {
            brace_tokens(s, i + 1)
        }
    }
}

/// Collect `{word}` tokens from a URL template in order.
pub fn match_brace_tokens(url: &str) -> (r: Vec<String>)
    ensures
        json::texts(r@) == brace_tokens(url@, 0),
{
    let cs = text::to_chars(url);
    let n: usize = cs.len();
    let mut tokens: Vec<String> = Vec::new();
    let mut i: usize = 0;
    assert(json::texts(tokens@) + brace_tokens(url@, 0) =~= brace_tokens(url@, 0));
    while i < n
        invariant
            i <= n,
            n == cs@.len(),
            cs@ == url@,
            json::texts(tokens@) + brace_tokens(url@, i as int) == brace_tokens(url@, 0),
        decreases n - i,
    {
        let ghost before = json::texts(tokens@);
        let mut j: usize = i + 1;
        while j < n && (cs[j].is_alphanumeric() || cs[j] == '_')
            invariant
                i + 1 <= j <= n,
                n == cs@.len(),
                cs@ == url@,
                word_end(url@, i + 1) == word_end(url@, j as int),
            decreases n - j,
        {
            j += 1;
        }
        if cs[i] == '{' && j < n && cs[j] == '}' && j > i + 1 {
            let token = url.substring_char(i, j + 1).to_owned();
            tokens.push(token);
            assert(json::texts(tokens@) =~= before.push(token@));
            assert(before.push(token@) + brace_tokens(url@, j + 1) =~= before + brace_tokens(
                url@,
                i as int,
            ));
            i = j + 1;
        } else {
            i += 1;
        }
    }
    assert(json::texts(tokens@) + brace_tokens(url@, i as int) =~= json::texts(tokens@));
    tokens
}

/// The parameter of a parameterized host, with its `$ref` followed.
pub open spec fn host_param(openapi: Json, raw: Json) -> Json {
    match raw.text_member("$ref"@) {
        Some(r) => json::value_or(jptr::read(openapi, r), Json::empty()),
        None => raw,
    }
}

/// The default of a server variable: the first of its values, or `none`.
pub open spec fn first_value(param: Json) -> Json {
    let values = body::elements_of(param.member("enum"@));
    if values.len() > 0 {
        values[0]
    } else {
        Json::String("none"@)
    }
}

/// The server variable that a parameter makes, before its name goes.
pub open spec fn host_variable(openapi: Json, raw: Json) -> Json {
    let p = host_param(openapi, raw).without("required"@).without("type"@).without("in"@);
    if p.has("default"@) {
        p
    } else {
        p.with("default"@, first_value(p))
    }
}

/// The name of a server variable: its own, or that of the token at its position.
pub open spec fn variable_name(v: Json, idx: int, tokens: Seq<Text>) -> Text {
    match v.text_member("name"@) {
        Some(n) => n,
        None => if idx < tokens.len() {
            text::replaced(text::replaced(tokens[idx], "{"@, ""@), "}"@, ""@)
        } else {
            ""@
        },
    }
}

/// The variables with one parameter recorded. An extension is passed over.
pub open spec fn variable_added(
    openapi: Json,
    msp: Text,
    idx: int,
    raw: Json,
    tokens: Seq<Text>,
    variables: Members,
) -> Members {
    if text::starts(msp, "x-"@) {
        variables
    } else {
        let v = host_variable(openapi, raw);
        json::insert(variables, variable_name(v, idx, tokens), v.without("name"@))
    }
}

/// Resolve one parameterized-host parameter and record it as a server variable.
pub fn build_host_variable(
    openapi: &JsonValue,
    msp: &str,
    idx: usize,
    raw: &JsonValue,
    param_names: &Vec<String>,
    variables: &mut Object,
)
    ensures
        final(variables)@ == variable_added(
            openapi@,
            msp@,
            idx as int,
            raw@,
            json::texts(param_names@),
            old(variables)@,
        ),
{
    if text::starts_with(msp, "x-") {
        return;
    }
    let mut param = match raw.get_str("$ref") {
        Some(r) => match jptr::get(openapi, r) {
            Some(v) => v.clone(),
            None => JsonValue::empty_object(),
        },
        None => raw.clone(),
    };
    param.cut("required");
    param.cut("type");
    param.cut("in");
    if !param.has("default") {
        let first: Option<JsonValue> = match param.get("enum") {
            Some(v) => match v.as_array() {
                Some(a) => if a.len() > 0 {
                    Some(a[0].clone())
                } else {
                    None
                },
                None => None,
            },
            None => None,
        };
        let default = match first {
            Some(v) => v,
            None => JsonValue::text("none"),
        };
        param.put("default", default);
    }
    let name: String = match param.get_str("name") {
        Some(n) => n.to_owned(),
        None => if idx < param_names.len() {
            let open = text::replace(param_names[idx].as_str(), "{", "");
            text::replace(open.as_str(), "}", "")
        } else {
            "".to_owned()
        },
    };
    param.cut("name");
    variables.insert(name.as_str(), param);
}

/// The variables with the named parameters from position `i` on.
pub open spec fn named_variables_from(
    openapi: Json,
    params: Members,
    i: nat,
    tokens: Seq<Text>,
    variables: Members,
) -> Members
    decreases params.len() - i,
{
    if i >= params.len() {
        variables
    } else {
        named_variables_from(
            openapi,
            params,
            i + 1,
            tokens,
            variable_added(
                openapi,
                params[i as int].0,
                i as int,
                params[i as int].1,
                tokens,
                variables,
            ),
        )
    }
}

/// The variables with the listed parameters from position `i` on.
pub open spec fn listed_variables_from(
    openapi: Json,
    params: Seq<Json>,
    i: nat,
    tokens: Seq<Text>,
    variables: Members,
) -> Members
    decreases params.len() - i,
{
    if i >= params.len() {
        variables
    } else {
        listed_variables_from(
            openapi,
            params,
            i + 1,
            tokens,
            variable_added(
                openapi,
                text::decimal(i),
                i as int,
                params[i as int],
                tokens,
                variables,
            ),
        )
    }
}

/// The variables of a parameterized host.
pub open spec fn host_variables(openapi: Json, params: Option<Json>, tokens: Seq<Text>) -> Members {
    match params {
        Some(Json::Object(m)) => named_variables_from(openapi, m, 0, tokens, Seq::empty()),
        Some(Json::Array(a)) => listed_variables_from(openapi, a, 0, tokens, Seq::empty()),
        _ => Seq::empty(),
    }
}

/// The document with a copy of the server for each scheme from position `i` on.
pub open spec fn scheme_servers_from(
    openapi: Json,
    schemes: Seq<Json>,
    i: nat,
    server: Json,
    url: Text,
) -> Json
    decreases schemes.len() - i,
{
    if i >= schemes.len() {
        openapi
    } else {
        let scheme = match schemes[i as int].text() {
            Some(s) => s,
            None => ""@,
        };
        scheme_servers_from(
            server_pushed(
                openapi,
                server.with("url"@, Json::String(scheme + "://"@ + url)),
            ),
            schemes,
            i + 1,
            server,
            url,
        )
    }
}

/// The URL template of a parameterized host.
pub open spec fn host_url(host: Json, swagger: Json) -> Text {
    (match host.text_member("hostTemplate"@) {
        Some(s) => s,
        None => ""@,
    }) + base_path(swagger)
}

/// The server of a parameterized host.
pub open spec fn host_server(openapi: Json, host: Json, url: Text) -> Json {
    Json::empty().with("url"@, Json::String(url)).with(
        "variables"@,
        Json::Object(host_variables(openapi, host.member("parameters"@), brace_tokens(url, 0))),
    )
}

/// The document with servers from its parameterized host.
pub open spec fn parameterized_host_built(openapi: Json, swagger: Json) -> Json {
    match swagger.member("x-ms-parameterized-host"@) {
        None => openapi,
        Some(host) => {
            let url = host_url(host, swagger);
            let server = host_server(openapi, host, url);
            let d1 = if host.member("useSchemePrefix"@) == Some(Json::Bool(false)) {
                server_pushed(openapi, server)
            } else {
                scheme_servers_from(
                    openapi,
                    body::elements_of(swagger.member("schemes"@)),
                    0,
                    server,
                    url,
                )
            };
            d1.without("x-ms-parameterized-host"@)
        },
    }
}

/// The variables of a parameterized host.
fn build_host_variables(
    openapi: &JsonValue,
    params: Option<&JsonValue>,
    tokens: &Vec<String>,
) -> (r: Object)
    ensures
        r@ == host_variables(openapi@, value::opt(params), json::texts(tokens@)),
{
    let ghost ts = json::texts(tokens@);
    let mut variables = Object::new();
    if let Some(v) = params {
        if let Some(m) = v.as_object() {
            let n: usize = m.len();
            let mut i: usize = 0;
            while i < n
                invariant
                    i <= n,
                    n == m@.len(),
                    ts == json::texts(tokens@),
                    named_variables_from(openapi@, m@, 0, ts, Seq::empty())
                        == named_variables_from(openapi@, m@, i as nat, ts, variables@),
                decreases n - i,
            {
                build_host_variable(
                    openapi,
                    m.key_at(i).as_str(),
                    i,
                    m.value_at(i),
                    tokens,
                    &mut variables,
                );
                i += 1;
            }
        } else if let Some(a) = v.as_array() {
            let ghost all = value::views(a@);
            let mut i: usize = 0;
            while i < a.len()
                invariant
                    i <= a@.len(),
                    all == value::views(a@),
                    ts == json::texts(tokens@),
                    listed_variables_from(openapi@, all, 0, ts, Seq::empty())
                        == listed_variables_from(openapi@, all, i as nat, ts, variables@),
                decreases a@.len() - i,
            {
                assert(all[i as int] == a@[i as int]@);
                let msp = text::u64_text(i as u64);
                build_host_variable(openapi, msp.as_str(), i, &a[i], tokens, &mut variables);
                i += 1;
            }
        }
    }
    variables
}

/// Push a copy of the server for each scheme.
fn push_scheme_servers(
    openapi: &mut JsonValue,
    schemes: &Vec<JsonValue>,
    server: &JsonValue,
    url: &str,
)
    ensures
        final(openapi)@ == scheme_servers_from(
            old(openapi)@,
            value::views(schemes@),
            0,
            server@,
            url@,
        ),
{
    let ghost ss = value::views(schemes@);
    let mut i: usize = 0;
    while i < schemes.len()
        invariant
            i <= schemes@.len(),
            ss == value::views(schemes@),
            scheme_servers_from(old(openapi)@, ss, 0, server@, url@) == scheme_servers_from(
                openapi@,
                ss,
                i as nat,
                server@,
                url@,
            ),
        decreases schemes@.len() - i,
    {
        assert(ss[i as int] == schemes@[i as int]@);
        let scheme: &str = match schemes[i].as_str() {
            Some(s) => s,
            None => "",
        };
        let mut copy = server.clone();
        copy.put("url", JsonValue::String(text::cat3(scheme, "://", url)));
        push_server(openapi, copy);
        i += 1;
    }
}

/// Build a server from an Azure `x-ms-parameterized-host` block.
///
/// The host template plus the base path becomes `server.url`. Each named
/// parameter moves under `server.variables` keyed by its name. The block is
/// removed from the output. With `useSchemePrefix === false` the server is
/// pushed once. Otherwise one server is pushed per scheme with the scheme
/// prepended to the URL.
pub fn build_parameterized_host(openapi: &mut JsonValue, swagger: &JsonValue)
    ensures
        final(openapi)@ == parameterized_host_built(old(openapi)@, swagger@),
{
    let host = match swagger.get("x-ms-parameterized-host") {
        Some(h) => h,
        None => {
            return;
        },
    };
    let template: &str = match host.get_str("hostTemplate") {
        Some(s) => s,
        None => "",
    };
    let base: &str = match swagger.get_str("basePath") {
        Some(s) => s,
        None => "",
    };
    let url = text::cat(template, base);
    let tokens = match_brace_tokens(url.as_str());
    let variables = build_host_variables(openapi, host.get("parameters"), &tokens);
    let mut server = JsonValue::empty_object();
    server.put("url", JsonValue::text(url.as_str()));
    server.put("variables", JsonValue::Object(variables));
    let once = match host.get("useSchemePrefix") {
        Some(v) => match v.as_bool() {
            Some(b) => !b,
            None => false,
        },
        None => false,
    };
    if once {
        push_server(openapi, server);
    } else if let Some(v) = swagger.get("schemes") {
        if let Some(schemes) = v.as_array() {
            push_scheme_servers(openapi, schemes, &server, url.as_str());
        }
    }
    openapi.cut("x-ms-parameterized-host");
}

} // verus!
