//! The info object and the paths object.

use vstd::prelude::*;

use crate::convert::header;
use crate::error::{self, warn_or_error, S2OError};
use crate::json::{self, Json, Text};
use crate::number;
use crate::options::{Options, Settings};
use crate::serial::{self, to_json_text};
use crate::text;
use crate::value::{self, cloned, member_of, text_of, JsonValue};

verus! {

/// A value as its string form: a string as it is, any other value as JSON.
pub open spec fn value_text(v: Json) -> Text {
    match v {
        Json::String(s) => s,
        Json::Number(n) => number::number_text(n),
        Json::Bool(b) => if b {
            "true"@
        } else {
            "false"@
        },
        Json::Null => "null"@,
        _ => serial::json_text(v),
    }
}

/// Render a scalar value as its string form.
pub fn value_to_string(v: &JsonValue) -> (r: String)
    ensures
        r@ == value_text(v@),
{
    match v {
        JsonValue::String(s) => s.clone(),
        JsonValue::Number(n) => n.to_text(),
        JsonValue::Bool(b) => if *b {
            "true".to_owned()
        } else {
            "false".to_owned()
        },
        JsonValue::Null => "null".to_owned(),
        _ => to_json_text(v),
    }
}

/// The document with a member of the info object set.
pub open spec fn info_with(openapi: Json, key: Text, v: Json) -> Json {
    let d1 = openapi.with_new("info"@, Json::empty());
    d1.with("info"@, d1.member("info"@)->0.with(key, v))
}

/// The document with a member of the info object dropped.
pub open spec fn info_without(openapi: Json, key: Text) -> Json {
    match openapi.member("info"@) {
        Some(info) => openapi.with("info"@, info.without(key)),
        None => openapi,
    }
}

/// Set a member of the info object.
pub fn set_info(openapi: &mut JsonValue, key: &str, v: JsonValue)
    ensures
        final(openapi)@ == info_with(old(openapi)@, key@, v@),
{
    openapi.put_new("info", JsonValue::empty_object());
    proof {
        header::json_new_member(old(openapi)@, "info"@, Json::empty());
    }
    if let Some(info) = openapi.get_mut("info") {
        info.put(key, v);
    }
}

/// Drop a member of the info object.
fn cut_info(openapi: &mut JsonValue, key: &str)
    ensures
        final(openapi)@ == info_without(old(openapi)@, key@),
{
    if let Some(info) = openapi.get_mut("info") {
        info.cut(key);
    }
}

/// Whether an optional value is missing or `null`.
pub open spec fn absent(v: Option<Json>) -> bool {
    v is None || v == Some(Json::Null)
}

/// Whether an optional value is missing or `null`.
fn is_absent(v: Option<&JsonValue>) -> (b: bool)
    ensures
        b == absent(value::opt(v)),
{
    match v {
        Some(v) => v.is_null(),
        None => true,
    }
}

/// Whether `c` may stand in a URL scheme.
pub open spec fn scheme_char(c: char) -> bool {
    text::ascii_letter(c) || text::ascii_digit(c) || c == '+' || c == '-' || c == '.'
}

/// Whether a text starts with a scheme and `:`.
pub open spec fn url_like(s: Text) -> bool {
    match text::find_spec(s, ":"@) {
        Some(i) => {
            &&& i > 0
            &&& text::ascii_letter(s[0])
            &&& forall|k: int| 0 <= k < i ==> scheme_char(#[trigger] s[k])
        },
        None => false,
    }
}

/// Whether a string parses as an absolute URL the way `new URL(...)` would.
///
/// The check requires a scheme followed by `:`, matching the lenient WHATWG
/// behaviour the algorithm relies on.
pub fn looks_like_url(s: &str) -> (b: bool)
    ensures
        b == url_like(s@),
{
    let n: usize = match text::find(s, ":") {
        Some(i) => i,
        None => {
            return false;
        },
    };
    let cs = text::to_chars(s);
    if n == 0 || !text::is_ascii_letter(cs[0]) {
        return false;
    }
    let mut i: usize = 0;
    while i < n
        invariant
            i <= n <= cs@.len(),
            cs@ == s@,
            n > 0,
            text::find_spec(s@, ":"@) == Some(n as int),
            forall|k: int| 0 <= k < i ==> scheme_char(#[trigger] s@[k]),
        decreases n - i,
    {
        let c: char = cs[i];
        if !(text::is_ascii_letter(c) || text::is_ascii_digit(c) || c == '+' || c == '-' || c
            == '.') {
            assert(!scheme_char(s@[i as int]));
            return false;
        }
        i += 1;
    }
    true
}

/// The document with an info object, the settings and the failure. In place of another
/// value it holds the warning about that.
pub open spec fn info_supplied(openapi: Json, o: Settings) -> (Json, Settings, Option<Text>) {
    let (d1, o1, e1) = if absent(openapi.member("info"@)) {
        if o.patch {
            (
                openapi.with(
                    "info"@,
                    Json::empty().with("version"@, Json::String(""@)).with(
                        "title"@,
                        Json::String(""@),
                    ),
                ),
                o.patched(),
                None,
            )
        } else {
            (openapi, o, Some("(Patchable) info object is mandatory"@))
        }
    } else {
        (openapi, o, None)
    };
    match (e1, d1.member("info"@)) {
        (None, Some(Json::Object(_))) => (d1, o1, None),
        (None, _) => {
            let (info, e2) = error::warned(Json::empty(), "info must be an object"@, o1);
            match e2 {
                Some(_) => (d1, o1, e2),
                None => (d1.with("info"@, info), o1, None),
            }
        },
        _ => (d1, o1, e1),
    }
}

/// The document with the member `key` of the info object, the settings and the
/// failure.
pub open spec fn info_member_supplied(openapi: Json, key: Text, problem: Text, o: Settings) -> (
    Json,
    Settings,
    Option<Text>,
) {
    if absent(openapi.member2("info"@, key)) {
        if o.patch {
            (info_with(openapi, key, Json::String(""@)), o.patched(), None)
        } else {
            (openapi, o, Some(problem))
        }
    } else {
        (openapi, o, None)
    }
}

/// The document with a string version, the settings and the failure.
pub open spec fn version_made_string(openapi: Json, o: Settings) -> (
    Json,
    Settings,
    Option<Text>,
) {
    let v = openapi.member2("info"@, "version"@);
    if v matches Some(Json::String(_)) {
        (openapi, o, None)
    } else if o.patch {
        (
            info_with(
                openapi,
                "version"@,
                Json::String(value_text(json::value_or(v, Json::Null))),
            ),
            o.patched(),
            None,
        )
    } else {
        (openapi, o, Some("(Patchable) info.version must be a string"@))
    }
}

/// The document with the logo under its extension name, the settings and the
/// failure.
pub open spec fn logo_moved(openapi: Json, o: Settings) -> (Json, Settings, Option<Text>) {
    match openapi.member2("info"@, "logo"@) {
        Some(logo) => if o.patch {
            (
                info_without(info_with(openapi, "x-logo"@, logo), "logo"@),
                o.patched(),
                None,
            )
        } else {
            (openapi, o, Some("(Patchable) info should not have logo property"@))
        },
        None => (openapi, o, None),
    }
}

/// The document with valid terms of service, the settings and the failure.
pub open spec fn terms_fixed(openapi: Json, o: Settings) -> (Json, Settings, Option<Text>) {
    match openapi.member2("info"@, "termsOfService"@) {
        None => (openapi, o, None),
        Some(tos) => {
            let (d1, o1, e1) = if tos is Null {
                if o.patch {
                    (
                        info_with(openapi, "termsOfService"@, Json::String(""@)),
                        o.patched(),
                        None,
                    )
                } else {
                    (openapi, o, Some("(Patchable) info.termsOfService cannot be null"@))
                }
            } else {
                (openapi, o, None)
            };
            match e1 {
                Some(_) => (d1, o1, e1),
                None => {
                    let url = match json::text_of(d1.member2("info"@, "termsOfService"@)) {
                        Some(s) => s,
                        None => ""@,
                    };
                    if url_like(url) {
                        (d1, o1, None)
                    } else if o1.patch {
                        (info_without(d1, "termsOfService"@), o1.patched(), None)
                    } else {
                        (d1, o1, Some("(Patchable) info.termsOfService must be a URL"@))
                    }
                },
            }
        },
    }
}

/// The document with a valid info object, the settings and the failure.
pub open spec fn info_fixed(openapi: Json, o: Settings) -> (Json, Settings, Option<Text>) {
    let (d1, o1, e1) = info_supplied(openapi, o);
    if e1 is Some {
        (d1, o1, e1)
    } else {
        let (d2, o2, e2) = info_member_supplied(
            d1,
            "title"@,
            "(Patchable) info.title cannot be null"@,
            o1,
        );
        if e2 is Some {
            (d2, o2, e2)
        } else {
            let (d3, o3, e3) = info_member_supplied(
                d2,
                "version"@,
                "(Patchable) info.version cannot be null"@,
                o2,
            );
            if e3 is Some {
                (d3, o3, e3)
            } else {
                let (d4, o4, e4) = version_made_string(d3, o3);
                if e4 is Some {
                    (d4, o4, e4)
                } else {
                    let (d5, o5, e5) = logo_moved(d4, o4);
                    if e5 is Some {
                        (d5, o5, e5)
                    } else {
                        terms_fixed(d5, o5)
                    }
                }
            }
        }
    }
}

/// Supply a missing info object under patch.
fn supply_info(openapi: &mut JsonValue, options: &mut Options) -> (r: Result<(), S2OError>)
    ensures
        (final(openapi)@, final(options)@, error::failure(r)) == info_supplied(
            old(openapi)@,
            old(options)@,
        ),
{
    if is_absent(openapi.get("info")) {
        if options.patch {
            options.add_patch();
            let mut info = JsonValue::empty_object();
            info.put("version", JsonValue::text(""));
            info.put("title", JsonValue::text(""));
            openapi.put("info", info);
        } else {
            return Err(S2OError::new("(Patchable) info object is mandatory"));
        }
    }
    let is_object = match openapi.get("info") {
        Some(v) => v.is_object(),
        None => false,
    };
    if !is_object {
        let mut info = JsonValue::empty_object();
        warn_or_error("info must be an object", &mut info, options)?;
        openapi.put("info", info);
    }
    Ok(())
}

/// Supply a missing member of the info object under patch.
fn supply_info_member(
    openapi: &mut JsonValue,
    key: &str,
    problem: &str,
    options: &mut Options,
) -> (r: Result<(), S2OError>)
    ensures
        (final(openapi)@, final(options)@, error::failure(r)) == info_member_supplied(
            old(openapi)@,
            key@,
            problem@,
            old(options)@,
        ),
{
    if is_absent(member_of(openapi.get("info"), key)) {
        if options.patch {
            options.add_patch();
            set_info(openapi, key, JsonValue::text(""));
        } else {
            return Err(S2OError::new(problem));
        }
    }
    Ok(())
}

/// Make the version a string under patch.
fn make_version_string(openapi: &mut JsonValue, options: &mut Options) -> (r: Result<(), S2OError>)
    ensures
        (final(openapi)@, final(options)@, error::failure(r)) == version_made_string(
            old(openapi)@,
            old(options)@,
        ),
{
    let (is_string, rendered): (bool, String) = match member_of(openapi.get("info"), "version") {
        Some(v) => (v.is_string(), value_to_string(v)),
        None => (false, value_to_string(&JsonValue::Null)),
    };
    if !is_string {
        if options.patch {
            options.add_patch();
            set_info(openapi, "version", JsonValue::String(rendered));
        } else {
            return Err(S2OError::new("(Patchable) info.version must be a string"));
        }
    }
    Ok(())
}

/// Move the logo under its extension name under patch.
fn move_logo(openapi: &mut JsonValue, options: &mut Options) -> (r: Result<(), S2OError>)
    ensures
        (final(openapi)@, final(options)@, error::failure(r)) == logo_moved(
            old(openapi)@,
            old(options)@,
        ),
{
    if let Some(logo) = cloned(member_of(openapi.get("info"), "logo")) {
        if options.patch {
            options.add_patch();
            set_info(openapi, "x-logo", logo);
            cut_info(openapi, "logo");
        } else {
            return Err(S2OError::new("(Patchable) info should not have logo property"));
        }
    }
    Ok(())
}

/// Validate the optional info.termsOfService URL.
pub fn fix_terms_of_service(openapi: &mut JsonValue, options: &mut Options) -> (r: Result<
    (),
    S2OError,
>)
    ensures
        (final(openapi)@, final(options)@, error::failure(r)) == terms_fixed(
            old(openapi)@,
            old(options)@,
        ),
{
    let is_null = match member_of(openapi.get("info"), "termsOfService") {
        Some(tos) => tos.is_null(),
        None => {
            return Ok(());
        },
    };
    if is_null {
        if options.patch {
            options.add_patch();
            set_info(openapi, "termsOfService", JsonValue::text(""));
        } else {
            return Err(S2OError::new("(Patchable) info.termsOfService cannot be null"));
        }
    }
    let is_url = match text_of(member_of(openapi.get("info"), "termsOfService")) {
        Some(s) => looks_like_url(s),
        None => looks_like_url(""),
    };
    if !is_url {
        if options.patch {
            options.add_patch();
            cut_info(openapi, "termsOfService");
        } else {
            return Err(S2OError::new("(Patchable) info.termsOfService must be a URL"));
        }
    }
    Ok(())
}

/// Validate and repair the info object.
pub fn fix_info(openapi: &mut JsonValue, options: &mut Options) -> (r: Result<(), S2OError>)
    ensures
        (final(openapi)@, final(options)@, error::failure(r)) == info_fixed(
            old(openapi)@,
            old(options)@,
        ),
{
    supply_info(openapi, options)?;
    supply_info_member(openapi, "title", "(Patchable) info.title cannot be null", options)?;
    supply_info_member(openapi, "version", "(Patchable) info.version cannot be null", options)?;
    make_version_string(openapi, options)?;
    move_logo(openapi, options)?;
    fix_terms_of_service(openapi, options)
}

/// The document with a paths object, the settings and the failure.
pub open spec fn paths_supplied(openapi: Json, o: Settings) -> (Json, Settings, Option<Text>) {
    if openapi.has("paths"@) {
        (openapi, o, None)
    } else if o.patch {
        (openapi.with("paths"@, Json::empty()), o.patched(), None)
    } else {
        (openapi, o, Some("(Patchable) paths object is mandatory"@))
    }
}

/// Ensure a paths object exists.
pub fn fix_paths(openapi: &mut JsonValue, options: &mut Options) -> (r: Result<(), S2OError>)
    ensures
        (final(openapi)@, final(options)@, error::failure(r)) == paths_supplied(
            old(openapi)@,
            old(options)@,
        ),
{
    if !openapi.has("paths") {
        if options.patch {
            options.add_patch();
            openapi.put("paths", JsonValue::empty_object());
        } else {
            return Err(S2OError::new("(Patchable) paths object is mandatory"));
        }
    }
    Ok(())
}

} // verus!
