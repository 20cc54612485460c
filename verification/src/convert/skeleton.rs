//! The OpenAPI 3.0 skeleton of a Swagger 2.0 document.

use vstd::prelude::*;

use crate::convert::components;
use crate::convert::info::{self, fix_info, fix_paths};
use crate::convert::servers;
use crate::error::{self, S2OError};
use crate::json::{self, Json, Num, Text};
use crate::laws;
use crate::number::Parts;
use crate::options::{Options, Settings};
use crate::recurse::{self, recurse, RecurseState, Visitor};
use crate::text;
use crate::value::JsonValue;
use crate::TARGET_VERSION;

verus! {

/// Provenance version recorded in `x-origin` entries.
pub const OUR_VERSION: &'static str = "7.0.8";

// --- version ---------------------------------------------------------------

/// Whether a version is `"2.0"` under loose comparison: that string, or the
/// number two.
pub open spec fn swagger_two(v: Option<Json>) -> bool {
    match v {
        Some(Json::String(s)) => s == "2.0"@,
        Some(Json::Number(Num::PosInt(n))) => n == 2,
        Some(Json::Number(Num::Float(bits))) => bits == 0x4000_0000_0000_0000,
        _ => false,
    }
}

/// Whether the swagger version value equals `"2.0"` under loose comparison.
pub fn is_swagger_two(v: Option<&JsonValue>) -> (b: bool)
    ensures
        b == swagger_two(
            match v {
                Some(x) => Some(x@),
                None => None,
            },
        ),
{
    match v {
        Some(JsonValue::String(s)) => *s.as_str() == *"2.0",
        Some(JsonValue::Number(n)) => match n.parts() {
            Parts::PosInt(u) => *u == 2,
            Parts::NegInt(_) => false,
            Parts::Float { bits, text: _ } => *bits == 0x4000_0000_0000_0000,
        },
        _ => false,
    }
}

/// The `openapi` version to emit.
pub open spec fn target_version(o: Settings) -> Text {
    match o.target_version {
        Some(t) => if text::starts(t, "3."@) {
            t
        } else {
            TARGET_VERSION@
        },
        None => TARGET_VERSION@,
    }
}

fn choose_target_version(options: &Options) -> (r: String)
    ensures
        r@ == target_version(options@),
{
    if let Some(t) = &options.target_version {
        if text::starts_with(t.as_str(), "3.") {
            return t.clone();
        }
    }
    TARGET_VERSION.to_owned()
}

// --- nulls -----------------------------------------------------------------

/// Whether a null under `key` is dropped.
pub open spec fn null_is_dropped(container: Json, key: Text, path: Text) -> bool {
    &&& container.member(key) == Some(Json::Null)
    &&& !text::starts(key, "x-"@)
    &&& key != "default"@
    &&& !text::occurs(path, "/example"@)
}

/// The removal of null members.
pub struct NullStripper {}

impl Visitor for NullStripper {
    type State = ();

    open spec fn state(&self) -> () {
        ()
    }

    open spec fn visited(s: (), container: Json, key: Text, path: Text) -> ((), Json) {
        if null_is_dropped(container, key, path) {
            ((), container.dropped(key))
        } else {
            ((), container)
        }
    }

    proof fn visit_is_bounded(s: (), container: Json, key: Text, path: Text) {
        if let Json::Object(m) = container {
            laws::remove_keeps_height(m, key);
        }
    }

    fn visit(&mut self, container: &mut JsonValue, key: &str, state: &RecurseState) {
        let is_null = match container.get(key) {
            Some(v) => v.is_null(),
            None => false,
        };
        if is_null && !text::starts_with(key, "x-") && !(*key == *"default") && !text::contains(
            state.path.as_str(),
            "/example",
        ) {
            if let Some(map) = container.as_object_mut() {
                map.remove(key);
            }
        }
    }
}

/// The document without null members, sparing extensions, `default`, and example
/// paths.
pub open spec fn nulls_stripped(openapi: Json) -> Json {
    recurse::recursed::<NullStripper>((), openapi, "#"@).1
}

/// Delete null members, sparing extensions, `default`, and example paths.
///
/// On an object the key is removed. On an array the slot is left as `null`
/// rather than spliced out. This matches `delete arr[i]`, which leaves a hole:
/// the later indices keep their positions and the hole serializes back to
/// `null`.
pub fn strip_nulls(openapi: &mut JsonValue)
    ensures
        final(openapi)@ == nulls_stripped(old(openapi)@),
{
    let mut stripper = NullStripper {  };
    recurse(openapi, "#", &mut stripper);
}

// --- skeleton --------------------------------------------------------------

/// The provenance entry.
pub open spec fn origin_entry(swagger: Json, o: Settings) -> Json {
    let url = match o.source {
        Some(s) => s,
        None => "true"@,
    };
    let converter = Json::empty().with(
        "url"@,
        Json::String("https://github.com/mermade/oas-kit"@),
    ).with("version"@, Json::String(OUR_VERSION@));
    Json::empty().with("url"@, Json::String(url)).with("format"@, Json::String("swagger"@)).with(
        "version"@,
        json::value_or(swagger.member("swagger"@), Json::Null),
    ).with("converter"@, converter)
}

/// The `openapi` version first, then the provenance, then every member of the
/// Swagger document but `swagger`.
pub open spec fn members_copied(swagger: Json, o: Settings) -> Json {
    let d0 = Json::empty().with("openapi"@, Json::String(target_version(o)));
    let d1 = if o.origin {
        d0.with("x-origin"@, Json::Array(seq![origin_entry(swagger, o)]))
    } else {
        d0
    };
    Json::Object(json::insert_all(d1.members(), swagger.members(), 0)).without("swagger"@)
}

/// The document with its own servers in place of the derived ones.
pub open spec fn servers_replaced(openapi: Json) -> Json {
    match openapi.member("x-servers"@) {
        Some(Json::Array(a)) => openapi.without("x-servers"@).with("servers"@, Json::Array(a)),
        _ => openapi,
    }
}

/// The document with the servers of the Swagger document.
pub open spec fn servers_derived(openapi: Json, swagger: Json) -> Json {
    servers::parameterized_host_built(
        servers_replaced(servers::servers_built(openapi, swagger)),
        swagger,
    )
}

/// The document with a lone media type under `key` as a list.
pub open spec fn listed(openapi: Json, key: Text) -> Json {
    match openapi.member(key) {
        Some(Json::String(s)) => openapi.with(key, Json::Array(seq![Json::String(s)])),
        _ => openapi,
    }
}

/// The document with `info` and `paths` repaired, and the failure.
#[verifier::opaque]
pub open spec fn essentials_fixed(openapi: Json, o: Settings) -> (Json, Settings, Option<Text>) {
    let (d1, o1, e1) = info::info_fixed(openapi, o);
    if e1 is Some {
        (d1, o1, e1)
    } else {
        info::paths_supplied(d1, o1)
    }
}

/// The skeleton of a Swagger document, and the failure.
#[verifier::opaque]
pub open spec fn skeleton(swagger: Json, o: Settings) -> (Json, Settings, Option<Text>) {
    let d1 = servers_derived(nulls_stripped(members_copied(swagger, o)), swagger);
    let (d2, o2, e2) = essentials_fixed(d1, o);
    if e2 is Some {
        (d2, o2, e2)
    } else {
        (
            components::components_built(listed(listed(d2, "consumes"@), "produces"@)),
            o2,
            None,
        )
    }
}

fn build_origin(swagger: &JsonValue, options: &Options) -> (r: JsonValue)
    ensures
        r@ == origin_entry(swagger@, options@),
{
    let url = match &options.source {
        Some(s) => s.clone(),
        None => "true".to_owned(),
    };
    let mut converter = JsonValue::empty_object();
    converter.put("url", JsonValue::text("https://github.com/mermade/oas-kit"));
    converter.put("version", JsonValue::text(OUR_VERSION));
    let mut origin = JsonValue::empty_object();
    origin.put("url", JsonValue::String(url));
    origin.put("format", JsonValue::text("swagger"));
    let version = match swagger.get("swagger") {
        Some(v) => v.clone(),
        None => JsonValue::Null,
    };
    origin.put("version", version);
    origin.put("converter", converter);
    origin
}

fn copy_members(swagger: &JsonValue, options: &Options) -> (r: JsonValue)
    ensures
        r@ == members_copied(swagger@, options@),
{
    let mut openapi = JsonValue::empty_object();
    openapi.put("openapi", JsonValue::String(choose_target_version(options)));
    if options.origin {
        let entries = vec![build_origin(swagger, options)];
        let origin = JsonValue::array(entries);
        assert(origin@->Array_0 =~= seq![origin_entry(swagger@, options@)]);
        openapi.put("x-origin", origin);
    }
    // Copy swagger members in, keeping openapi first.
    if let Some(own) = openapi.as_object_mut() {
        if let Some(map) = swagger.as_object() {
            own.set_all(map);
        }
    }
    openapi.cut("swagger");
    openapi
}

fn list_media_types(openapi: &mut JsonValue, key: &str)
    ensures
        final(openapi)@ == listed(old(openapi)@, key@),
{
    if let Some(v) = openapi.get(key) {
        if let Some(s) = v.as_str() {
            let list = JsonValue::array(vec![JsonValue::text(s)]);
            assert(list@->Array_0 =~= seq![Json::String(s@)]);
            openapi.put(key, list);
        }
    }
}

fn replace_servers(openapi: &mut JsonValue)
    ensures
        final(openapi)@ == servers_replaced(old(openapi)@),
{
    let own = match openapi.get("x-servers") {
        Some(v) => if v.is_array() {
            Some(v.clone())
        } else {
            None
        },
        None => None,
    };
    if let Some(v) = own {
        openapi.cut("x-servers");
        openapi.put("servers", v);
    }
}

/// Repair `info` and `paths`.
pub fn fix_essentials(openapi: &mut JsonValue, options: &mut Options) -> (r: Result<(), S2OError>)
    ensures
        (final(openapi)@, final(options)@, error::failure(r)) == essentials_fixed(
            old(openapi)@,
            old(options)@,
        ),
{
    proof {
        reveal(essentials_fixed);
    }
    fix_info(openapi, options)?;
    fix_paths(openapi, options)
}

/// Build the skeleton of a Swagger document in `openapi`.
pub fn build_skeleton(swagger: &JsonValue, openapi: &mut JsonValue, options: &mut Options) -> (r:
    Result<(), S2OError>)
    ensures
        (final(openapi)@, final(options)@, error::failure(r)) == skeleton(
            swagger@,
            old(options)@,
        ),
{
    proof {
        reveal(skeleton);
    }
    *openapi = copy_members(swagger, options);
    strip_nulls(openapi);
    servers::build_servers(openapi, swagger);
    replace_servers(openapi);
    servers::build_parameterized_host(openapi, swagger);
    fix_essentials(openapi, options)?;
    list_media_types(openapi, "consumes");
    list_media_types(openapi, "produces");
    components::build_components(openapi);
    Ok(())
}

} // verus!
