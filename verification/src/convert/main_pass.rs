//! The conversion core.

use vstd::prelude::*;

use crate::conversion_laws;
use crate::convert::cache::{Cached, RbCache};
use crate::convert::components;
use crate::convert::operation;
use crate::convert::paths;
use crate::convert::refs;
use crate::convert::security;
use crate::error::{self, S2OError};
use crate::json::{Json, Text};
use crate::options::{Options, Settings};
use crate::value::{JsonValue, Object};

verus! {

/// The document after the passes over `security` and the components: the
/// security schemes, the schemas, every `$ref`, the parameters and the
/// responses. The first failure ends the passes.
pub open spec fn components_processed(openapi: Json, o: Settings) -> (
    Json,
    Settings,
    Option<Text>,
) {
    let d0 = match openapi.member("security"@) {
        Some(v) => openapi.with("security"@, security::security_fixed(v)),
        None => openapi,
    };
    let (d1, o1, e1) = components::security_schemes_processed(d0, o);
    if e1 is Some {
        (d1, o1, e1)
    } else {
        let (d2, names, o2, e2) = components::schemas_processed(d1, o1);
        if e2 is Some {
            (d2, o2, e2)
        } else {
            let (d3, o3, e3) = refs::refs_fixed(d2, names, o2);
            if e3 is Some {
                (d3, o3, e3)
            } else {
                let (d4, o4, e4) = components::component_params_processed(d3, o3);
                if e4 is Some {
                    (d4, o4, e4)
                } else {
                    components::component_responses_processed(d4, o4)
                }
            }
        }
    }
}

/// The document with the paths of one container converted. They are away from
/// the document meanwhile, and stay away after a failure.
pub open spec fn container_processed(
    openapi: Json,
    name: Text,
    c: Seq<Cached>,
    o: Settings,
) -> (Json, Seq<Cached>, Settings, Option<Text>) {
    let (given, d1) = match openapi.member(name) {
        Some(v) => (v, openapi.with(name, Json::Null)),
        None => (Json::empty(), openapi),
    };
    let (items, d2, c2, o2, e2) = paths::paths_processed(given, name, d1, c, o);
    if e2 is Some {
        (d2, c2, o2, e2)
    } else {
        (d2.with(name, items), c2, o2, None)
    }
}

/// The document with `paths` converted, and `x-ms-paths` when it has that.
pub open spec fn all_paths_processed(openapi: Json, c: Seq<Cached>, o: Settings) -> (
    Json,
    Seq<Cached>,
    Settings,
    Option<Text>,
) {
    let (d1, c1, o1, e1) = container_processed(openapi, "paths"@, c, o);
    if e1 is Some || !d1.has("x-ms-paths"@) {
        (d1, c1, o1, e1)
    } else {
        container_processed(d1, "x-ms-paths"@, c1, o1)
    }
}

/// The document that the conversion core makes of a skeleton.
#[verifier::opaque]
pub open spec fn main_converted(openapi: Json, o: Settings) -> (Json, Settings, Option<Text>) {
    let (d1, o1, e1) = components_processed(openapi, o);
    if e1 is Some {
        (d1, o1, e1)
    } else {
        let c1 = components::bodies_seen(Seq::empty(), components::existing_bodies(d1), 0);
        let (d2, c2, o2, e2) = all_paths_processed(d1, c1, o1);
        if e2 is Some {
            (d2, o2, e2)
        } else {
            let d3 = components::consumed_params_dropped(d2, o2);
            let d4 = operation::media_types_dropped(d3, o2);
            let d5 = components::bodies_shared(d4, c2, o2);
            (components::components_pruned(d5), o2, None)
        }
    }
}

/// Convert `security` and the components.
pub fn process_components(openapi: &mut JsonValue, options: &mut Options) -> (r: Result<
    (),
    S2OError,
>)
    ensures
        (final(openapi)@, final(options)@, error::failure(r)) == components_processed(
            old(openapi)@,
            old(options)@,
        ),
{
    if let Some(v) = openapi.get_mut("security") {
        security::process_security(v);
    }
    components::process_security_schemes(openapi, options)?;
    let mut component_names = Object::new();
    components::process_schemas(openapi, &mut component_names, options)?;
    refs::fixup_refs(openapi, &component_names, options)?;
    components::process_component_parameters(openapi, options)?;
    components::process_component_responses(openapi, options)
}

/// Convert the paths of one container, with the rest of the document at hand for
/// internal references.
pub fn process_container(
    openapi: &mut JsonValue,
    name: &str,
    cache: &mut RbCache,
    options: &mut Options,
) -> (r: Result<(), S2OError>)
    ensures
        (final(openapi)@, final(cache)@, final(options)@, error::failure(r))
            == container_processed(old(openapi)@, name@, old(cache)@, old(options)@),
{
    let mut items = match openapi.get_mut(name) {
        Some(v) => v.take(),
        None => JsonValue::empty_object(),
    };
    paths::process_paths(&mut items, name, openapi, cache, options)?;
    openapi.put(name, items);
    Ok(())
}

/// Run the conversion core over an already-skeletoned document.
///
/// A converted document has no media types and no schemes of its own left.
pub fn main_convert(openapi: &mut JsonValue, options: &mut Options) -> (r: Result<(), S2OError>)
    ensures
        (final(openapi)@, final(options)@, error::failure(r)) == main_converted(
            old(openapi)@,
            old(options)@,
        ),
        r is Ok ==> !final(openapi)@.has("consumes"@) && !final(openapi)@.has("produces"@)
            && !final(openapi)@.has("schemes"@),
{
    proof {
        reveal(main_converted);
    }
    process_components(openapi, options)?;
    let mut cache = RbCache::new();
    components::seed_existing_request_bodies(openapi, &mut cache);
    proof {
        conversion_laws::existing_bodies_lead_nowhere(
            Seq::empty(),
            components::existing_bodies(openapi@),
            0,
        );
        conversion_laws::container_leads_into_paths(openapi@, "paths"@, cache@, options@);
    }
    process_container(openapi, "paths", &mut cache, options)?;
    if openapi.has("x-ms-paths") {
        proof {
            conversion_laws::container_leads_into_paths(
                openapi@,
                "x-ms-paths"@,
                cache@,
                options@,
            );
        }
        process_container(openapi, "x-ms-paths", &mut cache, options)?;
    }

    components::remove_consumed_parameters(openapi, options);
    operation::drop_media_types(openapi, options);
    proof {
        dropped_stay_away(openapi@, cache@, options@);
    }
    components::extract_shared_request_bodies(openapi, &cache, options);
    components::prune_empty_components(openapi);
    Ok(())
}

/// Dropped media types and schemes do not come back.
proof fn dropped_stay_away(openapi: Json, c: Seq<Cached>, o: Settings)
    requires
        conversion_laws::cache_leads_into_paths(c),
        !openapi.has("consumes"@),
        !openapi.has("produces"@),
        !openapi.has("schemes"@),
    ensures
        ({
            let d = components::components_pruned(components::bodies_shared(openapi, c, o));
            !d.has("consumes"@) && !d.has("produces"@) && !d.has("schemes"@)
        }),
{
    reveal_strlit("consumes");
    reveal_strlit("produces");
    reveal_strlit("schemes");
    reveal_strlit("components");
    reveal_strlit("paths");
    reveal_strlit("x-ms-paths");
    assert("consumes"@.len() == 8 && "produces"@.len() == 8 && "schemes"@.len() == 7);
    assert("components"@.len() == 10 && "paths"@.len() == 5 && "x-ms-paths"@.len() == 10);
    conversion_laws::sharing_touches_paths_and_components(openapi, c, o, "consumes"@);
    conversion_laws::sharing_touches_paths_and_components(openapi, c, o, "produces"@);
    conversion_laws::sharing_touches_paths_and_components(openapi, c, o, "schemes"@);
}

} // verus!
