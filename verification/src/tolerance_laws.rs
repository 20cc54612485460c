//! Laws of what `patch` and `warn_only` cover.

use vstd::prelude::*;

use crate::common;
use crate::convert::{self, Outcome, Stage};
use crate::convert::body;
use crate::convert::cache::Cached;
use crate::convert::components;
use crate::convert::header;
use crate::convert::info;
use crate::convert::main_pass;
use crate::convert::operation;
use crate::convert::parameter;
use crate::convert::paths;
use crate::convert::refs;
use crate::convert::response;
use crate::convert::security;
use crate::convert::skeleton;
use crate::error;
use crate::fixup::{self, Fixer};
use crate::json::{self, Json, Members, Text};
use crate::options::Settings;
use crate::schema_walker;
use crate::text;

verus! {

/// Whether a failure is about a problem that `patch` repairs.
pub open spec fn patchable(message: Text) -> bool {
    text::starts(message, "(Patchable) "@)
}

/// Whether the settings that a conversion goes by stay as they are, and a failure is
/// about a problem that they do not cover: a patchable one without `patch`, or
/// another one without `warn_only`.
pub open spec fn uncovered(before: Settings, after: Settings, e: Option<Text>) -> bool {
    &&& after.patch == before.patch
    &&& after.warn_only == before.warn_only
    &&& after.resolve == before.resolve
    &&& after.source == before.source
    &&& after.warn_property == before.warn_property
    &&& after.rbname == before.rbname
    &&& after.debug == before.debug
    &&& after.resolve_internal == before.resolve_internal
    &&& after.ref_siblings == before.ref_siblings
    &&& match e {
        Some(m) => if patchable(m) {
            !before.patch
        } else {
            !before.warn_only
        },
        None => true,
    }
}

/// Whether a message starts with another character than those of patchable problems.
spec fn is_plain(message: Text) -> bool {
    message.len() > 0 && message[0] != '('
}

proof fn plain_is_other(message: Text)
    requires
        is_plain(message),
    ensures
        !patchable(message),
{
    reveal_strlit("(Patchable) ");
    if patchable(message) {
        assert(message.subrange(0, 12)[0] == '(');
    }
}

broadcast proof fn warning_uncovered(container: Json, message: Text, o: Settings)
    requires
        is_plain(message),
    ensures
        uncovered(o, o, (#[trigger] error::warned(container, message, o)).1),
{
    plain_is_other(message);
}

broadcast proof fn plain_goes_on(message: Text, rest: Text)
    requires
        is_plain(message),
    ensures
        is_plain(#[trigger] (message + rest)),
{
}

broadcast proof fn patchable_goes_on(message: Text, rest: Text)
    requires
        patchable(message),
    ensures
        patchable(#[trigger] (message + rest)),
{
    reveal_strlit("(Patchable) ");
    assert((message + rest).subrange(0, 12) == message.subrange(0, 12));
}

broadcast group messages_uncovered {
    warning_uncovered,
    plain_goes_on,
    patchable_goes_on,
}

proof fn patchable_start(message: Text)
    requires
        message.len() >= 12,
        forall|i: int| 0 <= i < 12 ==> message[i] == #[trigger] "(Patchable) "@[i],
    ensures
        patchable(message),
{
    reveal_strlit("(Patchable) ");
    assert(message.subrange(0, 12) == "(Patchable) "@);
}

proof fn patchable_messages()
    ensures
        patchable("(Patchable) \"Status Code\" is not a valid header"@),
        patchable("(Patchable) collectionFormat is only applicable to header.type array"@),
        patchable("(Patchable) collectionFormat is only applicable to param.type array"@),
        patchable("(Patchable) info object is mandatory"@),
        patchable("(Patchable) info should not have logo property"@),
        patchable("(Patchable) info.termsOfService cannot be null"@),
        patchable("(Patchable) info.termsOfService must be a URL"@),
        patchable("(Patchable) info.title cannot be null"@),
        patchable("(Patchable) info.version cannot be null"@),
        patchable("(Patchable) info.version must be a string"@),
        patchable("(Patchable) oauth2 securitySchemes should not have name property"@),
        patchable("(Patchable) operation.consumes must be an array"@),
        patchable("(Patchable) operation.produces must be an array"@),
        patchable("(Patchable) parameter.type is mandatory for non-body parameters"@),
        patchable("(Patchable) path parameters must be required:true ["@),
        patchable("(Patchable) paths object is mandatory"@),
        patchable("(Patchable) response.description is mandatory"@),
        patchable("(Patchable) schema type must not be an array"@),
{
    reveal_strlit("(Patchable) ");
    reveal_strlit("(Patchable) \"Status Code\" is not a valid header");
    patchable_start("(Patchable) \"Status Code\" is not a valid header"@);
    reveal_strlit("(Patchable) collectionFormat is only applicable to header.type array");
    patchable_start("(Patchable) collectionFormat is only applicable to header.type array"@);
    reveal_strlit("(Patchable) collectionFormat is only applicable to param.type array");
    patchable_start("(Patchable) collectionFormat is only applicable to param.type array"@);
    reveal_strlit("(Patchable) info object is mandatory");
    patchable_start("(Patchable) info object is mandatory"@);
    reveal_strlit("(Patchable) info should not have logo property");
    patchable_start("(Patchable) info should not have logo property"@);
    reveal_strlit("(Patchable) info.termsOfService cannot be null");
    patchable_start("(Patchable) info.termsOfService cannot be null"@);
    reveal_strlit("(Patchable) info.termsOfService must be a URL");
    patchable_start("(Patchable) info.termsOfService must be a URL"@);
    reveal_strlit("(Patchable) info.title cannot be null");
    patchable_start("(Patchable) info.title cannot be null"@);
    reveal_strlit("(Patchable) info.version cannot be null");
    patchable_start("(Patchable) info.version cannot be null"@);
    reveal_strlit("(Patchable) info.version must be a string");
    patchable_start("(Patchable) info.version must be a string"@);
    reveal_strlit("(Patchable) oauth2 securitySchemes should not have name property");
    patchable_start("(Patchable) oauth2 securitySchemes should not have name property"@);
    reveal_strlit("(Patchable) operation.consumes must be an array");
    patchable_start("(Patchable) operation.consumes must be an array"@);
    reveal_strlit("(Patchable) operation.produces must be an array");
    patchable_start("(Patchable) operation.produces must be an array"@);
    reveal_strlit("(Patchable) parameter.type is mandatory for non-body parameters");
    patchable_start("(Patchable) parameter.type is mandatory for non-body parameters"@);
    reveal_strlit("(Patchable) path parameters must be required:true [");
    patchable_start("(Patchable) path parameters must be required:true ["@);
    reveal_strlit("(Patchable) paths object is mandatory");
    patchable_start("(Patchable) paths object is mandatory"@);
    reveal_strlit("(Patchable) response.description is mandatory");
    patchable_start("(Patchable) response.description is mandatory"@);
    reveal_strlit("(Patchable) schema type must not be an array");
    patchable_start("(Patchable) schema type must not be an array"@);
}

proof fn other_messages()
    ensures
        is_plain("Could not resolve reference "@),
        is_plain("Definition used as parameter"@),
        is_plain("Duplicate sanitised parameter name "@),
        is_plain("Duplicate sanitised response name "@),
        is_plain("Duplicate sanitised securityScheme name "@),
        is_plain("Lost properties from oneOf"@),
        is_plain("Nested collectionFormats are not supported"@),
        is_plain("Operation "@),
        is_plain("Unsupported swagger/OpenAPI version: "@),
        is_plain("YAML anchor or merge key"@),
        is_plain("collectionFormat:pipes is no longer supported except for in:query parameters"@),
        is_plain("collectionFormat:pipes is no longer supported for headers"@),
        is_plain("collectionFormat:ssv is no longer supported except for in:query parameters"@),
        is_plain("collectionFormat:ssv is no longer supported for headers"@),
        is_plain("collectionFormat:tsv is no longer supported"@),
        is_plain("definition used as response: "@),
        is_plain("direct $ref not found "@),
        is_plain("info must be an object"@),
        is_plain("parameter has array,items and schema"@),
        is_plain("resolve requires options.source"@),
{
    reveal_strlit("Could not resolve reference ");
    reveal_strlit("Definition used as parameter");
    reveal_strlit("Duplicate sanitised parameter name ");
    reveal_strlit("Duplicate sanitised response name ");
    reveal_strlit("Duplicate sanitised securityScheme name ");
    reveal_strlit("Lost properties from oneOf");
    reveal_strlit("Nested collectionFormats are not supported");
    reveal_strlit("Operation ");
    reveal_strlit("Unsupported swagger/OpenAPI version: ");
    reveal_strlit("YAML anchor or merge key");
    reveal_strlit("collectionFormat:pipes is no longer supported except for in:query parameters");
    reveal_strlit("collectionFormat:pipes is no longer supported for headers");
    reveal_strlit("collectionFormat:ssv is no longer supported except for in:query parameters");
    reveal_strlit("collectionFormat:ssv is no longer supported for headers");
    reveal_strlit("collectionFormat:tsv is no longer supported");
    reveal_strlit("definition used as response: ");
    reveal_strlit("direct $ref not found ");
    reveal_strlit("info must be an object");
    reveal_strlit("parameter has array,items and schema");
    reveal_strlit("resolve requires options.source");
}

// --- schemas ---------------------------------------------------------------

proof fn keywords_uncovered(b: Settings, s: (Settings, Option<Text>), j: Json, parent: Option<Json>)
    requires
        uncovered(b, s.0, s.1),
    ensures
        ({
            let t = fixup::sub_schema_fixed(s, j, parent).0;
            uncovered(b, t.0, t.1)
        }),
{
    broadcast use messages_uncovered;

    patchable_messages();
    other_messages();
}

proof fn walk_uncovered(
    b: Settings,
    h: nat,
    s: (Settings, Option<Text>),
    j: Json,
    parent: Option<Json>,
)
    requires
        uncovered(b, s.0, s.1),
    ensures
        ({
            let t = schema_walker::walked::<Fixer>(h, s, j, parent).0;
            uncovered(b, t.0, t.1)
        }),
    decreases h, 3nat, 0nat,
{
    if j is Object || j is Array {
        if j.text_member("$ref"@) is Some {
            keywords_uncovered(b, s, Json::single("$ref"@, j.member("$ref"@)->0), parent);
        } else {
            keywords_uncovered(b, s, j, parent);
            let (s1, j1, p1) = fixup::sub_schema_fixed(s, j, parent);
            children_uncovered(b, h, s1, j1);
        }
    }
}

proof fn children_uncovered(b: Settings, h: nat, s: (Settings, Option<Text>), j: Json)
    requires
        uncovered(b, s.0, s.1),
    ensures
        ({
            let t = schema_walker::children_walked::<Fixer>(h, s, j).0;
            uncovered(b, t.0, t.1)
        }),
    decreases h, 2nat, 0nat,
{
    let (s1, j1) = schema_walker::child_walked::<Fixer>(h, s, j, "items"@);
    child_uncovered(b, h, s, j, "items"@);
    let (s2, j2) = schema_walker::container_walked::<Fixer>(h, s1, j1, "additionalItems"@);
    child_uncovered(b, h, s1, j1, "additionalItems"@);
    let (s3, j3) = schema_walker::container_walked::<Fixer>(h, s2, j2, "additionalProperties"@);
    child_uncovered(b, h, s2, j2, "additionalProperties"@);
    let (s4, j4) = schema_walker::map_walked::<Fixer>(h, s3, j3, "properties"@);
    map_uncovered(b, h, s3, j3, "properties"@);
    let (s5, j5) = schema_walker::map_walked::<Fixer>(h, s4, j4, "patternProperties"@);
    map_uncovered(b, h, s4, j4, "patternProperties"@);
    let (s6, j6) = schema_walker::array_walked::<Fixer>(h, s5, j5, "allOf"@);
    array_uncovered(b, h, s5, j5, "allOf"@);
    let (s7, j7) = schema_walker::array_walked::<Fixer>(h, s6, j6, "anyOf"@);
    array_uncovered(b, h, s6, j6, "anyOf"@);
    let (s8, j8) = schema_walker::array_walked::<Fixer>(h, s7, j7, "oneOf"@);
    array_uncovered(b, h, s7, j7, "oneOf"@);
    child_uncovered(b, h, s8, j8, "not"@);
}

proof fn child_uncovered(b: Settings, h: nat, s: (Settings, Option<Text>), j: Json, key: Text)
    requires
        uncovered(b, s.0, s.1),
    ensures
        ({
            let t = schema_walker::child_walked::<Fixer>(h, s, j, key).0;
            let u = schema_walker::container_walked::<Fixer>(h, s, j, key).0;
            uncovered(b, t.0, t.1) && uncovered(b, u.0, u.1)
        }),
    decreases h, 1nat, 0nat,
{
    if let Some(child) = j.member(key) {
        if h > 0 {
            walk_uncovered(b, (h - 1) as nat, s, child, Some(j.dropped(key)));
        }
    }
}

proof fn map_uncovered(b: Settings, h: nat, s: (Settings, Option<Text>), j: Json, key: Text)
    requires
        uncovered(b, s.0, s.1),
    ensures
        ({
            let t = schema_walker::map_walked::<Fixer>(h, s, j, key).0;
            uncovered(b, t.0, t.1)
        }),
    decreases h, 1nat, 0nat,
{
    if let Some(Json::Object(m)) = j.member(key) {
        members_uncovered(b, h, json::keys(m), 0, s, m, j.dropped(key));
    }
}

proof fn members_uncovered(
    b: Settings,
    h: nat,
    names: Seq<Text>,
    i: nat,
    s: (Settings, Option<Text>),
    m: Members,
    parent: Json,
)
    requires
        uncovered(b, s.0, s.1),
    ensures
        ({
            let t = schema_walker::members_walked::<Fixer>(h, names, i, s, m, parent).0;
            uncovered(b, t.0, t.1)
        }),
    decreases h, 0nat, names.len() - i,
{
    if i < names.len() {
        let name = names[i as int];
        match json::lookup(m, name) {
            Some(sub) => {
                if h > 0 {
                    let d = (h - 1) as nat;
                    walk_uncovered(b, d, s, sub, Some(parent));
                    let (s1, c1, p1) = schema_walker::walked::<Fixer>(d, s, sub, Some(parent));
                    members_uncovered(
                        b,
                        h,
                        names,
                        i + 1,
                        s1,
                        json::insert(json::remove(m, name), name, c1),
                        p1->0,
                    );
                }
            },
            None => {
                members_uncovered(b, h, names, i + 1, s, m, parent);
            },
        }
    }
}

proof fn array_uncovered(b: Settings, h: nat, s: (Settings, Option<Text>), j: Json, key: Text)
    requires
        uncovered(b, s.0, s.1),
    ensures
        ({
            let t = schema_walker::array_walked::<Fixer>(h, s, j, key).0;
            uncovered(b, t.0, t.1)
        }),
    decreases h, 1nat, 0nat,
{
    if let Some(Json::Array(a)) = j.member(key) {
        elements_uncovered(b, h, 0, s, a, j.dropped(key));
    }
}

proof fn elements_uncovered(
    b: Settings,
    h: nat,
    i: nat,
    s: (Settings, Option<Text>),
    a: Seq<Json>,
    parent: Json,
)
    requires
        uncovered(b, s.0, s.1),
    ensures
        ({
            let t = schema_walker::elements_walked::<Fixer>(h, i, s, a, parent).0;
            uncovered(b, t.0, t.1)
        }),
    decreases h, 0nat, a.len() - i,
{
    if i < a.len() && h > 0 {
        let d = (h - 1) as nat;
        walk_uncovered(b, d, s, a[i as int], Some(parent));
        let (s1, c1, p1) = schema_walker::walked::<Fixer>(d, s, a[i as int], Some(parent));
        elements_uncovered(b, h, i + 1, s1, a.update(i as int, c1), p1->0);
    }
}

/// The repair of a schema keeps the settings, and fails only for what they do not
/// cover.
pub broadcast proof fn schema_uncovered(j: Json, o: Settings)
    ensures
        uncovered(o, (#[trigger] fixup::schema_fixed(j, o)).1, fixup::schema_fixed(j, o).2),
{
    walk_uncovered(o, schema_walker::rank(j), (o, None), j, None);
}

// --- security and headers ------------------------------------------------------

broadcast proof fn scheme_uncovered(scheme: Json, o: Settings)
    ensures
        uncovered(
            o,
            (#[trigger] security::scheme_fixed(scheme, o)).1,
            security::scheme_fixed(scheme, o).2,
        ),
{
    broadcast use messages_uncovered;

    patchable_messages();
    other_messages();
}

broadcast proof fn header_uncovered(header: Json, o: Settings)
    ensures
        uncovered(
            o,
            (#[trigger] header::header_fixed(header, o)).1,
            header::header_fixed(header, o).2,
        ),
{
    broadcast use {messages_uncovered, schema_uncovered};

    patchable_messages();
    other_messages();
}

// --- request bodies ------------------------------------------------------------

broadcast proof fn contents_uncovered(
    types: Seq<Text>,
    i: nat,
    schema: Json,
    o: Settings,
    result: Json,
)
    ensures
        uncovered(
            o,
            (#[trigger] body::contents_from(types, i, schema, o, result)).1,
            body::contents_from(types, i, schema, o, result).2,
        ),
    decreases types.len() - i,
{
    broadcast use schema_uncovered;

    if i < types.len() {
        let (s1, o1, e1) = fixup::schema_fixed(schema, o);
        let r1 = match result.member("content"@) {
            Some(c) => result.with(
                "content"@,
                c.with(types[i as int], Json::single("schema"@, s1)),
            ),
            None => result,
        };
        contents_uncovered(types, i + 1, schema, o1, r1);
    }
}

/// A request body is built under the settings, and fails only for what they do not
/// cover.
pub broadcast proof fn body_uncovered(
    param: Json,
    op: Option<Json>,
    consumes: Seq<Text>,
    o: Settings,
    result: Json,
)
    ensures
        uncovered(
            o,
            (#[trigger] body::body_built(param, op, consumes, o, result)).1,
            body::body_built(param, op, consumes, o, result).2,
        ),
{
    broadcast use {contents_uncovered, schema_uncovered};

}

broadcast proof fn result_uncovered(
    op: Json,
    result: Json,
    singular: bool,
    index: Text,
    o: Settings,
)
    ensures
        uncovered(o, o, (#[trigger] body::result_attached(op, result, singular, index, o)).1),
{
    broadcast use messages_uncovered;

    patchable_messages();
    other_messages();
}

// --- parameters ----------------------------------------------------------------

broadcast proof fn param_ref_uncovered(param: Json, o: Settings)
    ensures
        uncovered(o, o, (#[trigger] parameter::param_ref_fixed(param, o)).1),
{
    broadcast use messages_uncovered;

    patchable_messages();
    other_messages();
}

broadcast proof fn format_uncovered(param: Json, o: Settings)
    ensures
        uncovered(
            o,
            (#[trigger] parameter::collection_format_converted(param, o)).1,
            parameter::collection_format_converted(param, o).2,
        ),
{
    broadcast use messages_uncovered;

    patchable_messages();
    other_messages();
}

broadcast proof fn type_uncovered(param: Json, o: Settings)
    ensures
        uncovered(
            o,
            (#[trigger] parameter::type_converted(param, o)).1,
            parameter::type_converted(param, o).2,
        ),
{
    broadcast use {messages_uncovered, format_uncovered, schema_uncovered};

    patchable_messages();
    other_messages();
}

broadcast proof fn type_supply_uncovered(param: Json, o: Settings)
    ensures
        uncovered(
            o,
            (#[trigger] parameter::type_supplied(param, o)).1,
            parameter::type_supplied(param, o).2,
        ),
{
    broadcast use {messages_uncovered, schema_uncovered};

    patchable_messages();
    other_messages();
}

broadcast proof fn param_schema_uncovered(param: Json, o: Settings)
    ensures
        uncovered(
            o,
            (#[trigger] parameter::param_schema_fixed(param, o)).1,
            parameter::param_schema_fixed(param, o).2,
        ),
{
    broadcast use {messages_uncovered, schema_uncovered};

    patchable_messages();
    other_messages();
}

broadcast proof fn param_type_uncovered(param: Json, o: Settings)
    ensures
        uncovered(
            o,
            (#[trigger] parameter::schema_converted(param, o)).1,
            parameter::schema_converted(param, o).2,
        ),
{
    broadcast use {
        messages_uncovered,
        type_uncovered,
        type_supply_uncovered,
        param_schema_uncovered,
    };

    patchable_messages();
    other_messages();
}

broadcast proof fn real_uncovered(param: Json, original: Option<Text>, openapi: Json, o: Settings)
    ensures
        uncovered(
            o,
            (#[trigger] parameter::real_processed(param, original, openapi, o)).2,
            parameter::real_processed(param, original, openapi, o).3,
        ),
{
    broadcast use {
        param_type_uncovered,
        param_ref_uncovered,
        format_uncovered,
        type_uncovered,
        type_supply_uncovered,
        param_schema_uncovered,
    };

}

broadcast proof fn consumes_uncovered(
    op: Option<Json>,
    openapi: Json,
    consumes: Seq<Text>,
    o: Settings,
)
    ensures
        uncovered(
            o,
            (#[trigger] parameter::consumes_wrapped(op, openapi, consumes, o)).2,
            parameter::consumes_wrapped(op, openapi, consumes, o).3,
        ),
{
    broadcast use messages_uncovered;

    patchable_messages();
    other_messages();
}

broadcast proof fn internal_ref_uncovered(param: Json, openapi: Json, o: Settings)
    ensures
        uncovered(o, o, (#[trigger] parameter::internal_ref_followed(param, openapi, o)).1),
{
    broadcast use messages_uncovered;

    patchable_messages();
    other_messages();
}

broadcast proof fn param_body_uncovered(
    param: Json,
    op: Option<Json>,
    consumes: Seq<Text>,
    original: Option<Text>,
    o: Settings,
)
    ensures
        uncovered(
            o,
            (#[trigger] parameter::param_body(param, op, consumes, original, o)).2,
            parameter::param_body(param, op, consumes, original, o).3,
        ),
{
    broadcast use body_uncovered;

}

broadcast proof fn param_attached_uncovered(
    param: Json,
    op: Option<Json>,
    result: Json,
    index: Text,
    o: Settings,
)
    ensures
        uncovered(o, o, (#[trigger] parameter::param_body_attached(param, op, result, index, o)).2),
{
    broadcast use result_uncovered;

}

broadcast proof fn param_tidy_uncovered(param: Json, index: Text, o: Settings)
    ensures
        uncovered(
            o,
            (#[trigger] parameter::param_tidied(param, index, o)).1,
            parameter::param_tidied(param, index, o).2,
        ),
{
    broadcast use messages_uncovered;

    patchable_messages();
    other_messages();
}

broadcast proof fn param_finish_uncovered(
    param: Json,
    op: Option<Json>,
    index: Text,
    consumes: Seq<Text>,
    original: Option<Text>,
    o: Settings,
)
    ensures
        uncovered(
            o,
            (#[trigger] parameter::param_finished(param, op, index, consumes, original, o)).2,
            parameter::param_finished(param, op, index, consumes, original, o).3,
        ),
{
    broadcast use {param_body_uncovered, param_attached_uncovered, param_tidy_uncovered};

}

/// The conversion of a parameter keeps the settings, and fails only for what they do
/// not cover.
pub broadcast proof fn param_uncovered(
    param: Json,
    op: Option<Json>,
    index: Text,
    openapi: Json,
    consumes: Seq<Text>,
    o: Settings,
)
    ensures
        uncovered(
            o,
            (#[trigger] parameter::param_processed(param, op, index, openapi, consumes, o)).2,
            parameter::param_processed(param, op, index, openapi, consumes, o).3,
        ),
{
    broadcast use {
        param_ref_uncovered,
        real_uncovered,
        consumes_uncovered,
        internal_ref_uncovered,
        param_finish_uncovered,
    };

    reveal(parameter::param_processed);
}

// --- responses -----------------------------------------------------------------

broadcast proof fn response_ref_uncovered(response: Json, r: Text, o: Settings)
    ensures
        uncovered(o, o, (#[trigger] response::response_ref_fixed(response, r, o)).1),
{
    broadcast use messages_uncovered;

    patchable_messages();
    other_messages();
}

broadcast proof fn content_uncovered(response: Json, op: Option<Json>, openapi: Json, o: Settings)
    ensures
        uncovered(
            o,
            (#[trigger] response::schema_to_content(response, op, openapi, o)).1,
            response::schema_to_content(response, op, openapi, o).2,
        ),
{
    broadcast use {messages_uncovered, contents_uncovered, schema_uncovered};

    patchable_messages();
    other_messages();
}

broadcast proof fn headers_uncovered(response: Json, names: Seq<Text>, i: nat, o: Settings)
    ensures
        uncovered(
            o,
            (#[trigger] response::headers_from(response, names, i, o)).1,
            response::headers_from(response, names, i, o).2,
        ),
    decreases names.len() - i,
{
    broadcast use {messages_uncovered, header_uncovered};

    patchable_messages();
    other_messages();
    if i < names.len() {
        let h = names[i as int];
        if text::lowercase(h) == "status code"@ {
            let r1 = match response.member("headers"@) {
                Some(hs) => response.with("headers"@, hs.dropped(h)),
                None => response,
            };
            headers_uncovered(r1, names, i + 1, o.patched());
        } else {
            match response.member2("headers"@, h) {
                Some(x) => {
                    let (x1, o1, e1) = header::header_fixed(x, o);
                    let r1 = response.with(
                        "headers"@,
                        response.member("headers"@)->0.with(h, x1),
                    );
                    headers_uncovered(r1, names, i + 1, o1);
                },
                None => {
                    headers_uncovered(response, names, i + 1, o);
                },
            }
        }
    }
}

/// The conversion of a response keeps the settings, and fails only for what they do
/// not cover.
pub broadcast proof fn response_uncovered(response: Json, op: Option<Json>, openapi: Json, o: Settings)
    ensures
        uncovered(
            o,
            (#[trigger] response::response_processed(response, op, openapi, o)).1,
            response::response_processed(response, op, openapi, o).2,
        ),
{
    broadcast use {
        messages_uncovered,
        response_ref_uncovered,
        content_uncovered,
        headers_uncovered,
    };

    reveal(response::response_processed);
    patchable_messages();
    other_messages();
}

// --- operations ----------------------------------------------------------------

broadcast proof fn path_param_ref_uncovered(param: Json, openapi: Json, o: Settings)
    ensures
        uncovered(o, o, (#[trigger] operation::path_param_resolved(param, openapi, o)).1),
{
    broadcast use {messages_uncovered, internal_ref_uncovered};

    patchable_messages();
    other_messages();
}

broadcast proof fn body_param_uncovered(
    path: Json,
    param: Json,
    p: Text,
    method: Text,
    openapi: Json,
    o: Settings,
)
    ensures
        uncovered(
            o,
            (#[trigger] operation::body_param_merged(path, param, p, method, openapi, o)).1,
            operation::body_param_merged(path, param, p, method, openapi, o).2,
        ),
{
    broadcast use param_uncovered;

}

broadcast proof fn path_param_uncovered(
    path: Json,
    raw: Json,
    p: Text,
    method: Text,
    openapi: Json,
    o: Settings,
)
    ensures
        uncovered(
            o,
            (#[trigger] operation::path_param_merged(path, raw, p, method, openapi, o)).1,
            operation::path_param_merged(path, raw, p, method, openapi, o).2,
        ),
{
    broadcast use {path_param_ref_uncovered, body_param_uncovered};

}

broadcast proof fn path_params_uncovered(
    path: Json,
    params: Seq<Json>,
    i: nat,
    p: Text,
    method: Text,
    openapi: Json,
    o: Settings,
)
    ensures
        uncovered(
            o,
            (#[trigger] operation::path_params_merged(path, params, i, p, method, openapi, o)).1,
            operation::path_params_merged(path, params, i, p, method, openapi, o).2,
        ),
    decreases params.len() - i,
{
    broadcast use path_param_uncovered;

    if i < params.len() {
        let (path1, o1, e1) = operation::path_param_merged(
            path,
            params[i as int],
            p,
            method,
            openapi,
            o,
        );
        path_params_uncovered(path1, params, i + 1, p, method, openapi, o1);
    }
}

broadcast proof fn op_param_uncovered(
    path: Json,
    i: nat,
    index: Text,
    method: Text,
    openapi: Json,
    o: Settings,
)
    ensures
        uncovered(
            o,
            (#[trigger] operation::op_param_processed(path, i, index, method, openapi, o)).1,
            operation::op_param_processed(path, i, index, method, openapi, o).2,
        ),
{
    broadcast use param_uncovered;

}

broadcast proof fn op_params_uncovered(
    path: Json,
    i: nat,
    n: nat,
    index: Text,
    method: Text,
    openapi: Json,
    o: Settings,
)
    ensures
        uncovered(
            o,
            (#[trigger] operation::op_params_processed(path, i, n, index, method, openapi, o)).1,
            operation::op_params_processed(path, i, n, index, method, openapi, o).2,
        ),
    decreases n - i,
{
    broadcast use op_param_uncovered;

    if i < n {
        let (path1, o1, e1) = operation::op_param_processed(path, i, index, method, openapi, o);
        op_params_uncovered(path1, i + 1, n, index, method, openapi, o1);
    }
}

broadcast proof fn responses_uncovered(
    op: Json,
    names: Seq<Text>,
    i: nat,
    openapi: Json,
    o: Settings,
)
    ensures
        uncovered(
            o,
            (#[trigger] operation::responses_from(op, names, i, openapi, o)).1,
            operation::responses_from(op, names, i, openapi, o).2,
        ),
    decreases names.len() - i,
{
    broadcast use {messages_uncovered, response_uncovered};

    patchable_messages();
    other_messages();
    if i < names.len() {
        let r = names[i as int];
        match op.member2("responses"@, r) {
            Some(response) => {
                let (x1, o1, e1) = response::response_processed(response, Some(op), openapi, o);
                let op1 = op.with("responses"@, op.member("responses"@)->0.with(r, x1));
                responses_uncovered(op1, names, i + 1, openapi, o1);
            },
            None => {
                responses_uncovered(op, names, i + 1, openapi, o);
            },
        }
    }
}

broadcast proof fn op_responses_uncovered(path: Json, method: Text, openapi: Json, o: Settings)
    ensures
        uncovered(
            o,
            (#[trigger] operation::op_responses_processed(path, method, openapi, o)).1,
            operation::op_responses_processed(path, method, openapi, o).2,
        ),
{
    broadcast use responses_uncovered;

}

broadcast proof fn operation_uncovered(
    path: Json,
    p: Text,
    method: Text,
    container: Text,
    openapi: Json,
    c: Seq<Cached>,
    o: Settings,
)
    ensures
        uncovered(
            o,
            (#[trigger] operation::op_processed(path, p, method, container, openapi, c, o)).3,
            operation::op_processed(path, p, method, container, openapi, c, o).4,
        ),
{
    broadcast use {path_params_uncovered, op_params_uncovered, op_responses_uncovered};

}

// --- paths ---------------------------------------------------------------------

broadcast proof fn methods_uncovered(
    path: Json,
    names: Seq<Text>,
    i: nat,
    p: Text,
    container: Text,
    openapi: Json,
    c: Seq<Cached>,
    o: Settings,
)
    ensures
        uncovered(
            o,
            (#[trigger] paths::methods_from(path, names, i, p, container, openapi, c, o)).3,
            paths::methods_from(path, names, i, p, container, openapi, c, o).4,
        ),
    decreases names.len() - i,
{
    broadcast use operation_uncovered;

    if i < names.len() {
        if paths::is_method(names[i as int]) {
            let (path1, d1, c1, o1, e1) = operation::op_processed(
                path,
                p,
                names[i as int],
                container,
                openapi,
                c,
                o,
            );
            methods_uncovered(path1, names, i + 1, p, container, d1, c1, o1);
        } else {
            methods_uncovered(path, names, i + 1, p, container, openapi, c, o);
        }
    }
}

broadcast proof fn shared_params_uncovered(
    path: Json,
    i: nat,
    n: nat,
    p: Text,
    openapi: Json,
    o: Settings,
)
    ensures
        uncovered(
            o,
            (#[trigger] paths::path_params_from(path, i, n, p, openapi, o)).1,
            paths::path_params_from(path, i, n, p, openapi, o).2,
        ),
    decreases n - i,
{
    broadcast use param_uncovered;

    if i < n {
        match path.member("parameters"@) {
            Some(Json::Array(a)) => {
                if i < a.len() {
                    let (param1, _, o1, e1) = parameter::param_processed(
                        a[i as int],
                        None,
                        p,
                        openapi,
                        body::media_types(None, openapi, "consumes"@),
                        o,
                    );
                    let path1 = path.with("parameters"@, Json::Array(a.update(i as int, param1)));
                    shared_params_uncovered(path1, i + 1, n, p, openapi, o1);
                } else {
                    shared_params_uncovered(path, i + 1, n, p, openapi, o);
                }
            },
            _ => {
                shared_params_uncovered(path, i + 1, n, p, openapi, o);
            },
        }
    }
}

broadcast proof fn path_uncovered(
    path: Json,
    p: Text,
    container: Text,
    openapi: Json,
    c: Seq<Cached>,
    o: Settings,
)
    ensures
        uncovered(
            o,
            (#[trigger] paths::path_processed(path, p, container, openapi, c, o)).3,
            paths::path_processed(path, p, container, openapi, c, o).4,
        ),
{
    broadcast use {methods_uncovered, shared_params_uncovered};

}

broadcast proof fn paths_uncovered(
    paths: Json,
    names: Seq<Text>,
    i: nat,
    container: Text,
    openapi: Json,
    c: Seq<Cached>,
    o: Settings,
)
    ensures
        uncovered(
            o,
            (#[trigger] paths::paths_from(paths, names, i, container, openapi, c, o)).3,
            paths::paths_from(paths, names, i, container, openapi, c, o).4,
        ),
    decreases names.len() - i,
{
    broadcast use path_uncovered;

    if i < names.len() {
        let p = names[i as int];
        match paths.member(p) {
            Some(path) => {
                let (path1, d1, c1, o1, e1) = paths::path_processed(
                    path,
                    p,
                    container,
                    openapi,
                    c,
                    o,
                );
                paths_uncovered(paths.with(p, path1), names, i + 1, container, d1, c1, o1);
            },
            None => {
                paths_uncovered(paths, names, i + 1, container, openapi, c, o);
            },
        }
    }
}

// --- components ----------------------------------------------------------------

broadcast proof fn renaming_uncovered(
    openapi: Json,
    bucket: Text,
    from: Text,
    to: Text,
    label: Text,
    o: Settings,
)
    requires
        is_plain(label),
    ensures
        uncovered(
            o,
            o,
            (#[trigger] components::component_renamed(openapi, bucket, from, to, label, o)).2,
        ),
{
    broadcast use messages_uncovered;

    patchable_messages();
    other_messages();
}

broadcast proof fn schemes_uncovered(openapi: Json, names: Seq<Text>, i: nat, o: Settings)
    ensures
        uncovered(
            o,
            (#[trigger] components::schemes_from(openapi, names, i, o)).1,
            components::schemes_from(openapi, names, i, o).2,
        ),
    decreases names.len() - i,
{
    broadcast use {messages_uncovered, renaming_uncovered, scheme_uncovered};

    patchable_messages();
    other_messages();
    if i < names.len() {
        let (d1, name, e1) = components::component_renamed(
            openapi,
            "securitySchemes"@,
            names[i as int],
            common::sanitised(names[i as int]),
            "Duplicate sanitised securityScheme name "@,
            o,
        );
        let at = components::component_path("securitySchemes"@, name);
        match json::value_at(d1, at, 0) {
            Some(v) => {
                let (v2, o2, e2) = security::scheme_fixed(v, o);
                schemes_uncovered(json::with_at(d1, at, 0, v2), names, i + 1, o2);
            },
            None => {
                schemes_uncovered(d1, names, i + 1, o);
            },
        }
    }
}

broadcast proof fn schemas_uncovered(
    openapi: Json,
    names: Seq<Text>,
    i: nat,
    renamed: Members,
    o: Settings,
)
    ensures
        uncovered(
            o,
            (#[trigger] components::schemas_from(openapi, names, i, renamed, o)).2,
            components::schemas_from(openapi, names, i, renamed, o).3,
        ),
    decreases names.len() - i,
{
    broadcast use schema_uncovered;

    if i < names.len() {
        let s = names[i as int];
        let name = components::schema_final_name(openapi, s);
        let d1 = components::schema_renamed(openapi, s, name);
        let renamed1 = json::insert(renamed, s, Json::String(name));
        let at = components::component_path("schemas"@, name);
        match json::value_at(d1, at, 0) {
            Some(schema) => {
                let (s2, o2, e2) = fixup::schema_fixed(schema, o);
                schemas_uncovered(json::with_at(d1, at, 0, s2), names, i + 1, renamed1, o2);
            },
            None => {
                schemas_uncovered(d1, names, i + 1, renamed1, o);
            },
        }
    }
}

broadcast proof fn params_uncovered(openapi: Json, names: Seq<Text>, i: nat, o: Settings)
    ensures
        uncovered(
            o,
            (#[trigger] components::params_from(openapi, names, i, o)).1,
            components::params_from(openapi, names, i, o).2,
        ),
    decreases names.len() - i,
{
    broadcast use {messages_uncovered, renaming_uncovered, param_uncovered};

    patchable_messages();
    other_messages();
    if i < names.len() {
        let (d1, name, e1) = components::component_renamed(
            openapi,
            "parameters"@,
            names[i as int],
            common::sanitised(names[i as int]),
            "Duplicate sanitised parameter name "@,
            o,
        );
        let at = components::component_path("parameters"@, name);
        match json::value_at(d1, at, 0) {
            Some(v) => {
                let (v2, _, o2, e2) = parameter::param_processed(
                    v,
                    None,
                    name,
                    d1,
                    body::media_types(None, d1, "consumes"@),
                    o,
                );
                params_uncovered(json::with_at(d1, at, 0, v2), names, i + 1, o2);
            },
            None => {
                params_uncovered(d1, names, i + 1, o);
            },
        }
    }
}

broadcast proof fn component_response_uncovered(response: Json, openapi: Json, o: Settings)
    ensures
        uncovered(
            o,
            (#[trigger] components::component_response_processed(response, openapi, o)).1,
            components::component_response_processed(response, openapi, o).2,
        ),
{
    broadcast use {response_uncovered, headers_uncovered};

}

broadcast proof fn component_responses_uncovered(
    openapi: Json,
    names: Seq<Text>,
    i: nat,
    o: Settings,
)
    ensures
        uncovered(
            o,
            (#[trigger] components::responses_from(openapi, names, i, o)).1,
            components::responses_from(openapi, names, i, o).2,
        ),
    decreases names.len() - i,
{
    broadcast use {messages_uncovered, renaming_uncovered, component_response_uncovered};

    patchable_messages();
    other_messages();
    if i < names.len() {
        let (d1, name, e1) = components::component_renamed(
            openapi,
            "responses"@,
            names[i as int],
            common::sanitised(names[i as int]),
            "Duplicate sanitised response name "@,
            o,
        );
        let at = components::component_path("responses"@, name);
        match json::value_at(d1, at, 0) {
            Some(v) => {
                let (v2, o2, e2) = components::component_response_processed(v, d1, o);
                component_responses_uncovered(json::with_at(d1, at, 0, v2), names, i + 1, o2);
            },
            None => {
                component_responses_uncovered(d1, names, i + 1, o);
            },
        }
    }
}

// --- references ----------------------------------------------------------------

broadcast proof fn odata_uncovered(container: Json, v: Text, names: Members, o: Settings)
    ensures
        uncovered(o, o, (#[trigger] refs::odata_rewritten(container, v, names, o)).1),
{
    broadcast use messages_uncovered;

    patchable_messages();
    other_messages();
}

broadcast proof fn relocation_uncovered(
    openapi: Json,
    container: Json,
    r: Text,
    refmap: Members,
    o: Settings,
)
    ensures
        uncovered(
            o,
            (#[trigger] refs::ref_relocated(openapi, container, r, refmap, o)).3,
            refs::ref_relocated(openapi, container, r, refmap, o).4,
        ),
{
    broadcast use {messages_uncovered, schema_uncovered};

    patchable_messages();
    other_messages();
}

broadcast proof fn definition_uncovered(
    container: Json,
    r: Text,
    rest: Text,
    names: Members,
    o: Settings,
)
    ensures
        uncovered(
            o,
            o,
            (#[trigger] refs::definition_ref_rewritten(container, r, rest, names, o)).1,
        ),
{
    broadcast use messages_uncovered;

    patchable_messages();
    other_messages();
}

broadcast proof fn ref_uncovered(
    openapi: Json,
    container: Json,
    r: Text,
    names: Members,
    refmap: Members,
    o: Settings,
)
    ensures
        uncovered(
            o,
            (#[trigger] refs::ref_rewritten(openapi, container, r, names, refmap, o)).3,
            refs::ref_rewritten(openapi, container, r, names, refmap, o).4,
        ),
{
    broadcast use {relocation_uncovered, definition_uncovered};

}

broadcast proof fn site_uncovered(
    openapi: Json,
    site: (Text, bool),
    names: Members,
    refmap: Members,
    o: Settings,
)
    ensures
        uncovered(
            o,
            (#[trigger] refs::site_rewritten(openapi, site, names, refmap, o)).2,
            refs::site_rewritten(openapi, site, names, refmap, o).3,
        ),
{
    broadcast use {odata_uncovered, ref_uncovered};

}

broadcast proof fn sites_uncovered(
    openapi: Json,
    all: Seq<(Text, bool)>,
    i: nat,
    names: Members,
    refmap: Members,
    o: Settings,
)
    ensures
        uncovered(
            o,
            (#[trigger] refs::sites_rewritten(openapi, all, i, names, refmap, o)).2,
            refs::sites_rewritten(openapi, all, i, names, refmap, o).3,
        ),
    decreases all.len() - i,
{
    broadcast use site_uncovered;

    if i < all.len() {
        let (d1, m1, o1, e1) = refs::site_rewritten(openapi, all[i as int], names, refmap, o);
        sites_uncovered(d1, all, i + 1, names, m1, o1);
    }
}

// --- documents -----------------------------------------------------------------

broadcast proof fn info_supply_uncovered(openapi: Json, o: Settings)
    ensures
        uncovered(
            o,
            (#[trigger] info::info_supplied(openapi, o)).1,
            info::info_supplied(openapi, o).2,
        ),
{
    broadcast use messages_uncovered;

    patchable_messages();
    other_messages();
}

broadcast proof fn info_member_uncovered(openapi: Json, key: Text, problem: Text, o: Settings)
    requires
        patchable(problem),
    ensures
        uncovered(
            o,
            (#[trigger] info::info_member_supplied(openapi, key, problem, o)).1,
            info::info_member_supplied(openapi, key, problem, o).2,
        ),
{
}

broadcast proof fn version_uncovered(openapi: Json, o: Settings)
    ensures
        uncovered(
            o,
            (#[trigger] info::version_made_string(openapi, o)).1,
            info::version_made_string(openapi, o).2,
        ),
{
    broadcast use messages_uncovered;

    patchable_messages();
    other_messages();
}

broadcast proof fn logo_uncovered(openapi: Json, o: Settings)
    ensures
        uncovered(o, (#[trigger] info::logo_moved(openapi, o)).1, info::logo_moved(openapi, o).2),
{
    broadcast use messages_uncovered;

    patchable_messages();
    other_messages();
}

broadcast proof fn terms_uncovered(openapi: Json, o: Settings)
    ensures
        uncovered(
            o,
            (#[trigger] info::terms_fixed(openapi, o)).1,
            info::terms_fixed(openapi, o).2,
        ),
{
    broadcast use messages_uncovered;

    patchable_messages();
    other_messages();
}

broadcast proof fn info_uncovered(openapi: Json, o: Settings)
    ensures
        uncovered(o, (#[trigger] info::info_fixed(openapi, o)).1, info::info_fixed(openapi, o).2),
{
    broadcast use {
        info_supply_uncovered,
        info_member_uncovered,
        version_uncovered,
        logo_uncovered,
        terms_uncovered,
    };

    patchable_messages();
}

broadcast proof fn essentials_uncovered(openapi: Json, o: Settings)
    ensures
        uncovered(
            o,
            (#[trigger] skeleton::essentials_fixed(openapi, o)).1,
            skeleton::essentials_fixed(openapi, o).2,
        ),
{
    broadcast use {messages_uncovered, info_uncovered};

    reveal(skeleton::essentials_fixed);
    patchable_messages();
    other_messages();
}

broadcast proof fn skeleton_uncovered(swagger: Json, o: Settings)
    ensures
        uncovered(
            o,
            (#[trigger] skeleton::skeleton(swagger, o)).1,
            skeleton::skeleton(swagger, o).2,
        ),
{
    broadcast use essentials_uncovered;

    reveal(skeleton::skeleton);
}

broadcast proof fn components_uncovered(openapi: Json, o: Settings)
    ensures
        uncovered(
            o,
            (#[trigger] main_pass::components_processed(openapi, o)).1,
            main_pass::components_processed(openapi, o).2,
        ),
{
    broadcast use {
        schemes_uncovered,
        schemas_uncovered,
        sites_uncovered,
        params_uncovered,
        component_responses_uncovered,
    };

}

broadcast proof fn containers_uncovered(openapi: Json, c: Seq<Cached>, o: Settings)
    ensures
        uncovered(
            o,
            (#[trigger] main_pass::all_paths_processed(openapi, c, o)).2,
            main_pass::all_paths_processed(openapi, c, o).3,
        ),
{
    broadcast use paths_uncovered;

}

broadcast proof fn core_uncovered(openapi: Json, o: Settings)
    ensures
        uncovered(
            o,
            (#[trigger] main_pass::main_converted(openapi, o)).1,
            main_pass::main_converted(openapi, o).2,
        ),
{
    broadcast use {components_uncovered, containers_uncovered};

    reveal(main_pass::main_converted);
}

/// The rest of a conversion fails only for a problem that the settings do not cover.
proof fn rest_uncovered(stage: Stage, o: Settings)
    ensures
        uncovered(o, convert::completed(stage, o).0, convert::completed(stage, o).1),
{
    core_uncovered(o.openapi, o.with_openapi(Json::Null));
}

/// Whether a document cannot be converted at all: it has anchors that are not
/// allowed, it is of another version, or it is to be resolved without a source.
pub open spec fn refused(swagger: Json, o: Settings) -> bool {
    let doc = convert::given_document(swagger);
    ||| o.had_anchors && !o.anchors
    ||| !convert::is_openapi_three(doc) && !skeleton::swagger_two(doc.member("swagger"@))
    ||| o.resolve && o.source is None
}

/// A conversion that is not refused fails only for a problem that the settings do
/// not cover, and a refusal is not patchable.
proof fn conversion_uncovered(swagger: Json, o: Settings)
    ensures
        match convert::converted(swagger, o).1 {
            Outcome::Failed(m) => {
                &&& refused(swagger, o) || uncovered(o, o, Some(m))
                &&& patchable(m) ==> !o.patch
            },
            _ => !refused(swagger, o),
        },
{
    broadcast use {messages_uncovered, essentials_uncovered, skeleton_uncovered};

    other_messages();
    plain_is_other("YAML anchor or merge key"@);
    plain_is_other(
        "Unsupported swagger/OpenAPI version: "@ + convert::reported_version(
            convert::given_document(swagger),
        ),
    );
    plain_is_other("resolve requires options.source"@);
    let (o1, r1) = convert::begun(swagger, o);
    if let Ok(stage) = r1 {
        rest_uncovered(stage, o1);
    }
}

/// With `patch` no conversion fails for a patchable problem, neither as a whole nor
/// from where external references have been resolved.
pub proof fn patch_covers_patchable_problems(swagger: Json, stage: Stage, o: Settings)
    requires
        o.patch,
    ensures
        convert::converted(swagger, o).1 matches Outcome::Failed(m) ==> !patchable(m),
        convert::completed(stage, o).1 matches Some(m) ==> !patchable(m),
{
    conversion_uncovered(swagger, o);
    rest_uncovered(stage, o);
}

/// With `warn_only` a conversion that is not refused fails for a patchable problem
/// alone, as a whole and from where external references have been resolved.
pub proof fn warnings_cover_other_problems(swagger: Json, stage: Stage, o: Settings)
    requires
        o.warn_only,
    ensures
        convert::converted(swagger, o).1 matches Outcome::Failed(m) ==> patchable(m) || refused(
            swagger,
            o,
        ),
        convert::completed(stage, o).1 matches Some(m) ==> patchable(m),
{
    conversion_uncovered(swagger, o);
    rest_uncovered(stage, o);
}

/// With `patch` and `warn_only` both, a conversion fails exactly when it is refused,
/// and what follows the resolution of external references never fails.
pub proof fn both_cover_all_problems(swagger: Json, stage: Stage, o: Settings)
    requires
        o.patch,
        o.warn_only,
    ensures
        convert::converted(swagger, o).1 is Failed <==> refused(swagger, o),
        convert::completed(stage, o).1 is None,
{
    conversion_uncovered(swagger, o);
    rest_uncovered(stage, o);
}

} // verus!
