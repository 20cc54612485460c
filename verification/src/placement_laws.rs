//! Laws of references, of examples, of path-level parameters and of nulls.

use vstd::prelude::*;

use crate::common;
use crate::convert::examples;
use crate::convert::operation;
use crate::convert::refs;
use crate::convert::skeleton::NullStripper;
use crate::jptr;
use crate::json::{self, Json, Members, Text};
use crate::laws;
use crate::name_laws;
use crate::operation_laws::keys_are_apart;
use crate::options::Settings;
use crate::path_laws;
use crate::recurse::{self, Visitor};
use crate::reference_laws::new_name_of;
use crate::resolver;
use crate::serial::Yaml;
use crate::server_laws::{found_stands, nothing_to_replace};
use crate::text;
use crate::yaml;

verus! {

/// The words that these laws speak of differ.
proof fn example_words()
    ensures
        "in"@.len() == 2,
        "name"@.len() == 4 && "name"@[0] == 'n',
        "$ref"@.len() == 4 && "$ref"@[0] == '$',
        "body"@.len() == 4 && "body"@[0] == 'b',
        "type"@.len() == 4 && "type"@[0] == 't',
        "file"@.len() == 4 && "file"@[0] == 'f',
        "value"@.len() == 5,
        "example"@.len() == 7 && "example"@[0] == 'e',
        "schemes"@.len() == 7 && "schemes"@[0] == 's',
        "examples"@.len() == 8 && "examples"@[0] == 'e',
        "consumes"@.len() == 8 && "consumes"@[0] == 'c',
        "produces"@.len() == 8 && "produces"@[0] == 'p',
        "formData"@.len() == 8 && "formData"@[0] == 'f',
        "components"@.len() == 10 && "components"@[0] == 'c',
        "parameters"@.len() == 10 && "parameters"@[0] == 'p',
        "x-s2o-consumes"@.len() == 14 && "x-s2o-consumes"@[6] == 'c',
        "x-s2o-produces"@.len() == 14 && "x-s2o-produces"@[6] == 'p',
{
    reveal_strlit("in");
    reveal_strlit("name");
    reveal_strlit("$ref");
    reveal_strlit("body");
    reveal_strlit("type");
    reveal_strlit("file");
    reveal_strlit("value");
    reveal_strlit("example");
    reveal_strlit("schemes");
    reveal_strlit("examples");
    reveal_strlit("consumes");
    reveal_strlit("produces");
    reveal_strlit("formData");
    reveal_strlit("components");
    reveal_strlit("parameters");
    reveal_strlit("x-s2o-consumes");
    reveal_strlit("x-s2o-produces");
}

// --- files and fragments ---------------------------------------------------

/// Whether a text has no `#`.
pub open spec fn is_file(s: Text) -> bool {
    forall|k: int| 0 <= k < s.len() ==> #[trigger] s[k] != '#'
}

proof fn file_and_fragment(file: Text, fragment: Text)
    requires
        is_file(file),
    ensures
        resolver::fragment_split(file) == (file, Seq::<char>::empty()),
        !text::occurs(file, "#"@),
        resolver::fragment_split(file + "#"@ + fragment) == (file, fragment),
        text::occurs(file + "#"@ + fragment, "#"@),
{
    reveal_strlit("#");
    name_laws::search_misses(file, "#"@, 0);
    let r = file + "#"@ + fragment;
    let n = file.len() as int;
    assert(r.subrange(n, n + 1) =~= "#"@);
    name_laws::search_finds_first(r, "#"@, 0, n);
    let f = text::find_from(r, "#"@, 0)->0;
    if f < n {
        assert(r.subrange(f, f + 1)[0] == r[f]);
        assert(r[f] == file[f]);
    }
    assert(r.take(n) =~= file);
    assert(r.skip(n + 1) =~= fragment);
}

/// A reference follows its file: the name of the file becomes the new one, and the
/// fragment stays. The reference to a file that did not move stays.
pub proof fn reference_follows_file(moved: Members, file: Text, fragment: Text)
    requires
        is_file(file),
    ensures
        json::lookup(moved, file) matches Some(Json::String(name)) ==> resolver::moved_ref(
            moved,
            file,
        ) == name && resolver::moved_ref(moved, file + "#"@ + fragment) == name + "#"@ + fragment,
        !(json::lookup(moved, file) matches Some(Json::String(_))) ==> resolver::moved_ref(
            moved,
            file,
        ) == file && resolver::moved_ref(moved, file + "#"@ + fragment) == file + "#"@ + fragment,
{
    file_and_fragment(file, fragment);
}

/// A reference to a file selects the whole of it, and one with a fragment what the
/// fragment reads, or an empty object.
pub proof fn reference_selects(context: Json, file: Text, fragment: Text)
    requires
        is_file(file),
        fragment.len() > 0,
    ensures
        resolver::selected(context, file) == context,
        resolver::selected(context, file + "#"@) == context,
        jptr::read(context, "#"@ + fragment) matches Some(v) ==> resolver::selected(
            context,
            file + "#"@ + fragment,
        ) == v,
        jptr::read(context, "#"@ + fragment) is None ==> resolver::selected(
            context,
            file + "#"@ + fragment,
        ) == Json::empty(),
{
    file_and_fragment(file, fragment);
    file_and_fragment(file, Seq::empty());
    assert(file + "#"@ + Seq::<char>::empty() =~= file + "#"@);
}

// --- names of schemas in pointers ------------------------------------------

/// An `x-ms-odata` pointer to a definition follows it to the schema that it became.
pub proof fn odata_follows_schema(
    container: Json,
    seg: Text,
    names: Members,
    o: Settings,
)
    requires
        forall|k: int| 0 <= k < seg.len() ==> #[trigger] seg[k] != '/' && seg[k] != '#',
        new_name_of(names, common::uri_decoded(seg)) is Some,
    ensures
        ({
            let name = new_name_of(names, common::uri_decoded(seg))->0;
            let (c, e) = refs::odata_rewritten(container, "#/definitions/"@ + seg, names, o);
            &&& e is None
            &&& c.member("x-ms-odata"@) == Some(Json::String("#/components/schemas/"@ + name))
            &&& forall|key: Text|
                key != "x-ms-odata"@ ==> #[trigger] c.member(key) == container.member(key)
        }),
{
    broadcast use laws::group_members;

    reveal_strlit("#/definitions/");
    reveal_strlit("#/components/schemas/");
    reveal_strlit("");
    path_laws::replace_first(seg, "#/definitions/"@, ""@);
    no_hash_no_replacement(seg, "#/definitions/"@, ""@);
    no_hash_no_replacement(seg, "#/components/schemas/"@, ""@);
    assert(""@ + seg =~= seg);
    path_laws::no_separator(seg, '/', 0, 0, seg.len() as int);
    assert(seg.subrange(0, seg.len() as int) =~= seg);
    assert(text::pieces(seg, '/') == seq![seg]);
    let name = new_name_of(names, common::uri_decoded(seg))->0;
    assert(seq![seg].update(0, name) =~= seq![name]);
    assert(text::joined(seq![name], "/"@) == name);
}

proof fn no_hash_no_replacement(s: Text, pat: Text, to: Text)
    requires
        pat.len() > 0 && pat[0] == '#',
        forall|k: int| 0 <= k < s.len() ==> #[trigger] s[k] != '#',
    ensures
        text::replaced(s, pat, to) == s,
{
    assert forall|k: int| 0 <= k < s.len() implies !(#[trigger] text::stands_at(s, pat, k)) by {
        if k + pat.len() <= s.len() {
            assert(s.subrange(k, k + pat.len())[0] == s[k]);
        }
    }
    nothing_to_replace(s, pat, to, 0);
    assert(s.skip(0) =~= s);
}

// --- examples --------------------------------------------------------------

/// Whether a parameter has a name, itself or at the target of its reference.
pub open spec fn has_name(param: Json, name: Text, openapi: Json) -> bool {
    match param.member("$ref"@) {
        Some(Json::String(r)) => jptr::read(openapi, r) matches Some(t) && t.member("name"@) == Some(
            Json::String(name),
        ),
        _ => param.member("name"@) == Some(Json::String(name)),
    }
}

/// The examples of a value, under their names.
pub open spec fn example_of(j: Json, name: Text) -> Option<Json> {
    j.member2("examples"@, name)
}

/// An example value goes to each parameter of its name that has no example of its own,
/// under the name of the example. The other parameters stay, and so does all else.
pub proof fn example_goes_to_parameters(
    a: Seq<Json>,
    k: int,
    pname: Text,
    example: Text,
    v: Json,
    openapi: Json,
)
    requires
        0 <= k < a.len(),
    ensures
        ({
            let r = examples::params_example_set(Json::Array(a), pname, example, v, openapi);
            let x = r.elements()[k];
            &&& r.elements().len() == a.len()
            &&& !has_name(a[k], pname, openapi) || a[k].has("example"@) ==> x == a[k]
            &&& has_name(a[k], pname, openapi) && !a[k].has("example"@) ==> {
                &&& example_of(x, example) == Some(Json::single("value"@, v))
                &&& forall|name: Text|
                    name != example ==> #[trigger] example_of(x, name) == example_of(a[k], name)
                &&& forall|key: Text|
                    key != "examples"@ ==> #[trigger] x.member(key) == a[k].member(key)
            }
        }),
{
    broadcast use laws::group_members;

    example_words();
    assert(examples::param_named(a[k], pname, openapi) == has_name(a[k], pname, openapi));
}

/// The body of an example response goes among the examples of the document, with its
/// value, and all that the document has there stays.
pub proof fn example_body_is_shared(
    op: Json,
    name: Text,
    se: Text,
    r: Text,
    resp: Json,
    openapi: Json,
)
    requires
        resp.has("body"@),
    ensures
        ({
            let d = examples::body_example(op, name, se, r, resp, openapi).1;
            let before = json::member_of(openapi.member2("components"@, "examples"@), se);
            &&& json::member_of(
                json::member_of(d.member2("components"@, "examples"@), se),
                "value"@,
            ) == resp.member("body"@)
            &&& forall|key: Text|
                key != se ==> #[trigger] json::member_of(
                    d.member2("components"@, "examples"@),
                    key,
                ) == json::member_of(openapi.member2("components"@, "examples"@), key)
            &&& forall|key: Text|
                key != "components"@ ==> #[trigger] d.member(key) == openapi.member(key)
        }),
{
    broadcast use laws::group_members;

    example_words();
}

/// The content of a response of an operation.
pub open spec fn content_of(op: Json, r: Text, media: Text) -> Option<Json> {
    json::member_of(json::member_of(op.member2("responses"@, r), "content"@), media)
}

proof fn content_at(op: Json, r: Text, media: Text, v: Json)
    ensures
        json::value_at(op, seq!["responses"@, r, "content"@, media], 0) == content_of(op, r, media),
        content_of(op, r, media) is Some ==> {
            let x = json::with_at(op, seq!["responses"@, r, "content"@, media], 0, v);
            &&& content_of(x, r, media) == Some(v)
            &&& forall|m: Text|
                m != media ==> #[trigger] content_of(x, r, m) == content_of(op, r, m)
            &&& forall|q: Text|
                q != r ==> #[trigger] x.member2("responses"@, q) == op.member2("responses"@, q)
        },
{
    broadcast use laws::group_members;

    let at = seq!["responses"@, r, "content"@, media];
    assert(at.len() == 4 && at[0] == "responses"@ && at[1] == r && at[2] == "content"@ && at[3]
        == media);
    reveal_with_fuel(json::value_at, 5);
    reveal_with_fuel(json::with_at, 5);
}

proof fn contents_get_example(
    op: Json,
    r: Text,
    types: Seq<Text>,
    i: nat,
    name: Text,
    v: Json,
    media: Text,
)
    requires
        content_of(op, r, media) is Some,
    ensures
        ({
            let x = examples::content_examples_from(op, r, types, i, name, v);
            let listed = exists|k: int| i <= k < types.len() && #[trigger] types[k] == media;
            &&& content_of(x, r, media) is Some
            &&& example_of(content_of(x, r, media)->0, name) == (if listed {
                Some(v)
            } else {
                example_of(content_of(op, r, media)->0, name)
            })
            &&& forall|key: Text|
                key != "examples"@ ==> #[trigger] content_of(x, r, media)->0.member(key)
                    == content_of(op, r, media)->0.member(key)
        }),
    decreases types.len() - i,
{
    broadcast use laws::group_members;

    example_words();
    if i < types.len() {
        let t = types[i as int];
        let ct = content_of(op, r, t)->0;
        let ct1 = examples::example_set(ct, name, v);
        content_at(op, r, t, ct1);
        let op1 = match content_of(op, r, t) {
            Some(ct) => json::with_at(
                op,
                seq!["responses"@, r, "content"@, t],
                0,
                examples::example_set(ct, name, v),
            ),
            None => op,
        };
        if t != media && content_of(op, r, t) is Some {
            assert(content_of(op1, r, media) == content_of(op, r, media));
        }
        assert(example_of(ct1, name) == Some(v));
        contents_get_example(op1, r, types, i + 1, name, v, media);
        if exists|k: int| i <= k < types.len() && #[trigger] types[k] == media {
            let k = choose|k: int| i <= k < types.len() && #[trigger] types[k] == media;
            assert(k == i || i + 1 <= k);
        }
    }
}

/// Each media type of a response refers to the shared body of an example response, under
/// the name of the example. What else it says stays.
pub proof fn example_body_is_referred_to(
    op: Json,
    name: Text,
    se: Text,
    r: Text,
    resp: Json,
    openapi: Json,
    media: Text,
)
    requires
        resp.has("body"@),
        content_of(op, r, media) is Some,
    ensures
        ({
            let x = examples::body_example(op, name, se, r, resp, openapi).0;
            &&& content_of(x, r, media) is Some
            &&& json::member_of(example_of(content_of(x, r, media)->0, name), "$ref"@) == Some(
                Json::String("#/components/examples/"@ + se),
            )
            &&& forall|key: Text|
                key != "examples"@ ==> #[trigger] content_of(x, r, media)->0.member(key)
                    == content_of(op, r, media)->0.member(key)
        }),
{
    broadcast use laws::group_members;

    let at = seq!["responses"@, r, "content"@];
    let m = json::member_of(op.member2("responses"@, r), "content"@)->0.members();
    assert(at.len() == 3 && at[0] == "responses"@ && at[1] == r && at[2] == "content"@);
    reveal_with_fuel(json::value_at, 4);
    let types = json::keys(m);
    laws::index_found(m, media, 0);
    assert(types[json::index_of(m, media)] == media);
    let v = Json::single("$ref"@, Json::String("#/components/examples/"@ + se));
    contents_get_example(op, r, types, 0, name, v, media);
}

// --- path-level parameters -------------------------------------------------

/// Whether two parameters are of one name and one place.
pub open spec fn is_same_param(a: Json, b: Json) -> bool {
    a.text_member("name"@) == b.text_member("name"@) && a.text_member("in"@) == b.text_member(
        "in"@,
    )
}

proof fn listed_is_same(a: Seq<Json>, i: nat, param: Json)
    ensures
        operation::listed_from(a, i, param.text_member("name"@), param.text_member("in"@)) == (
        exists|k: int| i <= k < a.len() && is_same_param(#[trigger] a[k], param)),
    decreases a.len() - i,
{
    if i < a.len() {
        listed_is_same(a, i + 1, param);
        if exists|k: int| i <= k < a.len() && is_same_param(#[trigger] a[k], param) {
            let k = choose|k: int| i <= k < a.len() && is_same_param(#[trigger] a[k], param);
            assert(k == i || i + 1 <= k);
        }
    }
}

/// Whether an operation lists a parameter of the same name and place.
pub open spec fn lists_same(path: Json, method: Text, param: Json) -> bool {
    exists|k: int|
        0 <= k < path.member2(method, "parameters"@)->0.elements().len() && is_same_param(
            #[trigger] path.member2(method, "parameters"@)->0.elements()[k],
            param,
        )
}

/// A parameter of a path item concerns an operation only where it makes a request body
/// and the operation lists none of its name and place: the operation overrides it, and
/// any other stays with the path item.
pub proof fn operation_overrides_path_parameter(
    path: Json,
    param: Json,
    p: Text,
    method: Text,
    openapi: Json,
    o: Settings,
)
    requires
        !(param.member("$ref"@) matches Some(Json::String(_))),
        path.member2(method, "parameters"@) matches Some(Json::Array(_)),
        lists_same(path, method, param) || {
            &&& param.text_member("in"@) != Some("formData"@)
            &&& param.text_member("in"@) != Some("body"@)
            &&& param.text_member("type"@) != Some("file"@)
        },
    ensures
        operation::path_param_merged(path, param, p, method, openapi, o) == (
            path,
            o,
            None::<Text>,
        ),
{
    listed_is_same(path.member2(method, "parameters"@)->0.elements(), 0, param);
}

/// A form or body parameter of a path item is converted for an operation that lists none
/// of its name and place, as a parameter of that operation.
pub proof fn body_of_path_item_goes_to_operation(
    path: Json,
    param: Json,
    p: Text,
    method: Text,
    openapi: Json,
    o: Settings,
    op: Json,
)
    requires
        path.member(method) == Some(op),
        !(param.member("$ref"@) matches Some(Json::String(_))),
        op.member("parameters"@) matches Some(Json::Array(_)),
        !lists_same(path, method, param),
        param.says("in"@, "formData"@) || param.says("in"@, "body"@) || param.says(
            "type"@,
            "file"@,
        ),
        o.rbname.len() == 0,
    ensures
        ({
            let (r, o1, e) = operation::path_param_merged(path, param, p, method, openapi, o);
            let types = crate::convert::body::media_types(Some(op), openapi, "consumes"@);
            let (x, op1, o2, e2) = crate::convert::parameter::param_processed(
                param,
                Some(op),
                p,
                openapi,
                types,
                o,
            );
            &&& e == e2 && o1 == o2
            &&& e is None && o2.rbname == o.rbname ==> r.member(method) == op1
            &&& forall|key: Text| key != method ==> #[trigger] r.member(key) == path.member(key)
        }),
{
    broadcast use laws::group_members;

    listed_is_same(path.member2(method, "parameters"@)->0.elements(), 0, param);
    crate::convert::parameter::param_keeps_op(
        param,
        op,
        p,
        openapi,
        crate::convert::body::media_types(Some(op), openapi, "consumes"@),
        o,
    );
}

// --- media types -----------------------------------------------------------

/// An operation loses its media types and its schemes, and nothing else. With `debug`
/// the media types stay under other names.
pub proof fn media_types_leave(j: Json, o: Settings)
    requires
        json::distinct(j.members()),
    ensures
        ({
            let r = operation::media_types_dropped(j, o);
            &&& !r.has("consumes"@) && !r.has("produces"@) && !r.has("schemes"@)
            &&& o.debug && j.has("consumes"@) ==> r.member("x-s2o-consumes"@) == j.member(
                "consumes"@,
            )
            &&& o.debug && j.has("produces"@) ==> r.member("x-s2o-produces"@) == j.member(
                "produces"@,
            )
            &&& forall|key: Text|
                key != "consumes"@ && key != "produces"@ && key != "schemes"@ && (o.debug ==> key
                    != "x-s2o-consumes"@ && key != "x-s2o-produces"@) ==> #[trigger] r.member(key)
                    == j.member(key)
        }),
{
    broadcast use laws::group_members;

    example_words();
}

// --- nulls -----------------------------------------------------------------

/// Whether a null goes: it is under no extension and no `default`, and not in an
/// example.
pub open spec fn null_goes(key: Text, path: Text) -> bool {
    &&& !(key.len() >= 2 && key[0] == 'x' && key[1] == '-')
    &&& key != "default"@
    &&& !text::occurs(recurse::child_path(path, key), "/example"@)
}

/// What becomes of a member when nulls go: a null may go, a container loses its nulls,
/// and any other value stays.
pub open spec fn without_nulls(h: nat, v: Json, key: Text, path: Text) -> Option<Json> {
    if v is Null {
        if null_goes(key, path) {
            None
        } else {
            Some(v)
        }
    } else if recurse::is_container(v) && h > 0 {
        Some(
            recurse::traverse::<NullStripper>(
                (h - 1) as nat,
                (),
                v,
                recurse::child_path(path, key),
            ).1,
        )
    } else {
        Some(v)
    }
}

proof fn member_nulls_go(h: nat, ks: Seq<Text>, i: nat, j: Json, path: Text)
    requires
        j is Object,
        json::distinct(j.members()),
        ks.no_duplicates(),
        forall|k: int| i <= k < ks.len() ==> j.has(#[trigger] ks[k]),
    ensures
        ({
            let r = recurse::traverse_keys::<NullStripper>(h, ks, i, (), j, path).1;
            &&& r is Object
            &&& forall|k: int|
                i <= k < ks.len() ==> r.member(#[trigger] ks[k]) == without_nulls(
                    h,
                    j.member(ks[k])->0,
                    ks[k],
                    path,
                )
            &&& forall|key: Text|
                (forall|k: int| i <= k < ks.len() ==> key != #[trigger] ks[k])
                    ==> #[trigger] r.member(key) == j.member(key)
        }),
    decreases ks.len() - i,
{
    broadcast use laws::group_members;

    if i < ks.len() {
        let key = ks[i as int];
        assert(j.has(key));
        let v = j.member(key)->0;
        let p = recurse::child_path(path, key);
        reveal_strlit("x-");
        if text::starts(key, "x-"@) {
            assert(key.subrange(0, 2)[0] == key[0] && key.subrange(0, 2)[1] == key[1]);
        } else if key.len() >= 2 && key[0] == 'x' && key[1] == '-' {
            assert(key.subrange(0, 2) =~= "x-"@);
        }
        let x = without_nulls(h, v, key, path);
        let j2 = if v is Null {
            if null_goes(key, path) {
                j.without(key)
            } else {
                j
            }
        } else if recurse::is_container(v) && h > 0 {
            j.with(key, x->0)
        } else {
            j
        };
        let r = recurse::traverse_keys::<NullStripper>(h, ks, i, (), j, path).1;
        assert(recurse::child_at(j, key) == Some(v));
        let j1 = NullStripper::visited((), j, key, p).1;
        if v is Null && null_goes(key, path) {
            assert(j1 == j.without(key));
            assert(recurse::child_at(j1, key) is None);
        } else {
            assert(j1 == j);
        }
        assert(r == recurse::traverse_keys::<NullStripper>(h, ks, i + 1, (), j2, path).1);
        assert forall|k: int| i + 1 <= k < ks.len() implies j2.has(#[trigger] ks[k]) && j2.member(
            ks[k],
        ) == j.member(ks[k]) by {
            assert(ks[k] != ks[i as int]);
            assert(j.has(ks[k]));
        }
        member_nulls_go(h, ks, i + 1, j2, path);
        assert(j2.member(key) == x);
        assert forall|k: int| i <= k < ks.len() implies r.member(#[trigger] ks[k])
            == without_nulls(h, j.member(ks[k])->0, ks[k], path) by {
            if k == i {
                assert forall|q: int| i + 1 <= q < ks.len() implies key != #[trigger] ks[q] by {}
                assert(r.member(key) == j2.member(key));
            } else {
                assert(j2.member(ks[k]) == j.member(ks[k]));
            }
        }
        assert forall|other: Text|
            (forall|k: int| i <= k < ks.len() ==> other != #[trigger] ks[k]) implies #[trigger] r.member(
            other,
        ) == j.member(other) by {
            assert(other != ks[i as int]);
            assert(r.member(other) == j2.member(other));
        }
    }
}

/// The nulls of an object go, at every depth: those under an extension or `default` stay,
/// and so do those in examples. No other member goes, and no other value changes.
pub proof fn nulls_go(h: nat, j: Json, path: Text, key: Text)
    requires
        j is Object,
        json::distinct(j.members()),
    ensures
        ({
            let r = recurse::traverse::<NullStripper>(h, (), j, path).1;
            &&& r is Object
            &&& !j.has(key) ==> !r.has(key)
            &&& j.has(key) ==> r.member(key) == without_nulls(h, j.member(key)->0, key, path)
        }),
{
    let ks = json::keys(j.members());
    keys_are_apart(j.members());
    assert forall|k: int| 0 <= k < ks.len() implies j.has(#[trigger] ks[k]) by {
        assert(json::has_key(j.members(), ks[k]));
    }
    member_nulls_go(h, ks, 0, j, path);
    if j.has(key) {
        assert(json::has_key(j.members(), key));
        assert(ks.contains(key));
        let k = choose|k: int| 0 <= k < ks.len() && ks[k] == key;
        assert(ks[k] == key);
    } else {
        assert forall|k: int| 0 <= k < ks.len() implies key != #[trigger] ks[k] by {
            assert(j.has(ks[k]));
        }
    }
}

// --- the kinds of references -----------------------------------------------

/// Whether a text stands in another.
pub open spec fn stands_in(s: Text, pat: Text) -> bool {
    exists|k: int| 0 <= k && #[trigger] text::stands_at(s, pat, k)
}

proof fn found_where_it_stands(s: Text, pat: Text)
    ensures
        text::find_spec(s, pat) is Some == stands_in(s, pat),
{
    if stands_in(s, pat) {
        let k = choose|k: int| 0 <= k && #[trigger] text::stands_at(s, pat, k);
        name_laws::search_finds_first(s, pat, 0, k);
    }
    if text::find_spec(s, pat) is Some {
        found_stands(s, pat, 0);
        assert(text::stands_at(s, pat, text::find_spec(s, pat)->0));
    }
}

proof fn nowhere_at_last(s: Text, pat: Text, i: int)
    requires
        !stands_in(s, pat),
    ensures
        text::rfind_text_from(s, pat, i) is None,
    decreases i,
{
    if i > 0 {
        assert(!text::stands_at(s, pat, i - 1));
        nowhere_at_last(s, pat, i - 1);
    }
}

proof fn no_longer_match(s: Text, short: Text, long: Text, to: Text)
    requires
        !stands_in(s, short),
        short.len() <= long.len(),
        long.take(short.len() as int) == short,
    ensures
        text::replaced(s, long, to) == s,
{
    assert forall|k: int| 0 <= k < s.len() implies !(#[trigger] text::stands_at(s, long, k)) by {
        if text::stands_at(s, long, k) {
            let n = short.len() as int;
            assert(s.subrange(k, k + n) =~= s.subrange(k, k + long.len()).take(n));
            assert(text::stands_at(s, short, k));
        }
    }
    nothing_to_replace(s, long, to, 0);
    assert(s.skip(0) =~= s);
}

/// A direct reference outside schemas belongs to the bucket of what it leads through:
/// headers, responses, examples, extensions, parameters, in this order, and else to the
/// schemas.
pub proof fn references_belong_to_buckets(r: Text)
    requires
        !stands_in(r, "/properties/"@),
        !stands_in(r, "/schema"@),
    ensures
        refs::ref_bucket(r) == (if stands_in(r, "/headers/"@) {
            "headers"@
        } else if stands_in(r, "/responses/"@) {
            "responses"@
        } else if stands_in(r, "/example"@) {
            "examples"@
        } else if stands_in(r, "/x-"@) {
            "extensions"@
        } else if stands_in(r, "/parameters/"@) {
            "parameters"@
        } else {
            "schemas"@
        }),
{
    reveal_strlit("/properties/");
    reveal_strlit("/properties/headers/");
    reveal_strlit("/properties/responses/");
    reveal_strlit("/properties/parameters/");
    reveal_strlit("/properties/schemas/");
    assert("/properties/headers/"@.take(12) =~= "/properties/"@);
    assert("/properties/responses/"@.take(12) =~= "/properties/"@);
    assert("/properties/parameters/"@.take(12) =~= "/properties/"@);
    assert("/properties/schemas/"@.take(12) =~= "/properties/"@);
    no_longer_match(r, "/properties/"@, "/properties/headers/"@, ""@);
    no_longer_match(r, "/properties/"@, "/properties/responses/"@, ""@);
    no_longer_match(r, "/properties/"@, "/properties/parameters/"@, ""@);
    no_longer_match(r, "/properties/"@, "/properties/schemas/"@, ""@);
    nowhere_at_last(r, "/schema"@, r.len() as int + 1);
    found_where_it_stands(r, "/headers/"@);
    found_where_it_stands(r, "/responses/"@);
    found_where_it_stands(r, "/example"@);
    found_where_it_stands(r, "/x-"@);
    found_where_it_stands(r, "/parameters/"@);
}

// --- mappings --------------------------------------------------------------

proof fn later_entries(m: Seq<(Yaml, Yaml)>, i: nat, members: Members, key: Text)
    requires
        forall|k: int| i <= k < m.len() ==> yaml::key_text((#[trigger] m[k]).0) != key,
    ensures
        json::lookup(yaml::mapping_converted(m, i, members), key) == json::lookup(members, key),
    decreases m.len() - i,
{
    if i < m.len() {
        let (name, v) = m[i as int];
        let members1 = json::insert(members, yaml::key_text(name), yaml::converted(v));
        assert(yaml::key_text(m[i as int].0) != key);
        laws::lookup_insert_other(members, yaml::key_text(name), yaml::converted(v), key);
        later_entries(m, i + 1, members1, key);
    }
}

proof fn entry_is_held(m: Seq<(Yaml, Yaml)>, i: nat, members: Members, k: int)
    requires
        i <= k < m.len(),
        forall|q: int|
            k < q < m.len() ==> yaml::key_text((#[trigger] m[q]).0) != yaml::key_text(m[k].0),
    ensures
        json::lookup(yaml::mapping_converted(m, i, members), yaml::key_text(m[k].0)) == Some(
            yaml::converted(m[k].1),
        ),
    decreases m.len() - i,
{
    let (name, v) = m[i as int];
    let members1 = json::insert(members, yaml::key_text(name), yaml::converted(v));
    if i == k {
        laws::lookup_after_insert(members, yaml::key_text(name), yaml::converted(v));
        later_entries(m, i + 1, members1, yaml::key_text(m[k].0));
    } else {
        entry_is_held(m, i + 1, members1, k);
    }
}

/// A mapping becomes an object that holds, under the text of each key, the value of the
/// last entry with that key, and nothing else.
pub proof fn last_entry_is_held(m: Seq<(Yaml, Yaml)>, k: int, key: Text)
    requires
        0 <= k < m.len(),
        forall|q: int|
            k < q < m.len() ==> yaml::key_text((#[trigger] m[q]).0) != yaml::key_text(m[k].0),
    ensures
        yaml::converted(Yaml::Mapping(m)).member(yaml::key_text(m[k].0)) == Some(
            yaml::converted(m[k].1),
        ),
        (forall|q: int| 0 <= q < m.len() ==> yaml::key_text((#[trigger] m[q]).0) != key)
            ==> !yaml::converted(Yaml::Mapping(m)).has(key),
{
    entry_is_held(m, 0, Seq::empty(), k);
    if forall|q: int| 0 <= q < m.len() ==> yaml::key_text((#[trigger] m[q]).0) != key {
        later_entries(m, 0, Seq::empty(), key);
    }
}

} // verus!
