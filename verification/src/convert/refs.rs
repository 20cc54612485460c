//! `$ref` rewriting.

use vstd::prelude::*;

use crate::common::{self, decode_uri_component, encode_uri_component, sanitise};
use crate::conversion_laws;
use crate::convert::parameter::{self, sanitise_ref_path};
use crate::error::{self, warn_or_error, S2OError};
use crate::fixup::{self, fix_up_schema};
use crate::jptr::{self, Target};
use crate::json::{self, Json, Members, Text};
use crate::options::{Options, RefSiblings, Settings};
use crate::path_laws;
use crate::pointer_laws;
use crate::recurse::{self, is_ref, recurse, RecurseState, Visitor};
use crate::suffix::{self, SuffixCounter};
use crate::text;
use crate::value::{self, cloned, JsonValue, Object};

verus! {

// --- sites -----------------------------------------------------------------

/// One `$ref` site found during the collection pass.
pub struct RefSite {
    /// Path to the object that holds the `$ref`.
    pub container_path: String,
    /// Whether the path passes through a `/schema` segment.
    pub in_schema: bool,
}

impl View for RefSite {
    type V = (Text, bool);

    open spec fn view(&self) -> (Text, bool) {
        (self.container_path@, self.in_schema)
    }
}

/// The models of a sequence of sites.
pub open spec fn sites(v: Seq<RefSite>) -> Seq<(Text, bool)> {
    Seq::new(v.len(), |i: int| v[i]@)
}

/// The path without its last segment.
pub open spec fn container_path(path: Text) -> Text {
    match text::rfind_from(path, '/', path.len() as int) {
        Some(i) => if i > 0 {
            path.take(i)
        } else {
            "#"@
        },
        None => "#"@,
    }
}

/// Strip the trailing `/segment` to address the container of a key.
pub fn parent_of(path: &str) -> (r: String)
    ensures
        r@ == container_path(path@),
{
    match text::rfind(path, '/') {
        Some(i) => if i > 0 {
            text::take(path, i)
        } else {
            "#".to_owned()
        },
        None => "#".to_owned(),
    }
}

/// The collection of `$ref` sites.
pub struct RefCollector {
    sites: Vec<RefSite>,
}

/// Whether `key` is an `x-ms-odata` pointer.
pub open spec fn names_odata(container: Json, key: Text) -> bool {
    key == "x-ms-odata"@ && match container.text_member(key) {
        Some(s) => text::starts(s, "#/"@),
        None => false,
    }
}

impl Visitor for RefCollector {
    type State = Seq<(Text, bool)>;

    closed spec fn state(&self) -> Seq<(Text, bool)> {
        sites(self.sites@)
    }

    open spec fn visited(s: Seq<(Text, bool)>, container: Json, key: Text, path: Text) -> (
        Seq<(Text, bool)>,
        Json,
    ) {
        let s1 = if recurse::names_ref(container, key) {
            s.push((container_path(path), text::occurs(path, "/schema"@)))
        } else {
            s
        };
        let s2 = if names_odata(container, key) {
            s1.push((container_path(path), false))
        } else {
            s1
        };
        (s2, container)
    }

    proof fn visit_is_bounded(s: Seq<(Text, bool)>, container: Json, key: Text, path: Text) {
    }

    fn visit(&mut self, container: &mut JsonValue, key: &str, state: &RecurseState) {
        let path = state.path.as_str();
        if is_ref(container, key) {
            let ghost s0 = sites(self.sites@);
            let site = RefSite {
                container_path: parent_of(path),
                in_schema: text::contains(path, "/schema"),
            };
            self.sites.push(site);
            assert(sites(self.sites@) =~= s0.push(site@));
        }
        // x-ms-odata sites are handled in the same place.
        if *key == *"x-ms-odata" {
            if let Some(s) = container.get_str(key) {
                if text::starts_with(s, "#/") {
                    let ghost s1 = sites(self.sites@);
                    let site = RefSite { container_path: parent_of(path), in_schema: false };
                    self.sites.push(site);
                    assert(sites(self.sites@) =~= s1.push(site@));
                }
            }
        }
    }
}

/// Every `$ref` site in document order.
pub open spec fn ref_sites(openapi: Json) -> Seq<(Text, bool)> {
    recurse::recursed::<RefCollector>(Seq::empty(), openapi, "#"@).0
}

/// Collect every `$ref` site in document order.
pub fn collect_ref_sites(openapi: &JsonValue) -> (r: Vec<RefSite>)
    ensures
        sites(r@) == ref_sites(openapi@),
{
    let mut doc = openapi.clone();
    let mut collector = RefCollector { sites: Vec::new() };
    assert(sites(collector.sites@) =~= Seq::empty());
    recurse(&mut doc, "#", &mut collector);
    collector.sites
}

// --- odata -----------------------------------------------------------------

/// The new name of a schema.
pub open spec fn renamed_schema(names: Members, name: Text) -> Option<Text> {
    json::text_of(json::lookup(names, name))
}

/// The container with its `x-ms-odata` pointer in the schemas bucket, and the
/// failure.
pub open spec fn odata_rewritten(container: Json, v: Text, names: Members, o: Settings) -> (
    Json,
    Option<Text>,
) {
    let stripped = text::replaced(
        text::replaced(v, "#/definitions/"@, ""@),
        "#/components/schemas/"@,
        ""@,
    );
    let keys = text::pieces(stripped, '/');
    let (keys1, (c1, e1)) = match renamed_schema(names, common::uri_decoded(keys[0])) {
        Some(name) => (keys.update(0, name), (container, None)),
        None => (keys, error::warned(container, "Could not resolve reference "@ + v, o)),
    };
    match e1 {
        Some(_) => (c1, e1),
        None => (
            c1.with(
                "x-ms-odata"@,
                Json::String("#/components/schemas/"@ + text::joined(keys1, "/"@)),
            ),
            None,
        ),
    }
}

/// Replace the first part of a path by the new name of a schema.
fn rename_first(parts: &mut Vec<String>, names: &Object, key: &str) -> (b: bool)
    requires
        old(parts)@.len() > 0,
    ensures
        b == (renamed_schema(names@, key@) is Some),
        json::texts(final(parts)@) == (match renamed_schema(names@, key@) {
            Some(name) => json::texts(old(parts)@).update(0, name),
            None => json::texts(old(parts)@),
        }),
{
    let ghost ps = json::texts(parts@);
    if let Some(v) = names.get(key) {
        if let Some(name) = v.as_str() {
            parts.set(0, name.to_owned());
            assert(json::texts(parts@) =~= ps.update(0, name@));
            return true;
        }
    }
    false
}

/// Rewrite an `x-ms-odata` pointer to the schemas bucket.
pub fn rewrite_odata(
    container: &mut JsonValue,
    v: &str,
    component_names: &Object,
    options: &Options,
) -> (r: Result<(), S2OError>)
    ensures
        (final(container)@, error::failure(r)) == odata_rewritten(
            old(container)@,
            v@,
            component_names@,
            options@,
        ),
{
    let stripped = text::replace(
        text::replace(v, "#/definitions/", "").as_str(),
        "#/components/schemas/",
        "",
    );
    let mut keys = text::split(stripped.as_str(), '/');
    proof {
        text::pieces_nonempty(stripped@, '/', 0, 0);
        assert(json::texts(keys@).len() == keys@.len());
    }
    let name = decode_uri_component(keys[0].as_str());
    if !rename_first(&mut keys, component_names, name.as_str()) {
        let message = text::cat("Could not resolve reference ", v);
        warn_or_error(message.as_str(), container, options)?;
    }
    let moved = text::cat("#/components/schemas/", text::join(&keys, "/").as_str());
    container.put("x-ms-odata", JsonValue::String(moved));
    Ok(())
}

// --- relocation ------------------------------------------------------------

/// Whether `needle` occurs in `s` after the last `/schema`.
pub open spec fn after_schema(s: Text, needle: Text) -> bool {
    match text::find_spec(s, needle) {
        Some(i) => match text::rfind_text_spec(s, "/schema"@) {
            Some(k) => i > k,
            None => true,
        },
        None => false,
    }
}

/// The reference without the segments that hide its kind.
pub open spec fn kind_exposed(r: Text) -> Text {
    text::replaced(
        text::replaced(
            text::replaced(
                text::replaced(r, "/properties/headers/"@, ""@),
                "/properties/responses/"@,
                ""@,
            ),
            "/properties/parameters/"@,
            ""@,
        ),
        "/properties/schemas/"@,
        ""@,
    )
}

/// The component bucket that a direct reference belongs to.
pub open spec fn ref_bucket(r: Text) -> Text {
    let s = kind_exposed(r);
    if after_schema(s, "/headers/"@) {
        "headers"@
    } else if after_schema(s, "/responses/"@) {
        "responses"@
    } else if after_schema(s, "/example"@) {
        "examples"@
    } else if after_schema(s, "/x-"@) {
        "extensions"@
    } else if after_schema(s, "/parameters/"@) {
        "parameters"@
    } else {
        "schemas"@
    }
}

/// The component name that an `x-miro` provenance value gives.
pub open spec fn miro_name(r: Text) -> Text {
    let name = if text::occurs(r, "#"@) {
        text::pieces(text::pieces(r, '#')[1], '/').last()
    } else {
        text::pieces(text::pieces(r, '/').last(), '.')[0]
    };
    common::uri_encoded(common::sanitised(name))
}

/// The stem of the name of a relocated target.
pub open spec fn relocation_stem(bucket: Text, target: Json, container: Json) -> Text {
    match container.text_member("x-miro"@) {
        Some(miro) => miro_name(miro),
        None => match target.text_member("name"@) {
            Some(name) => if bucket == "parameters"@ && name == common::sanitised(name) {
                common::uri_encoded(name)
            } else {
                bucket.drop_last()
            },
            None => bucket.drop_last(),
        },
    }
}

/// The suffix that the search for a free name starts with.
pub open spec fn relocation_start(container: Json) -> Option<nat> {
    match container.text_member("x-miro"@) {
        Some(_) => None,
        None => Some(1),
    }
}

/// The pointer to a component.
pub open spec fn component_pointer(bucket: Text, name: Text) -> Text {
    "#/components/"@ + bucket + "/"@ + name
}

/// The first suffix after `start` with which the name `stem` is free.
pub open spec fn free_suffix(openapi: Json, bucket: Text, stem: Text, start: Option<nat>) -> Text {
    suffix::suffix_at(
        start,
        suffix::first_free(
            |k: nat|
                jptr::read(
                    openapi,
                    component_pointer(bucket, stem + suffix::suffix_at(start, k)),
                ) is Some,
        ),
    )
}

/// The pointer to the place of a relocated target.
pub open spec fn relocated_pointer(openapi: Json, bucket: Text, target: Json, container: Json) -> Text {
    let stem = relocation_stem(bucket, target, container);
    component_pointer(
        bucket,
        stem + free_suffix(openapi, bucket, stem, relocation_start(container)),
    )
}

/// The document, the container and the map of relocations after the target went
/// into its bucket.
pub open spec fn target_placed(
    openapi: Json,
    container: Json,
    r: Text,
    target: Json,
    refmap: Members,
) -> (Json, Json, Members) {
    let bucket = ref_bucket(r);
    if bucket == "responses"@ || bucket == "extensions"@ {
        (openapi, container, refmap)
    } else {
        let pointer = relocated_pointer(openapi, bucket, target, container);
        let (placed, full) = if bucket == "examples"@ {
            (Json::single("value"@, target), pointer + "/value"@)
        } else {
            (target, pointer)
        };
        (
            jptr::write(openapi, pointer, placed).0,
            container.with("$ref"@, Json::String(full)),
            json::insert(refmap, r, Json::String(full)),
        )
    }
}

/// The document, the container, the map of relocations, the settings and the
/// failure after a direct internal reference has been relocated.
pub open spec fn ref_relocated(
    openapi: Json,
    container: Json,
    r: Text,
    refmap: Members,
    o: Settings,
) -> (Json, Json, Members, Settings, Option<Text>) {
    match jptr::read(openapi, r) {
        None => {
            let (c1, e1) = error::warned(container, "direct $ref not found "@ + r, o);
            (openapi, c1, refmap, o, e1)
        },
        Some(target) => match json::text_of(json::lookup(refmap, r)) {
            Some(existing) => (
                openapi,
                container.with("$ref"@, Json::String(existing)),
                refmap,
                o,
                None,
            ),
            None => {
                let (t1, o1, e1) = if ref_bucket(r) == "schemas"@ {
                    fixup::schema_fixed(target, o)
                } else {
                    (target, o, None)
                };
                match e1 {
                    Some(_) => (openapi, container, refmap, o1, e1),
                    None => {
                        let (d2, c2, m2) = target_placed(openapi, container, r, t1, refmap);
                        (d2, c2, m2, o1, None)
                    },
                }
            },
        },
    }
}

/// Whether `needle` occurs in `s` after the last `/schema`.
fn is_after_schema(s: &str, needle: &str) -> (b: bool)
    ensures
        b == after_schema(s@, needle@),
{
    match text::find(s, needle) {
        Some(i) => match text::rfind_text(s, "/schema") {
            Some(k) => i > k,
            None => true,
        },
        None => false,
    }
}

/// The component bucket that a direct reference belongs to, and the word for one
/// member of it.
fn infer_bucket(r: &str) -> (res: (&'static str, &'static str))
    ensures
        res.0@ == ref_bucket(r@),
        res.1@ == ref_bucket(r@).drop_last(),
        pointer_laws::plain(res.0@),
        pointer_laws::plain(res.1@),
{
    proof {
        buckets_are_plain();
    }
    let mut s = text::replace(r, "/properties/headers/", "");
    s = text::replace(s.as_str(), "/properties/responses/", "");
    s = text::replace(s.as_str(), "/properties/parameters/", "");
    s = text::replace(s.as_str(), "/properties/schemas/", "");
    let s = s.as_str();
    if is_after_schema(s, "/headers/") {
        ("headers", "header")
    } else if is_after_schema(s, "/responses/") {
        ("responses", "response")
    } else if is_after_schema(s, "/example") {
        ("examples", "example")
    } else if is_after_schema(s, "/x-") {
        ("extensions", "extension")
    } else if is_after_schema(s, "/parameters/") {
        ("parameters", "parameter")
    } else {
        ("schemas", "schema")
    }
}

/// The names of the buckets and of their members are plain.
proof fn buckets_are_plain()
    ensures
        "headers"@.drop_last() == "header"@,
        "responses"@.drop_last() == "response"@,
        "examples"@.drop_last() == "example"@,
        "extensions"@.drop_last() == "extension"@,
        "parameters"@.drop_last() == "parameter"@,
        "schemas"@.drop_last() == "schema"@,
        pointer_laws::plain("headers"@),
        pointer_laws::plain("responses"@),
        pointer_laws::plain("examples"@),
        pointer_laws::plain("extensions"@),
        pointer_laws::plain("parameters"@),
        pointer_laws::plain("schemas"@),
        pointer_laws::plain("header"@),
        pointer_laws::plain("response"@),
        pointer_laws::plain("example"@),
        pointer_laws::plain("extension"@),
        pointer_laws::plain("parameter"@),
        pointer_laws::plain("schema"@),
{
    reveal_strlit("headers");
    reveal_strlit("responses");
    reveal_strlit("examples");
    reveal_strlit("extensions");
    reveal_strlit("parameters");
    reveal_strlit("schemas");
    reveal_strlit("header");
    reveal_strlit("response");
    reveal_strlit("example");
    reveal_strlit("extension");
    reveal_strlit("parameter");
    reveal_strlit("schema");
    assert("headers"@.drop_last() =~= "header"@);
    assert("responses"@.drop_last() =~= "response"@);
    assert("examples"@.drop_last() =~= "example"@);
    assert("extensions"@.drop_last() =~= "extension"@);
    assert("parameters"@.drop_last() =~= "parameter"@);
    assert("schemas"@.drop_last() =~= "schema"@);
}

/// The component name that an `x-miro` provenance value gives.
pub fn get_miro_component_name(reference: &str) -> (r: String)
    ensures
        r@ == miro_name(reference@),
{
    let name: String = if text::contains(reference, "#") {
        let parts = text::split(reference, '#');
        proof {
            occurring_splits(reference@, 0, 0);
            assert(json::texts(parts@).len() == parts@.len());
        }
        let tail = text::split(parts[1].as_str(), '/');
        proof {
            text::pieces_nonempty(parts@[1]@, '/', 0, 0);
            assert(json::texts(tail@).len() == tail@.len());
        }
        let n: usize = tail.len();
        tail[n - 1].clone()
    } else {
        let parts = text::split(reference, '/');
        proof {
            text::pieces_nonempty(reference@, '/', 0, 0);
            assert(json::texts(parts@).len() == parts@.len());
        }
        let n: usize = parts.len();
        let file = text::split(parts[n - 1].as_str(), '.');
        proof {
            text::pieces_nonempty(parts@[n - 1]@, '.', 0, 0);
            assert(json::texts(file@).len() == file@.len());
        }
        file[0].clone()
    };
    encode_uri_component(sanitise(name.as_str()).as_str())
}

/// A text that holds `#` has at least two pieces.
proof fn occurring_splits(s: Text, start: int, i: int)
    requires
        0 <= i,
        text::find_from(s, "#"@, i) is Some,
    ensures
        text::split_from(s, '#', start, i).len() >= 2,
    decreases s.len() + 1 - i,
{
    reveal_strlit("#");
    if i < s.len() {
        if s[i] == '#' {
            text::pieces_nonempty(s, '#', i + 1, i + 1);
        } else {
            assert(!text::stands_at(s, "#"@, i)) by {
                if text::stands_at(s, "#"@, i) {
                    assert(s.subrange(i, i + 1)[0] == "#"@[0]);
                }
            }
            occurring_splits(s, start, i + 1);
        }
    } else {
        assert(text::find_from(s, "#"@, i + 1) is None);
    }
}

/// Whether a name stands in a pointer as it is, or as an escaped text.
spec fn pointer_safe(name: Text) -> bool {
    pointer_laws::plain(name) || exists|q: Text| #[trigger] common::uri_encoded(q) == name
}

/// Far enough suffixes are free.
proof fn far_suffix_is_free(openapi: Json, bucket: Text, stem: Text, start: Option<nat>, k: nat)
    requires
        pointer_laws::plain(bucket),
        pointer_safe(stem),
        k >= suffix::pow10(4 * pointer_laws::name_bound(openapi)),
    ensures
        jptr::read(
            openapi,
            component_pointer(bucket, stem + suffix::suffix_at(start, k)),
        ) is None,
{
    let d = suffix::suffix_at(start, k);
    suffix::long_suffix(start, k, 4 * pointer_laws::name_bound(openapi));
    let n = suffix::suffix_after(start, k)->0;
    pointer_laws::decimal_is_plain(n);
    reveal_strlit("#/components/");
    reveal_strlit("/");
    let base = "#/components/"@ + bucket + "/"@;
    assert(base[0] == '#' && base[1] == '/');
    assert(pointer_laws::plain("#/components/"@));
    assert forall|i: int| 0 <= i < base.len() implies '\0' <= #[trigger] base[i] <= '\u{7f}'
        && base[i] != '%' by {
        let m = "#/components/"@.len();
        if i < m {
            assert(base[i] == "#/components/"@[i]);
        } else if i < m + bucket.len() {
            assert(base[i] == bucket[i - m]);
        }
    }
    if pointer_laws::plain(stem) {
        let q = Seq::<char>::empty();
        let a = base + stem;
        assert forall|i: int| 0 <= i < a.len() implies '\0' <= #[trigger] a[i] <= '\u{7f}' && a[i]
            != '%' by {
            if i < base.len() {
                assert(a[i] == base[i]);
            } else {
                assert(a[i] == stem[i - base.len()]);
            }
        }
        pointer_laws::long_pointer_misses(openapi, a, q, d);
        assert(common::uri_encoded(q) =~= Seq::empty());
        assert(a + common::uri_encoded(q) + d =~= component_pointer(bucket, stem + d));
    } else {
        let q = choose|q: Text| #[trigger] common::uri_encoded(q) == stem;
        pointer_laws::long_pointer_misses(openapi, base, q, d);
        assert(base + stem + d =~= component_pointer(bucket, stem + d));
    }
}

/// The stem of the name of a relocated target stands in a pointer.
proof fn stem_is_safe(r: Text, target: Json, container: Json)
    ensures
        pointer_laws::plain(ref_bucket(r)),
        pointer_safe(relocation_stem(ref_bucket(r), target, container)),
{
    buckets_are_plain();
    let bucket = ref_bucket(r);
    match container.text_member("x-miro"@) {
        Some(miro) => {
            assert(miro_name(miro) == relocation_stem(bucket, target, container));
        },
        None => {
            if let Some(name) = target.text_member("name"@) {
                assert(pointer_safe(common::uri_encoded(name)));
            }
        },
    }
}

/// A target is relocated to a place that addresses nothing yet.
pub proof fn relocated_is_free(openapi: Json, r: Text, target: Json, container: Json)
    ensures
        jptr::read(
            openapi,
            relocated_pointer(openapi, ref_bucket(r), target, container),
        ) is None,
{
    let bucket = ref_bucket(r);
    let stem = relocation_stem(bucket, target, container);
    let start = relocation_start(container);
    let bound = suffix::pow10(4 * pointer_laws::name_bound(openapi));
    let taken = |k: nat|
        jptr::read(
            openapi,
            component_pointer(bucket, stem + suffix::suffix_at(start, k)),
        ) is Some;
    stem_is_safe(r, target, container);
    far_suffix_is_free(openapi, bucket, stem, start, bound);
    assert(!taken(bound));
    suffix::first_free_is_free(taken, bound);
    assert(!taken(suffix::first_free(taken)));
}

/// A target is relocated into `components`.
pub proof fn relocated_into_components(openapi: Json, r: Text, target: Json, container: Json)
    ensures
        jptr::target(relocated_pointer(openapi, ref_bucket(r), target, container)) matches
            Target::Path(parts) && parts.len() > 0 && parts[0] == "components"@,
{
    let bucket = ref_bucket(r);
    let stem = relocation_stem(bucket, target, container);
    let d = free_suffix(openapi, bucket, stem, relocation_start(container));
    stem_is_safe(r, target, container);
    suffix_is_plain(openapi, bucket, stem, relocation_start(container));
    reveal_strlit("#/components/");
    reveal_strlit("components/");
    reveal_strlit("/");
    let base = "components/"@ + bucket + "/"@;
    assert(pointer_laws::plain("components/"@));
    assert(pointer_laws::plain("/"@));
    plain_concat("components/"@, bucket);
    plain_concat("components/"@ + bucket, "/"@);
    let prop = component_pointer(bucket, stem + d);
    let rest = prop.skip(2);
    if pointer_laws::plain(stem) {
        let q = Seq::<char>::empty();
        plain_concat(base, stem);
        pointer_laws::uri_decodes(base + stem, q, d);
        assert(common::uri_encoded(q) =~= Seq::empty());
        assert(rest =~= base + stem + common::uri_encoded(q) + d);
        assert(base + stem + q + d =~= "components/"@ + (bucket + "/"@ + stem + d));
        leads_into_components(prop, bucket + "/"@ + stem + d);
    } else {
        let q = choose|q: Text| #[trigger] common::uri_encoded(q) == stem;
        pointer_laws::uri_decodes(base, q, d);
        assert(rest =~= base + stem + d);
        assert(base + q + d =~= "components/"@ + (bucket + "/"@ + q + d));
        leads_into_components(prop, bucket + "/"@ + q + d);
    }
}

proof fn plain_concat(a: Text, b: Text)
    requires
        pointer_laws::plain(a),
        pointer_laws::plain(b),
    ensures
        pointer_laws::plain(a + b),
{
    let s = a + b;
    assert forall|i: int| 0 <= i < s.len() implies '\0' <= #[trigger] s[i] <= '\u{7f}' && s[i]
        != '%' by {
        if i < a.len() {
            assert(s[i] == a[i]);
        } else {
            assert(s[i] == b[i - a.len()]);
        }
    }
}

proof fn suffix_is_plain(openapi: Json, bucket: Text, stem: Text, start: Option<nat>)
    ensures
        pointer_laws::plain(free_suffix(openapi, bucket, stem, start)),
{
    assert forall|k: nat| pointer_laws::plain(#[trigger] suffix::suffix_at(start, k)) by {
        if let Some(n) = suffix::suffix_after(start, k) {
            pointer_laws::decimal_is_plain(n);
        }
    }
}

/// A fragment that decodes to a path below `components` leads there.
proof fn leads_into_components(prop: Text, tail: Text)
    requires
        prop.len() > 2,
        prop[0] == '#',
        prop[1] == '/',
        common::uri_decoded(prop.skip(2)) == "components/"@ + tail,
    ensures
        jptr::target(prop) matches Target::Path(parts) && parts.len() > 0 && parts[0]
            == "components"@,
{
    reveal_strlit("#");
    reveal_strlit("components/");
    reveal_strlit("components");
    assert(prop.subrange(0, 1) =~= "#"@);
    assert(text::stands_at(prop, "#"@, 0));
    assert(text::find_spec(prop, "#"@) == Some(0int));
    assert(jptr::without_slash(prop.skip(1)) =~= prop.skip(2));
    let t = "components/"@ + tail;
    assert(t[0] == 'c' && t[10] == '/');
    assert forall|k: int| 0 <= k < 10 implies #[trigger] t[k] != '/' by {
        assert(t[k] == "components/"@[k]);
    }
    path_laws::no_separator(t, '/', 0, 0, 10);
    let ps = text::pieces(t, '/');
    assert(t.subrange(0, 10) =~= "components"@);
    assert(ps[0] == "components"@);
    let parts = jptr::path_parts(t);
    assert(parts[0] == jptr::unescaped("components"@));
    assert(conversion_laws::is_word("components"@));
    conversion_laws::word_escapes_to_itself("components"@, 0);
    assert("components"@.skip(0) =~= "components"@);
    path_laws::unescape_undoes_escape("components"@);
}

/// Find the first suffix with which a component name is free, and return the
/// name.
fn find_free_name(openapi: &JsonValue, bucket: &str, stem: &str, start: SuffixCounter) -> (r: String)
    requires
        pointer_laws::plain(bucket@),
        pointer_safe(stem@),
    ensures
        r@ == stem@ + free_suffix(openapi@, bucket@, stem@, start@),
{
    let ghost taken = |k: nat|
        jptr::read(
            openapi@,
            component_pointer(bucket@, stem@ + suffix::suffix_at(start@, k)),
        ) is Some;
    let ghost bound = suffix::pow10(4 * pointer_laws::name_bound(openapi@));
    let ghost s0 = start@;
    let mut counter = start;
    let ghost mut k: nat = 0;
    loop
        invariant
            pointer_laws::plain(bucket@),
            pointer_safe(stem@),
            counter@ == suffix::suffix_after(s0, k),
            s0 == start@,
            taken == (|k: nat|
                jptr::read(
                    openapi@,
                    component_pointer(bucket@, stem@ + suffix::suffix_at(s0, k)),
                ) is Some),
            forall|j: nat| j < k ==> #[trigger] taken(j),
            k <= bound,
            bound == suffix::pow10(4 * pointer_laws::name_bound(openapi@)),
        decreases bound - k,
    {
        let name = text::cat(stem, counter.as_str().as_str());
        let head = text::cat3("#/components/", bucket, "/");
        let pointer = text::cat(head.as_str(), name.as_str());
        assert(pointer@ == component_pointer(bucket@, stem@ + suffix::suffix_at(s0, k)));
        if !jptr::pointer_exists(openapi, pointer.as_str()) {
            proof {
                assert(!taken(k));
                suffix::first_free_is(taken, k);
            }
            return name;
        }
        proof {
            if k >= bound {
                far_suffix_is_free(openapi@, bucket@, stem@, s0, k);
            }
            assert(taken(k));
            k = k + 1;
        }
        counter = counter.next();
    }
}

/// The stem of the name of a relocated target.
fn find_stem(bucket: &str, word: &str, target: &JsonValue, container: &JsonValue) -> (r: String)
    requires
        word@ == bucket@.drop_last(),
        pointer_laws::plain(word@),
    ensures
        r@ == relocation_stem(bucket@, target@, container@),
        pointer_safe(r@),
{
    if let Some(miro) = container.get_str("x-miro") {
        return get_miro_component_name(miro);
    }
    if *bucket == *"parameters" {
        if let Some(name) = target.get_str("name") {
            if *name == *sanitise(name).as_str() {
                return encode_uri_component(name);
            }
        }
    }
    word.to_owned()
}

/// Put a relocated target into its bucket.
fn place_target(
    openapi: &mut JsonValue,
    container: &mut JsonValue,
    r: &str,
    target: JsonValue,
    bucket: &str,
    word: &str,
    refmap: &mut Object,
)
    requires
        bucket@ == ref_bucket(r@),
        word@ == bucket@.drop_last(),
        pointer_laws::plain(bucket@),
        pointer_laws::plain(word@),
    ensures
        (final(openapi)@, final(container)@, final(refmap)@) == target_placed(
            old(openapi)@,
            old(container)@,
            r@,
            target@,
            old(refmap)@,
        ),
{
    if *bucket == *"responses" || *bucket == *"extensions" {
        return;
    }
    let stem = find_stem(bucket, word, &target, container);
    let start = if container.get_str("x-miro").is_some() {
        SuffixCounter::empty()
    } else {
        SuffixCounter::one()
    };
    let name = find_free_name(openapi, bucket, stem.as_str(), start);
    let head = text::cat3("#/components/", bucket, "/");
    let pointer = text::cat(head.as_str(), name.as_str());
    let (placed, full): (JsonValue, String) = if *bucket == *"examples" {
        (JsonValue::single("value", target), text::cat(pointer.as_str(), "/value"))
    } else {
        (target, pointer.clone())
    };
    jptr::set(openapi, pointer.as_str(), placed);
    refmap.insert(r, JsonValue::text(full.as_str()));
    container.put("$ref", JsonValue::String(full));
}

/// The heuristic relocator for direct internal `$ref`s.
pub fn relocate_ref(
    openapi: &mut JsonValue,
    container: &mut JsonValue,
    ref_str: &str,
    refmap: &mut Object,
    options: &mut Options,
) -> (r: Result<(), S2OError>)
    ensures
        (
            final(openapi)@,
            final(container)@,
            final(refmap)@,
            final(options)@,
            error::failure(r),
        ) == ref_relocated(
            old(openapi)@,
            old(container)@,
            ref_str@,
            old(refmap)@,
            old(options)@,
        ),
{
    let mut target = match cloned(jptr::get(openapi, ref_str)) {
        Some(t) => t,
        None => {
            let message = text::cat("direct $ref not found ", ref_str);
            return warn_or_error(message.as_str(), container, options);
        },
    };
    let existing: Option<String> = match refmap.get(ref_str) {
        Some(v) => parameter::owned(v.as_str()),
        None => None,
    };
    if let Some(e) = existing {
        container.put("$ref", JsonValue::String(e));
        return Ok(());
    }

    // Infer the bucket type.
    let (bucket, word) = infer_bucket(ref_str);
    if *bucket == *"schemas" {
        fix_up_schema(&mut target, options)?;
    }
    place_target(openapi, container, ref_str, target, bucket, word, refmap);
    Ok(())
}

// --- rewriting -------------------------------------------------------------

/// The container with a reference to a definition in the schemas bucket, and the
/// failure.
pub open spec fn definition_ref_rewritten(
    container: Json,
    r: Text,
    rest: Text,
    names: Members,
    o: Settings,
) -> (Json, Option<Text>) {
    let keys = text::pieces(rest, '/');
    let (keys1, (c1, e1)) = match renamed_schema(
        names,
        common::uri_decoded(jptr::unescaped(keys[0])),
    ) {
        Some(name) => (keys.update(0, name), (container, None)),
        None => (keys, error::warned(container, "Could not resolve reference "@ + r, o)),
    };
    match e1 {
        Some(_) => (c1, e1),
        None => (
            c1.with(
                "$ref"@,
                Json::String("#/components/schemas/"@ + text::joined(keys1, "/"@)),
            ),
            None,
        ),
    }
}

/// The document, the container, the map of relocations, the settings and the
/// failure after the `$ref` of one container has been rewritten.
pub open spec fn ref_rewritten(
    openapi: Json,
    container: Json,
    r: Text,
    names: Members,
    refmap: Members,
    o: Settings,
) -> (Json, Json, Members, Settings, Option<Text>) {
    if text::starts(r, "#/components/"@) {
        (openapi, container, refmap, o, None)
    } else if r == "#/consumes"@ {
        (openapi, json::value_or(openapi.member("consumes"@), Json::Null), refmap, o, None)
    } else if r == "#/produces"@ {
        (openapi, json::value_or(openapi.member("produces"@), Json::Null), refmap, o, None)
    } else {
        match text::stripped(r, "#/definitions/"@) {
            Some(rest) => {
                let (c1, e1) = definition_ref_rewritten(container, r, rest, names, o);
                (openapi, c1, refmap, o, e1)
            },
            None => match text::stripped(r, "#/parameters/"@) {
                Some(rest) => (
                    openapi,
                    container.with(
                        "$ref"@,
                        Json::String(
                            "#/components/parameters/"@ + parameter::ref_path_sanitised(rest),
                        ),
                    ),
                    refmap,
                    o,
                    None,
                ),
                None => match text::stripped(r, "#/responses/"@) {
                    Some(rest) => (
                        openapi,
                        container.with(
                            "$ref"@,
                            Json::String(
                                "#/components/responses/"@ + parameter::ref_path_sanitised(rest),
                            ),
                        ),
                        refmap,
                        o,
                        None,
                    ),
                    None => if text::starts(r, "#"@) {
                        ref_relocated(openapi, container, r, refmap, o)
                    } else {
                        (openapi, container, refmap, o, None)
                    },
                },
            },
        }
    }
}

/// Point a reference to a definition into the schemas bucket.
fn rewrite_definition_ref(
    container: &mut JsonValue,
    r: &str,
    rest: &str,
    names: &Object,
    options: &Options,
) -> (res: Result<(), S2OError>)
    ensures
        (final(container)@, error::failure(res)) == definition_ref_rewritten(
            old(container)@,
            r@,
            rest@,
            names@,
            options@,
        ),
{
    let mut keys = text::split(rest, '/');
    proof {
        text::pieces_nonempty(rest@, '/', 0, 0);
        assert(json::texts(keys@).len() == keys@.len());
    }
    let name = decode_uri_component(jptr::jpunescape(keys[0].as_str()).as_str());
    if !rename_first(&mut keys, names, name.as_str()) {
        let message = text::cat("Could not resolve reference ", r);
        warn_or_error(message.as_str(), container, options)?;
    }
    let moved = text::cat("#/components/schemas/", text::join(&keys, "/").as_str());
    container.put("$ref", JsonValue::String(moved));
    Ok(())
}

/// The value under `key`, or `null`.
fn value_or_null(v: &JsonValue, key: &str) -> (r: JsonValue)
    ensures
        r@ == json::value_or(v@.member(key@), Json::Null),
{
    match v.get(key) {
        Some(v) => v.clone(),
        None => JsonValue::Null,
    }
}

/// Rewrite the `$ref` string of a single container in place.
pub fn rewrite_single_ref(
    openapi: &mut JsonValue,
    container: &mut JsonValue,
    ref_str: &str,
    component_names: &Object,
    refmap: &mut Object,
    options: &mut Options,
) -> (r: Result<(), S2OError>)
    ensures
        (
            final(openapi)@,
            final(container)@,
            final(refmap)@,
            final(options)@,
            error::failure(r),
        ) == ref_rewritten(
            old(openapi)@,
            old(container)@,
            ref_str@,
            component_names@,
            old(refmap)@,
            old(options)@,
        ),
{
    if text::starts_with(ref_str, "#/components/") {
        // already converted
        return Ok(());
    }
    if *ref_str == *"#/consumes" {
        // Replace the whole container with the consumes array.
        *container = value_or_null(openapi, "consumes");
        return Ok(());
    }
    if *ref_str == *"#/produces" {
        *container = value_or_null(openapi, "produces");
        return Ok(());
    }
    if let Some(rest) = text::strip_prefix(ref_str, "#/definitions/") {
        return rewrite_definition_ref(
            container,
            ref_str,
            rest.as_str(),
            component_names,
            options,
        );
    }
    if let Some(rest) = text::strip_prefix(ref_str, "#/parameters/") {
        let path = sanitise_ref_path(rest.as_str());
        let moved = text::cat("#/components/parameters/", path.as_str());
        container.put("$ref", JsonValue::String(moved));
        return Ok(());
    }
    if let Some(rest) = text::strip_prefix(ref_str, "#/responses/") {
        let path = sanitise_ref_path(rest.as_str());
        let moved = text::cat("#/components/responses/", path.as_str());
        container.put("$ref", JsonValue::String(moved));
        return Ok(());
    }
    if text::starts_with(ref_str, "#") {
        return relocate_ref(openapi, container, ref_str, refmap, options);
    }
    Ok(())
}

/// The container after the handling of siblings of its `$ref`.
pub open spec fn siblings_handled(container: Json, in_schema: bool, how: RefSiblings) -> Json {
    let c = container.dropped("x-miro"@);
    match c.text_member("$ref"@) {
        Some(r) => if c.members().len() > 1 {
            let alone = Json::single("$ref"@, Json::String(r));
            match how {
                RefSiblings::Preserve => c,
                RefSiblings::AllOf => if in_schema {
                    Json::single("allOf"@, Json::Array(seq![alone, c.without("$ref"@)]))
                } else {
                    alone
                },
                RefSiblings::Remove => alone,
            }
        } else {
            c
        },
        None => c,
    }
}

/// Apply sibling handling to a container.
fn handle_siblings(container: JsonValue, in_schema: bool, how: RefSiblings) -> (r: JsonValue)
    ensures
        r@ == siblings_handled(container@, in_schema, how),
{
    let mut c = container;
    // x-miro is always dropped after rewriting.
    if let Some(m) = c.as_object_mut() {
        m.remove("x-miro");
    }
    let siblings = match c.as_object() {
        Some(m) => m.len() > 1,
        None => false,
    };
    let reference = parameter::owned(c.get_str("$ref"));
    if let Some(r) = reference {
        if siblings {
            let alone = JsonValue::single("$ref", JsonValue::String(r));
            match how {
                RefSiblings::Preserve => {},
                RefSiblings::AllOf => {
                    if in_schema {
                        c.cut("$ref");
                        let ghost a = alone@;
                        let ghost b = c@;
                        let mut list: Vec<JsonValue> = Vec::new();
                        list.push(alone);
                        list.push(c);
                        assert(value::views(list@) =~= seq![a, b]);
                        return JsonValue::single("allOf", JsonValue::array(list));
                    } else {
                        return alone;
                    }
                },
                RefSiblings::Remove => {
                    return alone;
                },
            }
        }
    }
    c
}

/// Apply sibling handling and write the container back to its path.
pub fn finalize_ref_site(
    openapi: &mut JsonValue,
    container: JsonValue,
    site: &RefSite,
    options: &Options,
)
    ensures
        final(openapi)@ == jptr::write(
            old(openapi)@,
            site@.0,
            siblings_handled(container@, site@.1, options@.ref_siblings),
        ).0,
{
    let c = handle_siblings(container, site.in_schema, options.ref_siblings);
    jptr::set(openapi, site.container_path.as_str(), c);
}

/// The document, the map of relocations, the settings and the failure after one
/// site has been rewritten.
pub open spec fn site_rewritten(
    openapi: Json,
    site: (Text, bool),
    names: Members,
    refmap: Members,
    o: Settings,
) -> (Json, Members, Settings, Option<Text>) {
    match jptr::read(openapi, site.0) {
        None => (openapi, refmap, o, None),
        Some(container) => {
            let odata = names_odata(container, "x-ms-odata"@);
            let (c1, e1) = if odata {
                odata_rewritten(container, container.text_member("x-ms-odata"@)->0, names, o)
            } else {
                (container, None)
            };
            match e1 {
                Some(_) => (openapi, refmap, o, e1),
                None => {
                    let d1 = if odata {
                        jptr::write(openapi, site.0, c1).0
                    } else {
                        openapi
                    };
                    match c1.text_member("$ref"@) {
                        None => (d1, refmap, o, None),
                        Some(r) => {
                            let (d2, c2, m2, o2, e2) = ref_rewritten(
                                d1,
                                c1,
                                r,
                                names,
                                refmap,
                                o,
                            );
                            match e2 {
                                Some(_) => (d2, m2, o2, e2),
                                None => (
                                    jptr::write(
                                        d2,
                                        site.0,
                                        siblings_handled(c2, site.1, o2.ref_siblings),
                                    ).0,
                                    m2,
                                    o2,
                                    None,
                                ),
                            }
                        },
                    }
                },
            }
        },
    }
}

/// The document, the map of relocations, the settings and the failure after the
/// sites from position `i` on have been rewritten.
pub open spec fn sites_rewritten(
    openapi: Json,
    all: Seq<(Text, bool)>,
    i: nat,
    names: Members,
    refmap: Members,
    o: Settings,
) -> (Json, Members, Settings, Option<Text>)
    decreases all.len() - i,
{
    if i >= all.len() {
        (openapi, refmap, o, None)
    } else {
        let (d1, m1, o1, e1) = site_rewritten(openapi, all[i as int], names, refmap, o);
        match e1 {
            Some(_) => (d1, m1, o1, e1),
            None => sites_rewritten(d1, all, i + 1, names, m1, o1),
        }
    }
}

/// The document with a `$ref` at each relocated place from position `i` on.
pub open spec fn refs_deduped(openapi: Json, refmap: Members, i: nat) -> Json
    decreases refmap.len() - i,
{
    if i >= refmap.len() {
        openapi
    } else {
        let (src, target) = refmap[i as int];
        let d1 = match target {
            Json::String(t) => jptr::write(
                openapi,
                src,
                Json::single("$ref"@, Json::String(t)),
            ).0,
            _ => openapi,
        };
        refs_deduped(d1, refmap, i + 1)
    }
}

/// The document, the settings and the failure after every `$ref` has been
/// rewritten to its 3.0 location.
pub open spec fn refs_fixed(openapi: Json, names: Members, o: Settings) -> (
    Json,
    Settings,
    Option<Text>,
) {
    let (d1, m1, o1, e1) = sites_rewritten(
        openapi,
        ref_sites(openapi),
        0,
        names,
        Seq::empty(),
        o,
    );
    match e1 {
        Some(_) => (d1, o1, e1),
        None => (
            refs_deduped(d1, m1, 0),
            Settings { refmap: Json::Object(m1), ..o1 },
            None,
        ),
    }
}

/// Rewrite one `$ref` site.
fn rewrite_site(
    openapi: &mut JsonValue,
    site: &RefSite,
    names: &Object,
    refmap: &mut Object,
    options: &mut Options,
) -> (r: Result<(), S2OError>)
    ensures
        (final(openapi)@, final(refmap)@, final(options)@, error::failure(r)) == site_rewritten(
            old(openapi)@,
            site@,
            names@,
            old(refmap)@,
            old(options)@,
        ),
{
    let path = site.container_path.as_str();
    let mut container = match cloned(jptr::get(openapi, path)) {
        Some(c) => c,
        None => {
            return Ok(());
        },
    };

    // x-ms-odata rewrite.
    let odata: Option<String> = match container.get_str("x-ms-odata") {
        Some(s) => if text::starts_with(s, "#/") {
            Some(s.to_owned())
        } else {
            None
        },
        None => None,
    };
    if let Some(s) = odata {
        rewrite_odata(&mut container, s.as_str(), names, options)?;
        jptr::set(openapi, path, container.clone());
    }
    let ref_str: String = match container.get_str("$ref") {
        Some(r) => r.to_owned(),
        None => {
            return Ok(());
        },
    };
    rewrite_single_ref(openapi, &mut container, ref_str.as_str(), names, refmap, options)?;

    // Sibling handling and write-back.
    finalize_ref_site(openapi, container, site, options);
    Ok(())
}

/// Write a `$ref` object at each refmap source path.
pub fn dedupe_refs(openapi: &mut JsonValue, refmap: &Object)
    ensures
        final(openapi)@ == refs_deduped(old(openapi)@, refmap@, 0),
{
    let n: usize = refmap.len();
    let mut i: usize = 0;
    while i < n
        invariant
            i <= n,
            n == refmap@.len(),
            refs_deduped(old(openapi)@, refmap@, 0) == refs_deduped(
                openapi@,
                refmap@,
                i as nat,
            ),
        decreases n - i,
    {
        if let Some(target) = refmap.value_at(i).as_str() {
            let ref_obj = JsonValue::single("$ref", JsonValue::text(target));
            jptr::set(openapi, refmap.key_at(i).as_str(), ref_obj);
        }
        i += 1;
    }
}

/// Rewrite every `$ref` to its OpenAPI 3.0 location.
pub fn fixup_refs(openapi: &mut JsonValue, component_names: &Object, options: &mut Options) -> (r:
    Result<(), S2OError>)
    ensures
        (final(openapi)@, final(options)@, error::failure(r)) == refs_fixed(
            old(openapi)@,
            component_names@,
            old(options)@,
        ),
{
    let found = collect_ref_sites(openapi);
    let ghost all = sites(found@);
    let ghost names = component_names@;
    let mut refmap = Object::new();
    let mut i: usize = 0;
    while i < found.len()
        invariant
            i <= found@.len(),
            all == sites(found@),
            all == ref_sites(old(openapi)@),
            names == component_names@,
            sites_rewritten(old(openapi)@, all, 0, names, Seq::empty(), old(options)@)
                == sites_rewritten(openapi@, all, i as nat, names, refmap@, options@),
        decreases found@.len() - i,
    {
        assert(all[i as int] == found@[i as int]@);
        rewrite_site(openapi, &found[i], component_names, &mut refmap, options)?;
        i += 1;
    }
    options.refmap = JsonValue::Object(refmap.clone());
    dedupe_refs(openapi, &refmap);
    Ok(())
}

} // verus!
