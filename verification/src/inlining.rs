//! Resolution of the internal `$ref`s of an inlined external fragment.
//!
//! A first-seen internal reference is replaced by a clone of its target. A repeat
//! reference becomes a pointer into the already-placed copy. The clones hold
//! references of their own, so passes over the fragment follow until one finds
//! nothing to replace.

use vstd::prelude::*;

use crate::common;
use crate::jptr;
use crate::json::{self, Json, Members, Text};
use crate::laws;
use crate::path_laws;
use crate::recurse::{self, is_ref, recurse, RecurseState, Visitor};
use crate::text;
use crate::value::JsonValue;

verus! {

// --- one reference ---------------------------------------------------------

/// What a resolution has done: the place of the copy of each reference that it
/// has seen, and whether the current pass has changed anything.
pub struct Inlining {
    pub seen: Seq<(Text, Text)>,
    pub changed: bool,
}

/// The place of a reference, seen at or after position `i`.
pub open spec fn place_from(seen: Seq<(Text, Text)>, r: Text, i: nat) -> Option<Text>
    decreases seen.len() - i,
{
    if i >= seen.len() {
        None
    } else if seen[i as int].0 == r {
        Some(seen[i as int].1)
    } else {
        place_from(seen, r, i + 1)
    }
}

/// The internal reference that a container is, unless it is marked as fixed.
pub open spec fn live_ref(j: Json) -> Option<Text> {
    match j.text_member("$ref"@) {
        Some(r) => if text::starts(r, "#"@) && j.member("$fixed"@) != Some(Json::Bool(true)) {
            Some(r)
        } else {
            None
        },
        None => None,
    }
}

/// A repeat of the reference `r`, whose copy is at `place` below `attach`.
pub open spec fn repeated_ref(attach: Text, place: Text, r: Text) -> Json {
    Json::empty().with(
        "$ref"@,
        Json::String(text::replaced(attach + "/"@ + place, "/#/"@, "/"@)),
    ).with("x-miro"@, Json::String(r)).with("$fixed"@, Json::Bool(true))
}

/// The resolution and the container after its reference is resolved. A reference
/// without a target becomes an empty object.
pub open spec fn ref_inlined(s: Inlining, j: Json, path: Text, context: Json, attach: Text) -> (
    Inlining,
    Json,
) {
    match live_ref(j) {
        None => (s, j),
        Some(r) => match place_from(s.seen, r, 0) {
            Some(place) => (
                Inlining { changed: true, ..s },
                repeated_ref(attach, place, r),
            ),
            None => match jptr::read(context, r) {
                Some(t) => (
                    Inlining {
                        seen: s.seen.push((r, text::replaced(path, "/%24ref"@, ""@))),
                        changed: true,
                    },
                    t,
                ),
                None => (s, Json::empty()),
            },
        },
    }
}

// --- one pass --------------------------------------------------------------

/// The resolution and the value after a pass of at most `h` levels over a value.
pub open spec fn pass(h: nat, s: Inlining, j: Json, path: Text, context: Json, attach: Text) -> (
    Inlining,
    Json,
)
    decreases h, 1nat, 0nat,
{
    pass_keys(h, recurse::child_keys(j), 0, s, j, path, context, attach)
}

/// The resolution and the value after a pass over the children under the keys from
/// position `i` on. At `$ref` the container is resolved. Then the pass descends
/// into the child, when that is a container.
pub open spec fn pass_keys(
    h: nat,
    ks: Seq<Text>,
    i: nat,
    s: Inlining,
    j: Json,
    path: Text,
    context: Json,
    attach: Text,
) -> (Inlining, Json)
    decreases h, 0nat, ks.len() - i,
{
    if i >= ks.len() {
        (s, j)
    } else if recurse::child_at(j, ks[i as int]) is None {
        pass_keys(h, ks, i + 1, s, j, path, context, attach)
    } else {
        let key = ks[i as int];
        let p = recurse::child_path(path, key);
        let (s1, j1) = if key == "$ref"@ {
            ref_inlined(s, j, p, context, attach)
        } else {
            (s, j)
        };
        match recurse::child_at(j1, key) {
            Some(c) => if recurse::is_container(c) && h > 0 {
                let (s2, c2) = pass((h - 1) as nat, s1, c, p, context, attach);
                pass_keys(
                    h,
                    ks,
                    i + 1,
                    s2,
                    recurse::with_child(j1, key, c2),
                    path,
                    context,
                    attach,
                )
            } else {
                pass_keys(h, ks, i + 1, s1, j1, path, context, attach)
            },
            None => pass_keys(h, ks, i + 1, s1, j1, path, context, attach),
        }
    }
}

// --- all passes ------------------------------------------------------------

/// The value after passes of at most `h` levels, at most `n + 1` of them, up to
/// the first that changes nothing.
pub open spec fn passes(
    n: nat,
    h: nat,
    seen: Seq<(Text, Text)>,
    j: Json,
    context: Json,
    attach: Text,
) -> Json
    decreases n,
{
    let (s1, j1) = pass(h, Inlining { seen, changed: false }, j, "#"@, context, attach);
    if s1.changed && n > 0 {
        passes((n - 1) as nat, h, s1.seen, j1, context, attach)
    } else {
        j1
    }
}

/// The strings in a value.
pub open spec fn strings(j: Json) -> Set<Text>
    decreases j, 0nat,
{
    match j {
        Json::String(s) => Set::empty().insert(s),
        Json::Array(a) => element_strings(a, 0),
        Json::Object(m) => member_strings(m, 0),
        _ => Set::empty(),
    }
}

/// The strings in the elements from position `i` on.
pub open spec fn element_strings(a: Seq<Json>, i: nat) -> Set<Text>
    decreases a, a.len() - i,
{
    if i >= a.len() {
        Set::empty()
    } else {
        strings(a[i as int]).union(element_strings(a, i + 1))
    }
}

/// The strings in the members from position `i` on.
pub open spec fn member_strings(m: Members, i: nat) -> Set<Text>
    decreases m, m.len() - i,
{
    if i >= m.len() {
        Set::empty()
    } else {
        strings(m[i as int].1).union(member_strings(m, i + 1))
    }
}

/// Every reference that a resolution can come to is a string of the fragment or of
/// its context.
pub open spec fn references(j: Json, context: Json) -> Set<Text> {
    strings(j).union(strings(context))
}

/// The levels that a pass can go down: those of the fragment, and those of the
/// context once for each reference.
pub open spec fn depth(u: Set<Text>, seen: Seq<(Text, Text)>, j: Json, context: Json) -> nat {
    json::height(j) + room(u, seen, context)
}

/// The levels that references which are not seen yet can add.
pub open spec fn room(u: Set<Text>, seen: Seq<(Text, Text)>, context: Json) -> nat {
    unseen(u, seen) * (json::height(context) + 1)
}

/// The references that a resolution has seen.
pub open spec fn seen_refs(seen: Seq<(Text, Text)>) -> Set<Text> {
    Set::new(|r: Text| place_from(seen, r, 0) is Some)
}

/// The number of references that are not seen yet.
pub open spec fn unseen(u: Set<Text>, seen: Seq<(Text, Text)>) -> nat {
    u.difference(seen_refs(seen)).len()
}

/// The removal of the `$fixed` marks next to references.
pub struct Unmarker {}

impl Visitor for Unmarker {
    type State = ();

    open spec fn state(&self) -> () {
        ()
    }

    open spec fn visited(s: (), container: Json, key: Text, path: Text) -> ((), Json) {
        if recurse::names_ref(container, key) {
            ((), container.dropped("$fixed"@))
        } else {
            ((), container)
        }
    }

    proof fn visit_is_bounded(s: (), container: Json, key: Text, path: Text) {
        if let Json::Object(m) = container {
            laws::remove_keeps_height(m, "$fixed"@);
        }
    }

    fn visit(&mut self, container: &mut JsonValue, key: &str, state: &RecurseState) {
        if is_ref(container, key) {
            if let Some(map) = container.as_object_mut() {
                map.remove("$fixed");
            }
        }
    }
}

/// The fragment with its internal references resolved in `context` and the repeats
/// marked. The passes and their levels are as many as the references can call for.
pub open spec fn marked(j: Json, context: Json, attach: Text) -> Json {
    let u = references(j, context);
    passes(
        2 * u.len() + 1,
        depth(u, Seq::empty(), j, context),
        Seq::empty(),
        j,
        context,
        attach,
    )
}

/// The fragment with its internal references resolved in `context`.
pub open spec fn internally_resolved(j: Json, context: Json, attach: Text) -> Json {
    recurse::recursed::<Unmarker>((), marked(j, context, attach), "#"@).1
}

// --- strings ---------------------------------------------------------------

/// Whether every string in a value is in `u`.
pub open spec fn all_in(j: Json, u: Set<Text>) -> bool
    decreases j,
{
    match j {
        Json::String(s) => u.contains(s),
        Json::Array(a) => forall|k: int| 0 <= k < a.len() ==> all_in(#[trigger] a[k], u),
        Json::Object(m) => forall|k: int| 0 <= k < m.len() ==> all_in((#[trigger] m[k]).1, u),
        _ => true,
    }
}

/// Whether an object is marked as fixed.
pub open spec fn is_fixed(m: Members) -> bool {
    json::lookup(m, "$fixed"@) == Some(Json::Bool(true))
}

/// Whether every string in a value that can become a reference is in `u`. The
/// strings that a repeat brings cannot.
pub open spec fn within(j: Json, u: Set<Text>) -> bool
    decreases j,
{
    match j {
        Json::String(s) => u.contains(s),
        Json::Array(a) => forall|k: int| 0 <= k < a.len() ==> within(#[trigger] a[k], u),
        Json::Object(m) => forall|k: int|
            0 <= k < m.len() ==> within((#[trigger] m[k]).1, u) || (is_fixed(m) && m[k].1
                is String),
        _ => true,
    }
}

proof fn all_in_is_within(j: Json, u: Set<Text>)
    requires
        all_in(j, u),
    ensures
        within(j, u),
    decreases j,
{
    match j {
        Json::Array(a) => {
            assert forall|k: int| 0 <= k < a.len() implies within(#[trigger] a[k], u) by {
                all_in_is_within(a[k], u);
            }
        },
        Json::Object(m) => {
            assert forall|k: int| 0 <= k < m.len() implies within((#[trigger] m[k]).1, u) || (
            is_fixed(m) && m[k].1 is String) by {
                all_in_is_within(m[k].1, u);
            }
        },
        _ => {},
    }
}

proof fn strings_are_in(j: Json, u: Set<Text>)
    requires
        strings(j).subset_of(u),
    ensures
        all_in(j, u),
    decreases j, 0nat,
{
    match j {
        Json::String(s) => {
            assert(strings(j).contains(s));
        },
        Json::Array(a) => {
            element_strings_are_in(a, 0, u);
        },
        Json::Object(m) => {
            member_strings_are_in(m, 0, u);
        },
        _ => {},
    }
}

proof fn element_strings_are_in(a: Seq<Json>, i: nat, u: Set<Text>)
    requires
        element_strings(a, i).subset_of(u),
    ensures
        forall|k: int| i <= k < a.len() ==> all_in(#[trigger] a[k], u),
    decreases a, a.len() - i,
{
    if i < a.len() {
        assert forall|s: Text| strings(a[i as int]).contains(s) implies u.contains(s) by {
            assert(element_strings(a, i).contains(s));
        }
        assert forall|s: Text| element_strings(a, i + 1).contains(s) implies u.contains(s) by {
            assert(element_strings(a, i).contains(s));
        }
        strings_are_in(a[i as int], u);
        element_strings_are_in(a, i + 1, u);
    }
}

proof fn member_strings_are_in(m: Members, i: nat, u: Set<Text>)
    requires
        member_strings(m, i).subset_of(u),
    ensures
        forall|k: int| i <= k < m.len() ==> all_in((#[trigger] m[k]).1, u),
    decreases m, m.len() - i,
{
    if i < m.len() {
        assert forall|s: Text| strings(m[i as int].1).contains(s) implies u.contains(s) by {
            assert(member_strings(m, i).contains(s));
        }
        assert forall|s: Text| member_strings(m, i + 1).contains(s) implies u.contains(s) by {
            assert(member_strings(m, i).contains(s));
        }
        strings_are_in(m[i as int].1, u);
        member_strings_are_in(m, i + 1, u);
    }
}

proof fn strings_are_finite(j: Json)
    ensures
        strings(j).finite(),
    decreases j, 0nat,
{
    match j {
        Json::Array(a) => {
            element_strings_are_finite(a, 0);
        },
        Json::Object(m) => {
            member_strings_are_finite(m, 0);
        },
        _ => {},
    }
}

proof fn element_strings_are_finite(a: Seq<Json>, i: nat)
    ensures
        element_strings(a, i).finite(),
    decreases a, a.len() - i,
{
    if i < a.len() {
        strings_are_finite(a[i as int]);
        element_strings_are_finite(a, i + 1);
    }
}

proof fn member_strings_are_finite(m: Members, i: nat)
    ensures
        member_strings(m, i).finite(),
    decreases m, m.len() - i,
{
    if i < m.len() {
        strings_are_finite(m[i as int].1);
        member_strings_are_finite(m, i + 1);
    }
}

/// What a pointer reads in a value is a part of it.
proof fn part_is_in(j: Json, parts: Seq<Text>, i: int, u: Set<Text>)
    requires
        all_in(j, u),
        jptr::resolve(j, parts, i) is Some,
    ensures
        all_in(jptr::resolve(j, parts, i)->0, u),
        json::height(jptr::resolve(j, parts, i)->0) <= json::height(j),
    decreases parts.len() - i,
{
    if i < parts.len() {
        let c = jptr::child(j, parts[i])->0;
        match j {
            Json::Array(a) => {
                let n = jptr::index_value(parts[i])->0;
                jptr::digits_grow(parts[i], 0, 0);
                laws::element_is_lower(a, n);
                assert(all_in(a[n], u));
            },
            Json::Object(m) => {
                laws::index_found(m, parts[i], 0);
                laws::member_is_lower(m, parts[i]);
                assert(all_in(m[json::index_of(m, parts[i])].1, u));
            },
            _ => {},
        }
        part_is_in(c, parts, i + 1, u);
    }
}

/// The target of a reference is a part of the context.
proof fn target_is_in(context: Json, r: Text, u: Set<Text>)
    requires
        all_in(context, u),
        jptr::read(context, r) is Some,
    ensures
        all_in(jptr::read(context, r)->0, u),
        json::height(jptr::read(context, r)->0) <= json::height(context),
{
    match jptr::target(r) {
        jptr::Target::Path(parts) => {
            part_is_in(context, parts, 0, u);
        },
        _ => {},
    }
}

// --- seen references -------------------------------------------------------

/// Where a reference is seen, it is seen at some position.
proof fn place_of_push(seen: Seq<(Text, Text)>, r: Text, place: Text, q: Text, i: nat)
    requires
        i <= seen.len(),
    ensures
        place_from(seen.push((r, place)), q, i) == (match place_from(seen, q, i) {
            Some(p) => Some(p),
            None => if q == r {
                Some(place)
            } else {
                None
            },
        }),
    decreases seen.len() - i,
{
    reveal_with_fuel(place_from, 2);
    if i < seen.len() {
        place_of_push(seen, r, place, q, i + 1);
    }
}

/// To see a new reference leaves one less unseen.
proof fn one_less_unseen(u: Set<Text>, seen: Seq<(Text, Text)>, r: Text, place: Text)
    requires
        u.finite(),
        u.contains(r),
        place_from(seen, r, 0) is None,
    ensures
        unseen(u, seen.push((r, place))) + 1 == unseen(u, seen),
{
    let s2 = seen.push((r, place));
    assert forall|q: Text| u.difference(seen_refs(s2)).contains(q) <==> u.difference(
        seen_refs(seen),
    ).remove(r).contains(q) by {
        place_of_push(seen, r, place, q, 0);
    }
    assert(u.difference(seen_refs(s2)) =~= u.difference(seen_refs(seen)).remove(r));
    assert(u.difference(seen_refs(seen)).contains(r));
}

// --- children --------------------------------------------------------------

/// Whether no two keys are equal.
pub open spec fn different(ks: Seq<Text>) -> bool {
    forall|a: int, b: int| 0 <= a < b < ks.len() ==> #[trigger] ks[a] != #[trigger] ks[b]
}

/// The keys of the children of a value differ.
pub proof fn child_keys_differ(j: Json)
    requires
        j matches Json::Object(m) ==> json::distinct(m),
    ensures
        different(recurse::child_keys(j)),
{
    let ks = recurse::child_keys(j);
    assert forall|a: int, b: int| 0 <= a < b < ks.len() implies #[trigger] ks[a]
        != #[trigger] ks[b] by {
        match j {
            Json::Array(_) => {
                path_laws::decimal_spells(a as nat);
                path_laws::decimal_spells(b as nat);
            },
            Json::Object(m) => {
                assert(m[a].0 != m[b].0);
            },
            _ => {},
        }
    }
}

/// The child under one of the keys of a value.
pub proof fn child_under(j: Json, q: int)
    requires
        j matches Json::Object(m) ==> json::distinct(m),
        0 <= q < recurse::child_keys(j).len(),
    ensures
        recurse::child_at(j, recurse::child_keys(j)[q]) == Some(
            match j {
                Json::Array(a) => a[q],
                Json::Object(m) => m[q].1,
                _ => j,
            },
        ),
{
    match j {
        Json::Array(_) => {
            path_laws::decimal_spells(q as nat);
        },
        Json::Object(m) => {
            laws::index_is_first(m, m[q].0, 0, q);
        },
        _ => {},
    }
}

/// Another child under one key leaves the other children and the keys alone.
proof fn other_child(j: Json, key: Text, c: Json, other: Text)
    requires
        recurse::child_at(j, key) is Some,
        match j {
            Json::Array(_) => recurse::key_index(key) != recurse::key_index(other),
            _ => key != other,
        },
    ensures
        recurse::child_at(recurse::with_child(j, key, c), other) == recurse::child_at(j, other),
{
    match j {
        Json::Object(m) => {
            laws::lookup_insert_other(m, key, c, other);
        },
        _ => {},
    }
}

/// The child that was set is read back.
proof fn own_child(j: Json, key: Text, c: Json)
    requires
        recurse::child_at(j, key) is Some,
    ensures
        recurse::child_at(recurse::with_child(j, key, c), key) == Some(c),
        recurse::child_keys(recurse::with_child(j, key, c)) == recurse::child_keys(j),
{
    match j {
        Json::Object(m) => {
            laws::lookup_after_insert(m, key, c);
            laws::index_found(m, key, 0);
            assert(json::keys(json::insert(m, key, c)) =~= json::keys(m));
        },
        Json::Array(a) => {
            assert(recurse::child_keys(recurse::with_child(j, key, c)) =~= recurse::child_keys(j));
        },
        _ => {},
    }
}

/// A value whose child grows is at most one level higher than the child.
proof fn grown(j: Json, key: Text, c: Json)
    requires
        recurse::child_at(j, key) is Some,
    ensures
        json::height(recurse::with_child(j, key, c)) <= json::max(
            json::height(j),
            json::height(c) + 1,
        ),
        json::height(recurse::child_at(j, key)->0) < json::height(j),
{
    let n: nat = (json::max(json::height(j), json::height(c) + 1) - 1) as nat;
    match j {
        Json::Object(m) => {
            let m2 = json::insert(m, key, c);
            laws::member_is_lower(m, key);
            laws::index_found(m, key, 0);
            laws::members_height_bound(m, 0, n);
            assert forall|k: int| 0 <= k < m2.len() implies json::height((#[trigger] m2[k]).1)
                <= n by {
                if k != json::index_of(m, key) {
                    assert(m2[k] == m[k]);
                }
            }
            laws::members_height_bound(m2, 0, n);
        },
        Json::Array(a) => {
            let i = recurse::key_index(key)->0;
            let a2 = a.update(i, c);
            laws::element_is_lower(a, i);
            laws::elements_height_bound(a, 0, n);
            assert forall|k: int| 0 <= k < a2.len() implies json::height(#[trigger] a2[k])
                <= n by {
                if k != i {
                    assert(a2[k] == a[k]);
                }
            }
            laws::elements_height_bound(a2, 0, n);
        },
        _ => {},
    }
}

/// Within a value are its containers.
proof fn within_child(j: Json, key: Text, u: Set<Text>)
    requires
        within(j, u),
        recurse::child_at(j, key) is Some,
        recurse::is_container(recurse::child_at(j, key)->0),
    ensures
        within(recurse::child_at(j, key)->0, u),
{
    match j {
        Json::Object(m) => {
            laws::index_found(m, key, 0);
            assert(within(m[json::index_of(m, key)].1, u) || m[json::index_of(m, key)].1
                is String);
        },
        Json::Array(a) => {
            assert(within(a[recurse::key_index(key)->0], u));
        },
        _ => {},
    }
}

/// Another container among the children keeps a value within.
proof fn within_with_child(j: Json, key: Text, c: Json, u: Set<Text>)
    requires
        within(j, u),
        within(c, u),
        recurse::child_at(j, key) is Some,
        recurse::is_container(recurse::child_at(j, key)->0),
    ensures
        within(recurse::with_child(j, key, c), u),
{
    match j {
        Json::Object(m) => {
            let m2 = json::insert(m, key, c);
            laws::index_found(m, key, 0);
            if key != "$fixed"@ {
                laws::lookup_insert_other(m, key, c, "$fixed"@);
            }
            assert forall|k: int| 0 <= k < m2.len() implies within((#[trigger] m2[k]).1, u) || (
            is_fixed(m2) && m2[k].1 is String) by {
                if k != json::index_of(m, key) {
                    assert(m2[k] == m[k]);
                    assert(within(m[k].1, u) || (is_fixed(m) && m[k].1 is String));
                }
            }
        },
        Json::Array(a) => {
            let i = recurse::key_index(key)->0;
            let a2 = a.update(i, c);
            assert forall|k: int| 0 <= k < a2.len() implies within(#[trigger] a2[k], u) by {
                if k != i {
                    assert(a2[k] == a[k]);
                    assert(within(a[k], u));
                }
            }
        },
        _ => {},
    }
}

// --- one reference, bounded ------------------------------------------------

/// Whether a value holds no live reference.
pub open spec fn clean(j: Json) -> bool
    decreases j,
{
    match j {
        Json::Array(a) => forall|k: int| 0 <= k < a.len() ==> clean(#[trigger] a[k]),
        Json::Object(m) => live_ref(j) is None && forall|k: int|
            0 <= k < m.len() ==> clean((#[trigger] m[k]).1),
        _ => true,
    }
}

/// A repeat is clean, two levels high, and brings no references.
proof fn repeat_is_clean(attach: Text, place: Text, r: Text, u: Set<Text>)
    ensures
        clean(repeated_ref(attach, place, r)),
        within(repeated_ref(attach, place, r), u),
        json::height(repeated_ref(attach, place, r)) == 2,
        repeated_ref(attach, place, r) is Object,
{
    let r1 = Json::String(text::replaced(attach + "/"@ + place, "/#/"@, "/"@));
    let m: Members = seq![
        ("$ref"@, r1),
        ("x-miro"@, Json::String(r)),
        ("$fixed"@, Json::Bool(true)),
    ];
    reveal_strlit("$ref");
    reveal_strlit("x-miro");
    reveal_strlit("$fixed");
    assert("$ref"@.len() == 4);
    assert("x-miro"@.len() == 6);
    assert("$fixed"@.len() == 6);
    assert("x-miro"@[0] == 'x');
    assert("$fixed"@[0] == '$');
    let m0: Members = Seq::empty();
    let m1 = json::insert(m0, "$ref"@, r1);
    assert(m1 =~= seq![("$ref"@, r1)]);
    laws::index_is_first(m1, "x-miro"@, 0, 1);
    let m2 = json::insert(m1, "x-miro"@, Json::String(r));
    assert(m2 =~= seq![("$ref"@, r1), ("x-miro"@, Json::String(r))]);
    laws::index_is_first(m2, "$fixed"@, 0, 2);
    assert(json::insert(m2, "$fixed"@, Json::Bool(true)) =~= m);
    assert(repeated_ref(attach, place, r) == Json::Object(m));
    laws::index_is_first(m, "$fixed"@, 0, 2);
    assert(is_fixed(m));
    reveal_with_fuel(clean, 2);
    reveal_with_fuel(within, 2);
    assert forall|k: int| 0 <= k < m.len() implies clean((#[trigger] m[k]).1) && (within(
        m[k].1,
        u,
    ) || m[k].1 is String) by {
        assert(k == 0 || k == 1 || k == 2);
    }
    laws::members_height_bound(m, 0, 1);
    laws::members_height_bound(m, 0, 0);
    assert(json::height(m[0].1) == 1);
}

/// A resolved reference is bounded: what it brings is within, and its levels come
/// from the room.
proof fn inlined_is_bounded(
    s: Inlining,
    j: Json,
    path: Text,
    context: Json,
    attach: Text,
    u: Set<Text>,
)
    requires
        u.finite(),
        within(j, u),
        all_in(context, u),
    ensures
        ({
            let (s1, j1) = ref_inlined(s, j, path, context, attach);
            &&& within(j1, u)
            &&& depth(u, s1.seen, j1, context) <= depth(u, s.seen, j, context)
            &&& room(u, s1.seen, context) <= room(u, s.seen, context)
            &&& unseen(u, s1.seen) + s1.seen.len() == unseen(u, s.seen) + s.seen.len()
            &&& s.seen.len() <= s1.seen.len()
            &&& live_ref(j) is None ==> s1 == s && j1 == j
            &&& live_ref(j) is Some && s1.seen.len() == s.seen.len() ==> clean(j1) && j1 is Object
        }),
{
    if let Some(r) = live_ref(j) {
        let m = j->Object_0;
        let k = json::index_of(m, "$ref"@);
        laws::index_found(m, "$ref"@, 0);
        assert(within(m[k].1, u) || (is_fixed(m) && m[k].1 is String));
        assert(u.contains(r));
        laws::member_is_lower(m, "$ref"@);
        match place_from(s.seen, r, 0) {
            Some(place) => {
                repeat_is_clean(attach, place, r, u);
            },
            None => {
                match jptr::read(context, r) {
                    Some(t) => {
                        let place = text::replaced(path, "/%24ref"@, ""@);
                        target_is_in(context, r, u);
                        all_in_is_within(t, u);
                        one_less_unseen(u, s.seen, r, place);
                        let a = unseen(u, s.seen.push((r, place)));
                        let b = json::height(context) + 1;
                        assert((a + 1) * b == a * b + b) by (nonlinear_arith);
                    },
                    None => {
                        assert(Json::empty()->Object_0.len() == 0);
                        laws::members_height_bound(Seq::empty(), 0, 0);
                    },
                }
            },
        }
    }
}

// --- clean values ----------------------------------------------------------

/// The children of a clean value are clean.
proof fn clean_child(j: Json, key: Text)
    requires
        clean(j),
        recurse::child_at(j, key) is Some,
    ensures
        clean(recurse::child_at(j, key)->0),
{
    match j {
        Json::Object(m) => {
            laws::index_found(m, key, 0);
            assert(clean(m[json::index_of(m, key)].1));
        },
        Json::Array(a) => {
            assert(clean(a[recurse::key_index(key)->0]));
        },
        _ => {},
    }
}

/// A container in place of a container makes no reference.
proof fn same_live_ref(j: Json, key: Text, c: Json)
    requires
        recurse::child_at(j, key) is Some,
        recurse::is_container(recurse::child_at(j, key)->0),
        recurse::is_container(c),
    ensures
        live_ref(recurse::with_child(j, key, c)) == live_ref(j),
{
    if let Json::Object(m) = j {
        laws::lookup_after_insert(m, key, c);
        if key != "$ref"@ {
            laws::lookup_insert_other(m, key, c, "$ref"@);
        }
        if key != "$fixed"@ {
            laws::lookup_insert_other(m, key, c, "$fixed"@);
        }
    }
}

/// A clean container in place of a container keeps a value clean.
proof fn clean_with_child(j: Json, key: Text, c: Json)
    requires
        clean(j),
        clean(c),
        recurse::child_at(j, key) is Some,
        recurse::is_container(recurse::child_at(j, key)->0),
        recurse::is_container(c),
    ensures
        clean(recurse::with_child(j, key, c)),
{
    same_live_ref(j, key, c);
    match j {
        Json::Object(m) => {
            let m2 = json::insert(m, key, c);
            laws::index_found(m, key, 0);
            assert forall|k: int| 0 <= k < m2.len() implies clean((#[trigger] m2[k]).1) by {
                if k != json::index_of(m, key) {
                    assert(m2[k] == m[k]);
                    assert(clean(m[k].1));
                }
            }
        },
        Json::Array(a) => {
            let i = recurse::key_index(key)->0;
            let a2 = a.update(i, c);
            assert forall|k: int| 0 <= k < a2.len() implies clean(#[trigger] a2[k]) by {
                if k != i {
                    assert(a2[k] == a[k]);
                    assert(clean(a[k]));
                }
            }
        },
        _ => {},
    }
}

/// Whether the children under the first `i` keys are clean, and with `$ref` among
/// them the value itself is no live reference.
spec fn clean_up_to(j: Json, ks: Seq<Text>, i: int) -> bool {
    &&& recurse::child_keys(j) == ks
    &&& forall|q: int|
        0 <= q < i ==> match recurse::child_at(j, #[trigger] ks[q]) {
            Some(c) => clean(c),
            None => true,
        }
    &&& ks.take(i).contains("$ref"@) ==> live_ref(j) is None
}

/// A value that is clean up to its last key is clean.
proof fn clean_throughout(j: Json, ks: Seq<Text>)
    requires
        different(ks),
        clean_up_to(j, ks, ks.len() as int),
    ensures
        clean(j),
{
    assert(ks.take(ks.len() as int) =~= ks);
    match j {
        Json::Object(m) => {
            assert forall|a: int, b: int| 0 <= a < b < m.len() implies (#[trigger] m[a]).0
                != (#[trigger] m[b]).0 by {
                assert(ks[a] == m[a].0);
                assert(ks[b] == m[b].0);
            }
            assert forall|k: int| 0 <= k < m.len() implies clean((#[trigger] m[k]).1) by {
                child_under(j, k);
                assert(ks[k] == m[k].0);
            }
            if live_ref(j) is Some {
                laws::index_found(m, "$ref"@, 0);
                assert(ks[json::index_of(m, "$ref"@)] == "$ref"@);
            }
        },
        Json::Array(a) => {
            assert forall|k: int| 0 <= k < a.len() implies clean(#[trigger] a[k]) by {
                child_under(j, k);
                assert(ks[k] == text::decimal(k as nat));
            }
        },
        _ => {},
    }
}

/// One more key of a value whose child under it is no container.
proof fn clean_past_leaf(j: Json, ks: Seq<Text>, i: int)
    requires
        0 <= i < ks.len(),
        clean_up_to(j, ks, i),
        ks[i] == "$ref"@ ==> live_ref(j) is None,
        match recurse::child_at(j, ks[i]) {
            Some(c) => !recurse::is_container(c),
            None => true,
        },
    ensures
        clean_up_to(j, ks, i + 1),
{
    if ks.take(i + 1).contains("$ref"@) && ks[i] != "$ref"@ {
        let t = ks.take(i + 1);
        let q = choose|q: int| 0 <= q < t.len() && t[q] == "$ref"@;
        assert(ks.take(i)[q] == "$ref"@);
    }
}

/// One more key of a value whose child under it has become clean.
proof fn clean_past_child(j: Json, ks: Seq<Text>, i: int, c: Json)
    requires
        0 <= i < ks.len(),
        different(ks),
        clean_up_to(j, ks, i),
        ks[i] == "$ref"@ ==> live_ref(j) is None,
        recurse::child_at(j, ks[i]) is Some,
        recurse::is_container(recurse::child_at(j, ks[i])->0),
        recurse::is_container(c),
        clean(c),
    ensures
        clean_up_to(recurse::with_child(j, ks[i], c), ks, i + 1),
{
    let j2 = recurse::with_child(j, ks[i], c);
    same_live_ref(j, ks[i], c);
    own_child(j, ks[i], c);
    if ks.take(i + 1).contains("$ref"@) && ks[i] != "$ref"@ {
        let t = ks.take(i + 1);
        let q = choose|q: int| 0 <= q < t.len() && t[q] == "$ref"@;
        assert(ks.take(i)[q] == "$ref"@);
    }
    assert forall|q: int| 0 <= q < i + 1 implies match recurse::child_at(j2, #[trigger] ks[q]) {
        Some(d) => clean(d),
        None => true,
    } by {
        if q < i {
            if let Json::Array(_) = j {
                path_laws::decimal_spells(q as nat);
                path_laws::decimal_spells(i as nat);
            }
            other_child(j, ks[i], c, ks[q]);
        }
    }
}

// --- resolution ------------------------------------------------------------

/// The models of a sequence of seen references.
spec fn places(v: Seq<(String, String)>) -> Seq<(Text, Text)> {
    Seq::new(v.len(), |i: int| (v[i].0@, v[i].1@))
}

/// A resolution in progress.
struct Inliner<'a> {
    context: &'a JsonValue,
    attach_point: &'a str,
    seen: Vec<(String, String)>,
    changed: bool,
}

impl<'a> Inliner<'a> {
    spec fn model(self) -> Inlining {
        Inlining { seen: places(self.seen@), changed: self.changed }
    }

    /// Find the place of a reference.
    fn find(&self, r: &str) -> (p: Option<&String>)
        ensures
            match p {
                Some(place) => place_from(self.model().seen, r@, 0) == Some(place@),
                None => place_from(self.model().seen, r@, 0) is None,
            },
    {
        let ghost all = self.model().seen;
        let mut i: usize = 0;
        while i < self.seen.len()
            invariant
                i <= self.seen@.len(),
                all == places(self.seen@),
                place_from(all, r@, 0) == place_from(all, r@, i as nat),
            decreases self.seen@.len() - i,
        {
            assert(all[i as int] == (self.seen@[i as int].0@, self.seen@[i as int].1@));
            if *self.seen[i].0.as_str() == *r {
                return Some(&self.seen[i].1);
            }
            i += 1;
        }
        None
    }

    /// Resolve the reference that `container` is.
    fn inline_ref(&mut self, container: &mut JsonValue, path: &str)
        ensures
            final(self).context@ == old(self).context@,
            final(self).attach_point@ == old(self).attach_point@,
            (final(self).model(), final(container)@) == ref_inlined(
                old(self).model(),
                old(container)@,
                path@,
                old(self).context@,
                old(self).attach_point@,
            ),
    {
        let r = match container.get_str("$ref") {
            Some(r) => r.to_owned(),
            None => return ,
        };
        let fixed = match container.get("$fixed") {
            Some(v) => match v.as_bool() {
                Some(b) => b,
                None => false,
            },
            None => false,
        };
        if !text::starts_with(r.as_str(), "#") || fixed {
            return ;
        }
        let repeat = match self.find(r.as_str()) {
            Some(place) => Some(text::cat3(self.attach_point, "/", place.as_str())),
            None => None,
        };
        match repeat {
            Some(pointer) => {
                let mut m = JsonValue::empty_object();
                m.put("$ref", JsonValue::String(text::replace(pointer.as_str(), "/#/", "/")));
                m.put("x-miro", JsonValue::String(r));
                m.put("$fixed", JsonValue::Bool(true));
                *container = m;
                self.changed = true;
            },
            None => {
                if let Some(target) = jptr::get(self.context, r.as_str()) {
                    *container = target.clone();
                    let ghost before = places(self.seen@);
                    let here = text::replace(path, "/%24ref", "");
                    self.seen.push((r, here));
                    self.changed = true;
                    assert(places(self.seen@) =~= before.push((r@, here@)));
                } else {
                    *container = JsonValue::empty_object();
                }
            },
        }
    }

    /// Run one pass over `object`.
    fn inline(
        &mut self,
        object: &mut JsonValue,
        parent_path: &str,
        Ghost(h): Ghost<nat>,
        Ghost(u): Ghost<Set<Text>>,
    )
        requires
            u.finite(),
            within(old(object)@, u),
            all_in(old(self).context@, u),
            depth(u, old(self).model().seen, old(object)@, old(self).context@) <= h,
        ensures
            final(self).context@ == old(self).context@,
            final(self).attach_point@ == old(self).attach_point@,
            (final(self).model(), final(object)@) == pass(
                h,
                old(self).model(),
                old(object)@,
                parent_path@,
                old(self).context@,
                old(self).attach_point@,
            ),
            within(final(object)@, u),
            depth(u, final(self).model().seen, final(object)@, old(self).context@) <= depth(
                u,
                old(self).model().seen,
                old(object)@,
                old(self).context@,
            ),
            room(u, final(self).model().seen, old(self).context@) <= room(
                u,
                old(self).model().seen,
                old(self).context@,
            ),
            unseen(u, final(self).model().seen) + final(self).model().seen.len() == unseen(
                u,
                old(self).model().seen,
            ) + old(self).model().seen.len(),
            old(self).model().seen.len() <= final(self).model().seen.len(),
            final(self).model().seen.len() == old(self).model().seen.len() ==> clean(
                final(object)@,
            ) && recurse::is_container(final(object)@) == recurse::is_container(old(object)@),
            clean(old(object)@) ==> final(self).model() == old(self).model() && final(object)@
                == old(object)@,
            old(self).model().changed ==> final(self).model().changed,
            !final(self).model().changed ==> final(self).model().seen.len() == old(
                self,
            ).model().seen.len(),
        decreases h,
    {
        let keys = recurse::list_keys(object);
        let ghost ks = json::texts(keys@);
        let ghost s0 = self.model();
        let ghost j0 = object@;
        let ghost ctx = self.context@;
        let ghost att = self.attach_point@;
        if let Some(m) = object.as_object() {
            // The names of an object differ.
            let _n: usize = m.len();
        }
        proof {
            child_keys_differ(j0);
            assert(ks.take(0) =~= Seq::empty());
        }
        let mut i: usize = 0;
        while i < keys.len()
            invariant
                i <= keys@.len(),
                ks == json::texts(keys@),
                different(ks),
                u.finite(),
                all_in(ctx, u),
                self.context@ == ctx,
                self.attach_point@ == att,
                within(object@, u),
                depth(u, s0.seen, j0, ctx) <= h,
                depth(u, self.model().seen, object@, ctx) <= depth(u, s0.seen, j0, ctx),
                room(u, self.model().seen, ctx) <= room(u, s0.seen, ctx),
                unseen(u, self.model().seen) + self.model().seen.len() == unseen(u, s0.seen)
                    + s0.seen.len(),
                s0.seen.len() <= self.model().seen.len(),
                self.model().seen.len() == s0.seen.len() ==> clean(object@) || clean_up_to(
                    object@,
                    ks,
                    i as int,
                ),
                self.model().seen.len() == s0.seen.len() ==> recurse::is_container(object@)
                    == recurse::is_container(j0),
                clean(j0) ==> self.model() == s0 && object@ == j0,
                s0.changed ==> self.model().changed,
                !self.model().changed ==> self.model().seen.len() == s0.seen.len(),
                pass_keys(h, ks, 0, s0, j0, parent_path@, ctx, att) == pass_keys(
                    h,
                    ks,
                    i as nat,
                    self.model(),
                    object@,
                    parent_path@,
                    ctx,
                    att,
                ),
            decreases keys@.len() - i,
        {
            let key = keys[i].as_str();
            assert(ks[i as int] == key@);
            let ghost si = self.model();
            let ghost ji = object@;
            // The key may be gone with the container that it was in.
            if recurse::contains_key(object, key) {
                let encoded = common::encode_uri_component(jptr::jpescape(key).as_str());
                let path = text::cat3(parent_path, "/", encoded.as_str());
                if *key == *"$ref" {
                    proof {
                        inlined_is_bounded(si, ji, path@, ctx, att, u);
                    }
                    self.inline_ref(object, path.as_str());
                }
                let ghost s1 = self.model();
                let ghost j1 = object@;
                if let Some(child) = recurse::get_child_mut(object, key) {
                    let ghost c = child@;
                    proof {
                        grown(j1, key@, c);
                    }
                    if child.is_object() || child.is_array() {
                        proof {
                            within_child(j1, key@, u);
                            if clean(j1) {
                                clean_child(j1, key@);
                            }
                        }
                        self.inline(child, path.as_str(), Ghost((h - 1) as nat), Ghost(u));
                        proof {
                            grown(j1, key@, child@);
                            within_with_child(j1, key@, child@, u);
                            if self.model().seen.len() == s0.seen.len() {
                                if clean(j1) {
                                    clean_with_child(j1, key@, child@);
                                } else {
                                    clean_past_child(j1, ks, i as int, child@);
                                }
                            }
                            if child@ == c {
                                recurse::same_child(j1, key@);
                            }
                        }
                    } else {
                        proof {
                            recurse::same_child(j1, key@);
                            if s1.seen.len() == s0.seen.len() && !clean(j1) {
                                clean_past_leaf(j1, ks, i as int);
                            }
                        }
                    }
                } else {
                    proof {
                        if s1.seen.len() == s0.seen.len() && !clean(j1) {
                            clean_past_leaf(j1, ks, i as int);
                        }
                    }
                }
            } else {
                proof {
                    if si.seen.len() == s0.seen.len() && !clean(ji) {
                        assert(recurse::child_at(ji, ks[i as int]) is None);
                        if let Json::Object(m) = ji {
                            laws::index_found(m, ks[i as int], 0);
                            assert(m[i as int].0 == json::keys(m)[i as int]);
                        }
                        if let Json::Array(_) = ji {
                            path_laws::decimal_spells(i as nat);
                        }
                    }
                }
            }
            i += 1;
        }
        proof {
            if self.model().seen.len() == s0.seen.len() && !clean(object@) {
                clean_throughout(object@, ks);
            }
        }
    }
}

/// The passes that are left at most: two for each reference that is not seen, and
/// one more unless the value is clean.
spec fn passes_left(u: Set<Text>, seen: Seq<(Text, Text)>, j: Json) -> nat {
    2 * unseen(u, seen) + if clean(j) {
        0nat
    } else {
        1
    }
}

/// Resolve the internal `$ref`s of an inlined external fragment.
///
/// A first-seen internal ref is replaced by a clone of its target. A repeat ref
/// becomes a pointer into the already-placed copy, anchored at `attach_point`. No
/// other internal ref is left.
pub fn resolve_all_internal(obj: &mut JsonValue, context: &JsonValue, attach_point: &str)
    ensures
        final(obj)@ == internally_resolved(old(obj)@, context@, attach_point@),
        clean(marked(old(obj)@, context@, attach_point@)),
{
    let ghost j0 = obj@;
    let ghost u = references(j0, context@);
    let ghost h = depth(u, Seq::empty(), j0, context@);
    let ghost mut n: nat = 2 * u.len() + 1;
    let mut inliner = Inliner { context, attach_point, seen: Vec::new(), changed: false };
    let mut more = true;
    proof {
        strings_are_finite(j0);
        strings_are_finite(context@);
        strings_are_in(j0, u);
        all_in_is_within(j0, u);
        strings_are_in(context@, u);
        assert(places(inliner.seen@) =~= Seq::empty());
        assert(u.difference(seen_refs(Seq::empty())) =~= u);
    }
    while more
        invariant
            j0 == old(obj)@,
            u == references(j0, context@),
            h == depth(u, Seq::empty(), j0, context@),
            u.finite(),
            all_in(context@, u),
            within(obj@, u),
            inliner.context@ == context@,
            inliner.attach_point@ == attach_point@,
            depth(u, inliner.model().seen, obj@, context@) <= h,
            more ==> passes_left(u, inliner.model().seen, obj@) <= n,
            !more ==> clean(obj@),
            passes(2 * u.len() + 1, h, Seq::empty(), j0, context@, attach_point@) == (if more {
                passes(n, h, inliner.model().seen, obj@, context@, attach_point@)
            } else {
                obj@
            }),
        decreases
                if more {
                    n + 1
                } else {
                    0nat
                },
    {
        inliner.changed = false;
        inliner.inline(obj, "#", Ghost(h), Ghost(u));
        more = inliner.changed;
        proof {
            if more {
                n = (n - 1) as nat;
            }
        }
    }
    // Drop the temporary $fixed markers.
    let mut unmarker = Unmarker {  };
    recurse(obj, "#", &mut unmarker);
}

} // verus!
