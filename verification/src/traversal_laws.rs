//! Laws of traversal.

use vstd::prelude::*;

use crate::inlining;
use crate::jptr::{self, Target};
use crate::json::{self, Json, Text};
use crate::laws;
use crate::path_laws;
use crate::recurse::{self, Visitor};
use crate::text;

verus! {

// --- places ----------------------------------------------------------------

/// What is found below `j` under some keys.
pub open spec fn descend(j: Json, keys: Seq<Text>) -> Option<Json>
    decreases keys.len(),
{
    if keys.len() == 0 {
        Some(j)
    } else {
        match descend(j, keys.drop_last()) {
            Some(c) => recurse::child_at(c, keys.last()),
            None => None,
        }
    }
}

/// Whether each key is one of the value that the keys before it lead to.
pub open spec fn is_place(j: Json, keys: Seq<Text>) -> bool
    decreases keys.len(),
{
    keys.len() == 0 || (is_place(j, keys.drop_last()) && match descend(j, keys.drop_last()) {
        Some(c) => recurse::child_keys(c).contains(keys.last()),
        None => false,
    })
}

/// Every key at every depth of a value of at most `h` levels, each with the keys that
/// lead to it: a key before those below it, and the keys of one value in their order.
pub open spec fn places(h: nat, j: Json, at: Seq<Text>) -> Seq<Seq<Text>>
    decreases h, 1nat, 0nat,
{
    places_under(h, recurse::child_keys(j), 0, j, at)
}

/// The places under the keys from position `i` on.
pub open spec fn places_under(h: nat, ks: Seq<Text>, i: nat, j: Json, at: Seq<Text>) -> Seq<
    Seq<Text>,
>
    decreases h, 0nat, ks.len() - i,
{
    if i >= ks.len() {
        Seq::empty()
    } else {
        let here = at.push(ks[i as int]);
        let below = match recurse::child_at(j, ks[i as int]) {
            Some(c) => if recurse::is_container(c) && h > 0 {
                places((h - 1) as nat, c, here)
            } else {
                Seq::empty()
            },
            None => Seq::empty(),
        };
        seq![here] + below + places_under(h, ks, i + 1, j, at)
    }
}

/// Every key at every depth of a value.
pub open spec fn all_places(j: Json) -> Seq<Seq<Text>> {
    places(json::height(j), j, Seq::empty())
}

/// Whether every object of a document has distinct names and every array no more
/// elements than an index can count.
pub open spec fn addressable(j: Json) -> bool
    decreases j,
{
    match j {
        Json::Array(a) => a.len() <= i64::MAX && forall|i: int|
            0 <= i < a.len() ==> addressable(#[trigger] a[i]),
        Json::Object(m) => json::distinct(m) && forall|i: int|
            0 <= i < m.len() ==> addressable((#[trigger] m[i]).1),
        _ => true,
    }
}

/// A child is addressable and lower, and a pointer finds it under its key.
proof fn addressable_child(j: Json, key: Text)
    requires
        addressable(j),
        recurse::child_keys(j).contains(key),
    ensures
        recurse::child_at(j, key) matches Some(c) && addressable(c) && json::height(c)
            < json::height(j),
        jptr::child(j, key) == recurse::child_at(j, key),
{
    let ks = recurse::child_keys(j);
    let q = choose|q: int| 0 <= q < ks.len() && ks[q] == key;
    inlining::child_under(j, q);
    match j {
        Json::Array(a) => {
            assert(addressable(a[q]));
            laws::element_is_lower(a, q);
            path_laws::decimal_is_index(q as nat);
        },
        Json::Object(m) => {
            assert(addressable(m[q].1));
            laws::member_is_lower(m, key);
        },
        _ => {},
    }
}

/// What a place leads to is there, and addressable.
proof fn place_is_found(j: Json, keys: Seq<Text>)
    requires
        addressable(j),
        is_place(j, keys),
    ensures
        descend(j, keys) matches Some(c) && addressable(c),
    decreases keys.len(),
{
    if keys.len() > 0 {
        place_is_found(j, keys.drop_last());
        addressable_child(descend(j, keys.drop_last())->0, keys.last());
    }
}

/// The keys that lead to a place are places.
proof fn place_of_fewer(j: Json, keys: Seq<Text>, n: int)
    requires
        is_place(j, keys),
        0 <= n <= keys.len(),
    ensures
        is_place(j, keys.take(n)),
    decreases keys.len(),
{
    if n < keys.len() {
        place_of_fewer(j, keys.drop_last(), n);
        assert(keys.drop_last().take(n) =~= keys.take(n));
    } else {
        assert(keys.take(n) =~= keys);
    }
}

// --- visits ----------------------------------------------------------------

/// The visitor after visits of the places from position `i` on.
pub open spec fn run<V: Visitor>(s: V::State, root: Json, all: Seq<Seq<Text>>, i: nat) -> V::State
    decreases all.len() - i,
{
    if i >= all.len() {
        s
    } else {
        let keys = all[i as int];
        let container = descend(root, keys.drop_last())->0;
        run::<V>(
            V::visited(s, container, keys.last(), path_laws::path_of(keys)).0,
            root,
            all,
            i + 1,
        )
    }
}

/// A run over two lists is a run over the one, then over the other.
proof fn run_of_two<V: Visitor>(
    s: V::State,
    root: Json,
    a: Seq<Seq<Text>>,
    b: Seq<Seq<Text>>,
    i: nat,
)
    requires
        i <= a.len(),
    ensures
        run::<V>(s, root, a + b, i) == run::<V>(run::<V>(s, root, a, i), root, b, 0),
    decreases a.len() - i,
{
    if i < a.len() {
        assert((a + b)[i as int] == a[i as int]);
        let keys = a[i as int];
        let container = descend(root, keys.drop_last())->0;
        let s1 = V::visited(s, container, keys.last(), path_laws::path_of(keys)).0;
        run_of_two::<V>(s1, root, a, b, i + 1);
    } else {
        run_shifted::<V>(s, root, a, b, 0);
    }
}

proof fn run_shifted<V: Visitor>(
    s: V::State,
    root: Json,
    a: Seq<Seq<Text>>,
    b: Seq<Seq<Text>>,
    i: nat,
)
    requires
        i <= b.len(),
    ensures
        run::<V>(s, root, a + b, a.len() + i) == run::<V>(s, root, b, i),
    decreases b.len() - i,
{
    if i < b.len() {
        assert((a + b)[(a.len() + i) as int] == b[i as int]);
        let keys = b[i as int];
        let container = descend(root, keys.drop_last())->0;
        let s1 = V::visited(s, container, keys.last(), path_laws::path_of(keys)).0;
        run_shifted::<V>(s1, root, a, b, i + 1);
    }
}

/// Whether a visitor leaves every container as it is.
pub open spec fn only_reads<V: Visitor>() -> bool {
    forall|s: V::State, c: Json, key: Text, path: Text|
        (#[trigger] V::visited(s, c, key, path)).1 == c
}

proof fn keys_are_visited<V: Visitor>(
    h: nat,
    ks: Seq<Text>,
    i: nat,
    s: V::State,
    j: Json,
    at: Seq<Text>,
    root: Json,
)
    requires
        only_reads::<V>(),
        addressable(j),
        ks == recurse::child_keys(j),
        descend(root, at) == Some(j),
    ensures
        recurse::traverse_keys::<V>(h, ks, i, s, j, path_laws::path_of(at)) == (
            run::<V>(s, root, places_under(h, ks, i, j, at), 0),
            j,
        ),
    decreases h, ks.len() - i,
{
    if i < ks.len() {
        let key = ks[i as int];
        let here = at.push(key);
        assert(ks.contains(key));
        addressable_child(j, key);
        let c = recurse::child_at(j, key)->0;
        assert(here.drop_last() =~= at);
        let path = path_laws::path_of(at);
        let p = recurse::child_path(path, key);
        assert(path_laws::path_of(here) == p);
        let s1 = V::visited(s, j, key, p).0;
        assert(V::visited(s, j, key, p).1 == j);
        let one = seq![here];
        let later = places_under(h, ks, i + 1, j, at);
        let goal = places_under(h, ks, i, j, at);
        let walk = recurse::traverse_keys::<V>(h, ks, i, s, j, path);
        assert(run::<V>(s, root, one, 0) == s1) by {
            reveal_with_fuel(run, 2);
        }
        if recurse::is_container(c) && h > 0 {
            let d = (h - 1) as nat;
            let below = places(d, c, here);
            assert(descend(root, here) == Some(c));
            keys_are_visited::<V>(d, recurse::child_keys(c), 0, s1, c, here, root);
            recurse::same_child(j, key);
            let s2 = run::<V>(s1, root, below, 0);
            assert(recurse::traverse::<V>(d, s1, c, p) == (s2, c));
            assert(recurse::with_child(j, key, c) == j);
            keys_are_visited::<V>(h, ks, i + 1, s2, j, at, root);
            run_of_two::<V>(s, root, one + below, later, 0);
            run_of_two::<V>(s, root, one, below, 0);
            assert(goal == one + below + later);
            assert(walk == recurse::traverse_keys::<V>(h, ks, i + 1, s2, j, path));
        } else {
            let below = Seq::<Seq<Text>>::empty();
            keys_are_visited::<V>(h, ks, i + 1, s1, j, at, root);
            run_of_two::<V>(s, root, one + below, later, 0);
            assert(one + below =~= one);
            assert(goal == one + below + later);
            assert(walk == recurse::traverse_keys::<V>(h, ks, i + 1, s1, j, path));
        }
    } else {
        assert(places_under(h, ks, i, j, at) == Seq::<Seq<Text>>::empty());
    }
}

/// A traversal by a visitor that only reads visits each key at every depth, in the order
/// of the places, with the container that holds the key and the path of the place. It
/// leaves the document as it is.
pub proof fn traversal_visits_places<V: Visitor>(s: V::State, j: Json)
    requires
        only_reads::<V>(),
        addressable(j),
    ensures
        recurse::recursed::<V>(s, j, "#"@) == (run::<V>(s, j, all_places(j), 0), j),
{
    keys_are_visited::<V>(
        json::height(j),
        recurse::child_keys(j),
        0,
        s,
        j,
        Seq::empty(),
        j,
    );
}

// --- each key once ---------------------------------------------------------

/// Whether keys go on from `at` with one of the keys `ks` from position `i` on.
spec fn goes_on(keys: Seq<Text>, at: Seq<Text>, ks: Seq<Text>, i: nat) -> bool {
    &&& keys.len() > at.len()
    &&& keys.take(at.len() as int) == at
    &&& exists|k: int| i <= k < ks.len() && #[trigger] ks[k] == keys[at.len() as int]
}

/// What holds of each of the places under some keys.
spec fn listed_well(all: Seq<Seq<Text>>, at: Seq<Text>, ks: Seq<Text>, i: nat, root: Json) -> bool {
    &&& forall|q: int|
        0 <= q < all.len() ==> goes_on(#[trigger] all[q], at, ks, i) && is_place(root, all[q])
    &&& all.no_duplicates()
    &&& forall|q: int|
        0 <= q < all.len() && (#[trigger] all[q]).len() > at.len() + 1 ==> has_before(
            all,
            q,
            all[q].drop_last(),
        )
}

/// Whether keys are listed before position `q`.
pub open spec fn has_before(all: Seq<Seq<Text>>, q: int, keys: Seq<Text>) -> bool {
    exists|p: int| 0 <= p < q && p < all.len() && #[trigger] all[p] == keys
}

proof fn places_are_listed_well(h: nat, ks: Seq<Text>, i: nat, j: Json, at: Seq<Text>, root: Json)
    requires
        addressable(j),
        ks == recurse::child_keys(j),
        descend(root, at) == Some(j),
        is_place(root, at),
    ensures
        listed_well(places_under(h, ks, i, j, at), at, ks, i, root),
    decreases h, ks.len() - i,
{
    if i < ks.len() {
        let key = ks[i as int];
        let here = at.push(key);
        assert(ks.contains(key));
        addressable_child(j, key);
        let c = recurse::child_at(j, key)->0;
        assert(here.drop_last() =~= at);
        assert(here.take(at.len() as int) =~= at);
        assert(is_place(root, here));
        assert(descend(root, here) == Some(c));
        let cks = recurse::child_keys(c);
        let below = if recurse::is_container(c) && h > 0 {
            places((h - 1) as nat, c, here)
        } else {
            Seq::empty()
        };
        if recurse::is_container(c) && h > 0 {
            places_are_listed_well((h - 1) as nat, cks, 0, c, here, root);
        } else {
            assert(listed_well(below, here, cks, 0, root));
        }
        let later = places_under(h, ks, i + 1, j, at);
        places_are_listed_well(h, ks, i + 1, j, at, root);
        joined_well(at, ks, i, here, below, later, cks, root, j);
    } else {
        assert(listed_well(Seq::<Seq<Text>>::empty(), at, ks, i, root));
    }
}

/// A place, those below it and those under later keys make a list.
proof fn joined_well(
    at: Seq<Text>,
    ks: Seq<Text>,
    i: nat,
    here: Seq<Text>,
    below: Seq<Seq<Text>>,
    later: Seq<Seq<Text>>,
    cks: Seq<Text>,
    root: Json,
    j: Json,
)
    requires
        i < ks.len(),
        addressable(j),
        ks == recurse::child_keys(j),
        here == at.push(ks[i as int]),
        is_place(root, here),
        listed_well(below, here, cks, 0, root),
        listed_well(later, at, ks, i + 1, root),
    ensures
        listed_well(seq![here] + below + later, at, ks, i, root),
{
    let all = seq![here] + below + later;
    let n = below.len() as int;
    let a = at.len() as int;
    inlining::child_keys_differ(j);
    assert(all[0] == here);
    assert forall|q: int| 0 <= q < n implies #[trigger] all[1 + q] == below[q] by {}
    assert forall|q: int| 0 <= q < later.len() implies #[trigger] all[1 + n + q] == later[q] by {}
    assert(here.take(a) =~= at);
    assert(goes_on(here, at, ks, i)) by {
        assert(ks[i as int] == here[a]);
    }
    assert forall|q: int| 0 <= q < n implies {
        &&& goes_on(#[trigger] below[q], at, ks, i)
        &&& below[q][a] == ks[i as int]
        &&& below[q].len() > here.len()
    } by {
        assert(goes_on(below[q], here, cks, 0));
        assert(below[q].take(a + 1)[a] == here[a]);
        assert(below[q].take(a) =~= here.take(a)) by {
            assert forall|k: int| 0 <= k < a implies below[q][k] == here[k] by {
                assert(below[q].take(a + 1)[k] == here[k]);
            }
        }
        assert(ks[i as int] == below[q][a]);
    }
    assert forall|q: int| 0 <= q < later.len() implies {
        &&& goes_on(#[trigger] later[q], at, ks, i)
        &&& later[q][a] != ks[i as int]
    } by {
        assert(goes_on(later[q], at, ks, i + 1));
        let k = choose|k: int| i + 1 <= k < ks.len() && #[trigger] ks[k] == later[q][a];
        assert(ks[i as int] != ks[k]);
        assert(i <= k);
    }
    assert forall|q: int| 0 <= q < all.len() implies goes_on(#[trigger] all[q], at, ks, i)
        && is_place(root, all[q]) by {
        if 0 < q <= n {
            assert(all[q] == below[q - 1]);
        } else if q > n {
            assert(all[q] == later[q - n - 1]);
        }
    }
    assert forall|p: int, q: int| 0 <= p < all.len() && 0 <= q < all.len() && p != q implies all[p]
        != all[q] by {
        no_equal_pair(here, below, later, a, ks[i as int], p, q);
    }
    assert(all.no_duplicates());
    assert forall|q: int|
        0 <= q < all.len() && (#[trigger] all[q]).len() > at.len() + 1 implies has_before(
        all,
        q,
        all[q].drop_last(),
    ) by {
        if 0 < q <= n {
            assert(all[q] == below[q - 1]);
            if below[q - 1].len() > here.len() + 1 {
                assert(has_before(below, q - 1, below[q - 1].drop_last()));
                let p = choose|p: int|
                    0 <= p < q - 1 && p < below.len() && #[trigger] below[p]
                        == below[q - 1].drop_last();
                assert(all[1 + p] == below[p]);
            } else {
                assert(goes_on(below[q - 1], here, cks, 0));
                assert(below[q - 1].drop_last() =~= below[q - 1].take(a + 1));
                assert(all[0] == here);
            }
        } else if q > n {
            let r = q - n - 1;
            assert(all[q] == later[r]);
            assert(has_before(later, r, later[r].drop_last()));
            let p = choose|p: int|
                0 <= p < r && p < later.len() && #[trigger] later[p] == later[r].drop_last();
            assert(all[1 + n + p] == later[p]);
        }
    }
}

proof fn no_equal_pair(
    here: Seq<Text>,
    below: Seq<Seq<Text>>,
    later: Seq<Seq<Text>>,
    a: int,
    key: Text,
    p: int,
    q: int,
)
    requires
        below.no_duplicates(),
        later.no_duplicates(),
        0 <= a < here.len(),
        here[a] == key,
        forall|k: int|
            0 <= k < below.len() ==> (#[trigger] below[k]).len() > here.len() && below[k][a] == key,
        forall|k: int| 0 <= k < later.len() ==> (#[trigger] later[k])[a] != key,
        0 <= p < 1 + below.len() + later.len(),
        0 <= q < 1 + below.len() + later.len(),
        p != q,
    ensures
        (seq![here] + below + later)[p] != (seq![here] + below + later)[q],
{
    let all = seq![here] + below + later;
    let n = below.len() as int;
    if p > n {
        assert(all[p] == later[p - n - 1]);
    } else if p > 0 {
        assert(all[p] == below[p - 1]);
    }
    if q > n {
        assert(all[q] == later[q - n - 1]);
    } else if q > 0 {
        assert(all[q] == below[q - 1]);
    }
}

/// Whether `x` stands before `y` in a list of keys.
pub open spec fn stands_before(ks: Seq<Text>, x: Text, y: Text) -> bool {
    exists|a: int, b: int| 0 <= a < b < ks.len() && #[trigger] ks[a] == x && #[trigger] ks[b] == y
}

/// Whether the places `x` and `y` are of one value and the key of `x` stands before that
/// of `y`.
pub open spec fn in_order(root: Json, x: Seq<Text>, y: Seq<Text>) -> bool {
    x.drop_last() == y.drop_last() ==> match descend(root, x.drop_last()) {
        Some(c) => stands_before(recurse::child_keys(c), x.last(), y.last()),
        None => false,
    }
}

proof fn places_are_in_order(h: nat, ks: Seq<Text>, i: nat, j: Json, at: Seq<Text>, root: Json)
    requires
        addressable(j),
        ks == recurse::child_keys(j),
        descend(root, at) == Some(j),
        is_place(root, at),
    ensures
        ({
            let all = places_under(h, ks, i, j, at);
            forall|p: int, q: int|
                0 <= p < q < all.len() ==> in_order(root, #[trigger] all[p], #[trigger] all[q])
        }),
    decreases h, ks.len() - i,
{
    if i < ks.len() {
        let key = ks[i as int];
        let here = at.push(key);
        let a = at.len() as int;
        assert(ks.contains(key));
        addressable_child(j, key);
        let c = recurse::child_at(j, key)->0;
        assert(here.drop_last() =~= at);
        assert(is_place(root, here));
        assert(descend(root, here) == Some(c));
        let cks = recurse::child_keys(c);
        let below = if recurse::is_container(c) && h > 0 {
            places((h - 1) as nat, c, here)
        } else {
            Seq::empty()
        };
        if recurse::is_container(c) && h > 0 {
            places_are_in_order((h - 1) as nat, cks, 0, c, here, root);
            places_are_listed_well((h - 1) as nat, cks, 0, c, here, root);
        }
        let later = places_under(h, ks, i + 1, j, at);
        places_are_in_order(h, ks, i + 1, j, at, root);
        places_are_listed_well(h, ks, i + 1, j, at, root);
        let all = seq![here] + below + later;
        assert(all == places_under(h, ks, i, j, at));
        inlining::child_keys_differ(j);
        let n = below.len() as int;
        assert forall|p: int, q: int| 0 <= p < q < all.len() implies in_order(
            root,
            #[trigger] all[p],
            #[trigger] all[q],
        ) by {
            if q > n {
                let r = q - n - 1;
                assert(all[q] == later[r]);
                assert(goes_on(later[r], at, ks, i + 1));
                let k = choose|k: int| i + 1 <= k < ks.len() && #[trigger] ks[k] == later[r][a];
                assert(ks[i as int] != ks[k]);
                if p == 0 {
                    if here.drop_last() == later[r].drop_last() {
                        assert(later[r].last() == later[r][a]);
                        assert(ks[i as int] == here.last() && ks[k] == later[r].last());
                        assert(stands_before(ks, here.last(), later[r].last()));
                    }
                } else if p <= n {
                    assert(all[p] == below[p - 1]);
                    assert(goes_on(below[p - 1], here, cks, 0));
                    assert(below[p - 1].take(a + 1)[a] == here[a]);
                    if below[p - 1].drop_last() == later[r].drop_last() {
                        assert(below[p - 1].drop_last()[a] == later[r].drop_last()[a]);
                    }
                } else {
                    assert(all[p] == later[p - n - 1]);
                }
            } else {
                assert(all[q] == below[q - 1]);
                assert(goes_on(below[q - 1], here, cks, 0));
                if p == 0 {
                    assert(here.drop_last().len() != below[q - 1].drop_last().len());
                } else {
                    assert(all[p] == below[p - 1]);
                }
            }
        }
    }
}

proof fn every_place_is_listed(
    h: nat,
    ks: Seq<Text>,
    i: nat,
    j: Json,
    at: Seq<Text>,
    root: Json,
    keys: Seq<Text>,
)
    requires
        addressable(j),
        json::height(j) <= h,
        ks == recurse::child_keys(j),
        descend(root, at) == Some(j),
        is_place(root, keys),
        goes_on(keys, at, ks, i),
    ensures
        places_under(h, ks, i, j, at).contains(keys),
    decreases h, ks.len() - i,
{
    let a = at.len() as int;
    let k = choose|k: int| i <= k < ks.len() && #[trigger] ks[k] == keys[a];
    let key = ks[i as int];
    let here = at.push(key);
    assert(ks.contains(key));
    addressable_child(j, key);
    let c = recurse::child_at(j, key)->0;
    let below = if recurse::is_container(c) && h > 0 {
        places((h - 1) as nat, c, here)
    } else {
        Seq::empty()
    };
    let later = places_under(h, ks, i + 1, j, at);
    let all = seq![here] + below + later;
    assert(all == places_under(h, ks, i, j, at));
    if k == i {
        if keys.len() == a + 1 {
            assert(keys =~= here) by {
                assert forall|q: int| 0 <= q < a implies keys[q] == at[q] by {
                    assert(keys.take(a)[q] == at[q]);
                }
            }
            assert(all[0] == keys);
        } else {
            assert(keys.take(a + 1) =~= here) by {
                assert forall|q: int| 0 <= q < a implies keys[q] == at[q] by {
                    assert(keys.take(a)[q] == at[q]);
                }
            }
            assert(here.drop_last() =~= at);
            assert(descend(root, here) == Some(c));
            place_of_fewer(root, keys, a + 2);
            assert(keys.take(a + 2).drop_last() =~= here);
            assert(keys.take(a + 2).last() == keys[a + 1]);
            let cks = recurse::child_keys(c);
            assert(cks.contains(keys[a + 1]));
            let r = choose|r: int| 0 <= r < cks.len() && cks[r] == keys[a + 1];
            assert(recurse::is_container(c));
            assert(goes_on(keys, here, cks, 0)) by {
                assert(cks[r] == keys[here.len() as int]);
            }
            every_place_is_listed((h - 1) as nat, cks, 0, c, here, root, keys);
            let q = choose|q: int| 0 <= q < below.len() && below[q] == keys;
            assert(all[1 + q] == keys);
        }
    } else {
        assert(goes_on(keys, at, ks, i + 1)) by {
            assert(i + 1 <= k && ks[k] == keys[a]);
        }
        every_place_is_listed(h, ks, i + 1, j, at, root, keys);
        let q = choose|q: int| 0 <= q < later.len() && later[q] == keys;
        assert(all[1 + below.len() + q] == keys);
    }
}

/// The places of a document are its keys at every depth, each once, behind the key that
/// holds it, and behind the keys before it in the same value. A value that is no container has none.
pub proof fn places_are_the_keys(j: Json, keys: Seq<Text>)
    requires
        addressable(j),
        keys.len() > 0,
    ensures
        all_places(j).contains(keys) == is_place(j, keys),
        all_places(j).no_duplicates(),
        forall|q: int|
            0 <= q < all_places(j).len() ==> (#[trigger] all_places(j)[q]).len() > 0 && is_place(
                j,
                all_places(j)[q],
            ),
        forall|q: int|
            0 <= q < all_places(j).len() && (#[trigger] all_places(j)[q]).len() > 1 ==> has_before(
                all_places(j),
                q,
                all_places(j)[q].drop_last(),
            ),
        forall|p: int, q: int|
            0 <= p < q < all_places(j).len() ==> in_order(
                j,
                #[trigger] all_places(j)[p],
                #[trigger] all_places(j)[q],
            ),
        !recurse::is_container(j) ==> all_places(j).len() == 0,
{
    let e = Seq::<Text>::empty();
    let ks = recurse::child_keys(j);
    let all = all_places(j);
    places_are_listed_well(json::height(j), ks, 0, j, e, j);
    places_are_in_order(json::height(j), ks, 0, j, e, j);
    assert forall|q: int| 0 <= q < all.len() implies (#[trigger] all[q]).len() > 0 && is_place(
        j,
        all[q],
    ) by {
        assert(goes_on(all[q], e, ks, 0));
    }
    if is_place(j, keys) {
        place_of_fewer(j, keys, 1);
        assert(keys.take(1).drop_last() =~= e);
        assert(keys.take(1).last() == keys[0]);
        let k = choose|k: int| 0 <= k < ks.len() && ks[k] == keys[0];
        assert(keys.take(0) =~= e);
        assert(goes_on(keys, e, ks, 0)) by {
            assert(ks[k] == keys[0]);
        }
        every_place_is_listed(json::height(j), ks, 0, j, e, j, keys);
    }
    if all.contains(keys) {
        let q = choose|q: int| 0 <= q < all.len() && all[q] == keys;
        assert(is_place(j, all[q]));
    }
}

// --- paths -----------------------------------------------------------------

/// A read along a place finds what the place leads to.
proof fn place_is_read(j: Json, keys: Seq<Text>, n: int)
    requires
        addressable(j),
        is_place(j, keys),
        0 <= n <= keys.len(),
    ensures
        descend(j, keys.take(n)) matches Some(c) && jptr::resolve(j, keys, 0) == jptr::resolve(
            c,
            keys,
            n,
        ),
    decreases n,
{
    if n > 0 {
        place_is_read(j, keys, n - 1);
        place_of_fewer(j, keys, n);
        place_of_fewer(j, keys, n - 1);
        place_is_found(j, keys.take(n - 1));
        assert(keys.take(n).drop_last() =~= keys.take(n - 1));
        assert(keys.take(n).last() == keys[n - 1]);
        addressable_child(descend(j, keys.take(n - 1))->0, keys[n - 1]);
    } else {
        assert(keys.take(0) =~= Seq::empty());
    }
}

/// The path of a place addresses it, unless the first of its several keys is empty.
proof fn place_has_path(j: Json, keys: Seq<Text>)
    requires
        addressable(j),
        is_place(j, keys),
        keys.len() > 0,
        j.member(Seq::empty()) matches Some(v) ==> !recurse::is_container(v),
    ensures
        jptr::target(path_laws::path_of(keys)) == Target::Path(keys),
        jptr::read(j, path_laws::path_of(keys)) == descend(j, keys),
        descend(j, keys) is Some,
{
    place_is_found(j, keys);
    if keys.len() > 1 {
        place_of_fewer(j, keys, 1);
        place_of_fewer(j, keys, 2);
        place_is_found(j, keys.take(1));
        assert(keys.take(1).drop_last() =~= Seq::empty());
        assert(keys.take(1).last() == keys[0]);
        assert(keys.take(2).drop_last() =~= keys.take(1));
        let c = descend(j, keys.take(1))->0;
        assert(recurse::child_keys(c).contains(keys.take(2).last()));
        assert(recurse::is_container(c));
        if keys[0].len() == 0 {
            assert(keys[0] =~= Seq::empty());
            if let Json::Array(a) = j {
                let ks = recurse::child_keys(j);
                let q = choose|q: int| 0 <= q < ks.len() && ks[q] == keys[0];
                path_laws::decimal_spells(q as nat);
            }
        }
    }
    path_laws::path_addresses_keys(keys);
    place_is_read(j, keys, keys.len() as int);
    assert(keys.take(keys.len() as int) =~= keys);
}

/// The path of each visit reads the value that is visited, and no two visits have the
/// same path. A document that has a container under an empty top-level name is left
/// out: the paths below that name address other values.
pub proof fn paths_read_places(j: Json)
    requires
        addressable(j),
        j.member(Seq::empty()) matches Some(v) ==> !recurse::is_container(v),
    ensures
        forall|q: int|
            0 <= q < all_places(j).len() ==> {
                let keys = #[trigger] all_places(j)[q];
                &&& descend(j, keys) is Some
                &&& jptr::read(j, path_laws::path_of(keys)) == descend(j, keys)
            },
        forall|p: int, q: int|
            0 <= p < q < all_places(j).len() ==> path_laws::path_of(#[trigger] all_places(j)[p])
                != path_laws::path_of(#[trigger] all_places(j)[q]),
{
    let all = all_places(j);
    let any = seq![Seq::<char>::empty()];
    places_are_the_keys(j, any);
    assert forall|q: int| 0 <= q < all.len() implies {
        let keys = #[trigger] all[q];
        &&& descend(j, keys) is Some
        &&& jptr::read(j, path_laws::path_of(keys)) == descend(j, keys)
    } by {
        place_has_path(j, all[q]);
    }
    assert forall|p: int, q: int| 0 <= p < q < all.len() implies path_laws::path_of(
        #[trigger] all[p],
    ) != path_laws::path_of(#[trigger] all[q]) by {
        place_has_path(j, all[p]);
        place_has_path(j, all[q]);
        assert(all[p] != all[q]);
    }
}

} // verus!
