//! Laws that relate several functions of the crate.

use vstd::prelude::*;

use crate::json::{self, Json, Members, Text};

verus! {

/// `index_from` finds the first member named `key`.
pub proof fn index_is_first(m: Members, key: Text, i: int, k: int)
    requires
        0 <= i <= k <= m.len(),
        forall|j: int| i <= j < k ==> (#[trigger] m[j]).0 != key,
        k < m.len() ==> m[k].0 == key,
    ensures
        json::index_from(m, key, i) == k,
    decreases m.len() - i,
{
    if i < k {
        index_is_first(m, key, i + 1, k);
    }
}

/// What `index_from` finds is the first member named `key`.
pub proof fn index_found(m: Members, key: Text, i: int)
    requires
        0 <= i <= m.len(),
    ensures
        i <= json::index_from(m, key, i) <= m.len(),
        forall|j: int| i <= j < json::index_from(m, key, i) ==> (#[trigger] m[j]).0 != key,
        json::index_from(m, key, i) < m.len() ==> m[json::index_from(m, key, i)].0 == key,
    decreases m.len() - i,
{
    if i < m.len() && m[i].0 != key {
        index_found(m, key, i + 1);
    }
}

/// A member that was set is read back.
pub proof fn lookup_after_insert(m: Members, key: Text, v: Json)
    ensures
        json::has_key(json::insert(m, key, v), key),
        json::lookup(json::insert(m, key, v), key) == Some(v),
        json::index_of(json::insert(m, key, v), key) == json::index_of(m, key),
{
    index_found(m, key, 0);
    let k = json::index_of(m, key);
    index_is_first(json::insert(m, key, v), key, 0, k);
}

/// Setting a member to the value that it has changes nothing.
pub proof fn insert_same(m: Members, key: Text)
    requires
        json::has_key(m, key),
    ensures
        json::insert(m, key, json::lookup(m, key)->0) == m,
{
    index_found(m, key, 0);
    assert(json::insert(m, key, json::lookup(m, key)->0) =~= m);
}

/// Setting a member leaves every other member alone.
pub proof fn lookup_insert_other(m: Members, key: Text, v: Json, other: Text)
    requires
        key != other,
    ensures
        json::lookup(json::insert(m, key, v), other) == json::lookup(m, other),
{
    let m2 = json::insert(m, key, v);
    index_found(m, key, 0);
    index_found(m, other, 0);
    let k = json::index_of(m, other);
    assert forall|j: int| 0 <= j < m.len() implies (#[trigger] m2[j]).0 == m[j].0 by {}
    if k < m.len() {
        index_is_first(m2, other, 0, k);
        assert(m2[k] == m[k]);
    } else {
        index_is_first(m2, other, 0, m2.len() as int);
    }
}

/// Dropping a member leaves every other member alone.
pub proof fn lookup_remove_other(m: Members, key: Text, other: Text)
    requires
        key != other,
        json::distinct(m),
    ensures
        json::lookup(json::remove(m, key), other) == json::lookup(m, other),
{
    index_found(m, key, 0);
    index_found(m, other, 0);
    if json::has_key(m, key) {
        let m2 = json::remove(m, key);
        let i = json::index_of(m, key);
        let k = json::index_of(m, other);
        let last = m.len() - 1;
        assert forall|j: int| 0 <= j < last implies #[trigger] m2[j] == (if j == i {
            m[last]
        } else {
            m[j]
        }) by {}
        if k < last {
            index_is_first(m2, other, 0, k);
        } else if k == last {
            index_is_first(m2, other, 0, i);
        } else {
            index_is_first(m2, other, 0, last);
        }
    }
}

/// A dropped member is gone.
pub proof fn lookup_after_remove(m: Members, key: Text)
    requires
        json::distinct(m),
    ensures
        json::lookup(json::remove(m, key), key) is None,
{
    index_found(m, key, 0);
    if json::has_key(m, key) {
        let m2 = json::remove(m, key);
        let i = json::index_of(m, key);
        let last = m.len() - 1;
        assert forall|j: int| 0 <= j < last implies (#[trigger] m2[j]).0 != key by {
            assert(m2[j] == (if j == i {
                m[last]
            } else {
                m[j]
            }));
        }
        index_is_first(m2, key, 0, last);
    }
}

/// Setting a member keeps the names distinct.
pub proof fn insert_keeps_distinct(m: Members, key: Text, v: Json)
    requires
        json::distinct(m),
    ensures
        json::distinct(json::insert(m, key, v)),
{
    index_found(m, key, 0);
    let m2 = json::insert(m, key, v);
    assert forall|i: int, j: int| 0 <= i < j < m2.len() implies (#[trigger] m2[i]).0 != (
    #[trigger] m2[j]).0 by {
        assert(m2[i].0 == m[i].0);
        if j < m.len() {
            assert(m2[j].0 == m[j].0);
        }
    }
}

/// Dropping a member keeps the names distinct.
pub proof fn remove_keeps_distinct(m: Members, key: Text)
    requires
        json::distinct(m),
    ensures
        json::distinct(json::remove(m, key)),
{
    index_found(m, key, 0);
    if json::has_key(m, key) {
        let m2 = json::remove(m, key);
        let k = json::index_of(m, key);
        let last = m.len() - 1;
        assert forall|i: int, j: int| 0 <= i < j < m2.len() implies (#[trigger] m2[i]).0 != (
        #[trigger] m2[j]).0 by {
            assert(m2[i] == (if i == k {
                m[last]
            } else {
                m[i]
            }));
            assert(m2[j] == (if j == k {
                m[last]
            } else {
                m[j]
            }));
        }
    }
}

/// Of two values set under one name the second stays.
pub broadcast proof fn insert_twice(m: Members, key: Text, a: Json, b: Json)
    ensures
        #[trigger] json::insert(json::insert(m, key, a), key, b) == json::insert(m, key, b),
{
    lookup_after_insert(m, key, a);
    index_found(m, key, 0);
    assert(json::insert(json::insert(m, key, a), key, b) =~= json::insert(m, key, b));
}

/// The name of a member is new among the members before it, when no two share a
/// name.
pub proof fn new_name(m: Members, i: int)
    requires
        0 <= i < m.len(),
        json::distinct(m),
    ensures
        !json::has_key(m.take(i), m[i].0),
{
    let t = m.take(i);
    index_found(t, m[i].0, 0);
    if json::has_key(t, m[i].0) {
        let k = json::index_of(t, m[i].0);
        assert(t[k] == m[k]);
    }
}

// --- absent members --------------------------------------------------------

/// Setting another member brings no absent one.
pub proof fn with_brings_no_other(j: Json, key: Text, v: Json, other: Text)
    requires
        key != other,
    ensures
        j.with(key, v).member(other) == j.member(other),
{
    lookup_insert_other(j.members(), key, v, other);
}

/// Dropping a member brings no absent one.
pub proof fn remove_brings_none(m: Members, key: Text, other: Text)
    requires
        json::lookup(m, other) is None,
    ensures
        json::lookup(json::remove(m, key), other) is None,
{
    index_found(m, key, 0);
    index_found(m, other, 0);
    if json::has_key(m, key) {
        let m2 = json::remove(m, key);
        let i = json::index_of(m, key);
        let last = m.len() - 1;
        assert forall|j: int| 0 <= j < last implies (#[trigger] m2[j]).0 != other by {
            assert(m2[j] == (if j == i {
                m[last]
            } else {
                m[j]
            }));
        }
        index_is_first(m2, other, 0, last);
    }
}

// --- height ----------------------------------------------------------------

/// The height of elements is the least bound on their heights.
pub proof fn elements_height_bound(a: Seq<Json>, i: nat, n: nat)
    ensures
        json::elements_height(a, i) <= n <==> forall|k: int|
            i <= k < a.len() ==> json::height(#[trigger] a[k]) <= n,
    decreases a.len() - i,
{
    if i < a.len() {
        elements_height_bound(a, i + 1, n);
        if json::elements_height(a, i) <= n {
            assert forall|k: int| i <= k < a.len() implies json::height(#[trigger] a[k]) <= n by {
                if k > i {
                    assert(i + 1 <= k < a.len());
                }
            }
        }
    }
}

/// The height of members is the least bound on their heights.
pub proof fn members_height_bound(m: Members, i: nat, n: nat)
    ensures
        json::members_height(m, i) <= n <==> forall|k: int|
            i <= k < m.len() ==> json::height((#[trigger] m[k]).1) <= n,
    decreases m.len() - i,
{
    if i < m.len() {
        members_height_bound(m, i + 1, n);
        if json::members_height(m, i) <= n {
            assert forall|k: int| i <= k < m.len() implies json::height((#[trigger] m[k]).1)
                <= n by {
                if k > i {
                    assert(i + 1 <= k < m.len());
                }
            }
        }
    }
}

/// An element is lower than its array.
pub proof fn element_is_lower(a: Seq<Json>, k: int)
    requires
        0 <= k < a.len(),
    ensures
        json::height(a[k]) < json::height(Json::Array(a)),
{
    elements_height_bound(a, 0, json::elements_height(a, 0));
}

/// A member is lower than its object.
pub proof fn member_is_lower(m: Members, key: Text)
    requires
        json::has_key(m, key),
    ensures
        json::height(json::lookup(m, key)->0) < json::height(Json::Object(m)),
{
    index_found(m, key, 0);
    members_height_bound(m, 0, json::members_height(m, 0));
}

/// An object whose member becomes no higher becomes no higher.
pub proof fn insert_keeps_height(m: Members, key: Text, v: Json)
    requires
        json::height(v) < json::height(Json::Object(m)),
    ensures
        json::height(Json::Object(json::insert(m, key, v))) <= json::height(Json::Object(m)),
{
    let n = json::members_height(m, 0);
    let m2 = json::insert(m, key, v);
    index_found(m, key, 0);
    members_height_bound(m, 0, n);
    assert forall|k: int| 0 <= k < m2.len() implies json::height((#[trigger] m2[k]).1) <= n by {
        if k < m.len() && k != json::index_of(m, key) {
            assert(m2[k] == m[k]);
        }
    }
    members_height_bound(m2, 0, n);
}

/// Dropping a member makes no object higher.
pub proof fn remove_keeps_height(m: Members, key: Text)
    ensures
        json::height(Json::Object(json::remove(m, key))) <= json::height(Json::Object(m)),
{
    let n = json::members_height(m, 0);
    let m2 = json::remove(m, key);
    index_found(m, key, 0);
    members_height_bound(m, 0, n);
    assert forall|k: int| 0 <= k < m2.len() implies json::height((#[trigger] m2[k]).1) <= n by {
        if json::has_key(m, key) {
            if k == json::index_of(m, key) {
                assert(m2[k] == m[m.len() - 1]);
            } else {
                assert(m2[k] == m[k]);
            }
        }
    }
    members_height_bound(m2, 0, n);
}

/// An array whose element becomes no higher becomes no higher.
pub proof fn update_keeps_height(a: Seq<Json>, i: int, v: Json)
    requires
        0 <= i < a.len(),
        json::height(v) < json::height(Json::Array(a)),
    ensures
        json::height(Json::Array(a.update(i, v))) <= json::height(Json::Array(a)),
{
    let n = json::elements_height(a, 0);
    let a2 = a.update(i, v);
    elements_height_bound(a, 0, n);
    assert forall|k: int| 0 <= k < a2.len() implies json::height(#[trigger] a2[k]) <= n by {
        if k != i {
            assert(a2[k] == a[k]);
        }
    }
    elements_height_bound(a2, 0, n);
}

// --- members of documents --------------------------------------------------

/// What an object holds after a member has been set.
pub broadcast proof fn member_of_with(j: Json, key: Text, v: Json, other: Text)
    ensures
        #[trigger] j.with(key, v).member(other) == (if other == key {
            Some(v)
        } else {
            j.member(other)
        }),
{
    lookup_after_insert(j.members(), key, v);
    if other != key {
        lookup_insert_other(j.members(), key, v, other);
    }
}

/// What an object holds after a member has been dropped, when no two share a name.
pub broadcast proof fn member_of_without(j: Json, key: Text, other: Text)
    requires
        json::distinct(j.members()),
    ensures
        #[trigger] j.without(key).member(other) == (if other == key {
            None
        } else {
            j.member(other)
        }),
{
    lookup_after_remove(j.members(), key);
    if other != key {
        lookup_remove_other(j.members(), key, other);
    }
}

/// What an object holds after a member has been supplied.
pub broadcast proof fn member_of_with_new(j: Json, key: Text, v: Json, other: Text)
    ensures
        #[trigger] j.with_new(key, v).member(other) == (if other == key && !j.has(key) {
            Some(v)
        } else {
            j.member(other)
        }),
{
    if !json::has_key(j.members(), key) {
        assert(j.with_new(key, v) == j.with(key, v));
        member_of_with(j, key, v, other);
    }
}

/// Setting a member keeps the names of an object distinct.
pub broadcast proof fn distinct_with(j: Json, key: Text, v: Json)
    requires
        json::distinct(j.members()),
    ensures
        json::distinct((#[trigger] j.with(key, v)).members()),
{
    insert_keeps_distinct(j.members(), key, v);
}

/// Supplying a member keeps the names of an object distinct.
pub broadcast proof fn distinct_with_new(j: Json, key: Text, v: Json)
    requires
        json::distinct(j.members()),
    ensures
        json::distinct((#[trigger] j.with_new(key, v)).members()),
{
    if !json::has_key(j.members(), key) {
        insert_keeps_distinct(j.members(), key, v);
    }
}

/// Dropping a member keeps the names of an object distinct.
pub broadcast proof fn distinct_without(j: Json, key: Text)
    requires
        json::distinct(j.members()),
    ensures
        json::distinct((#[trigger] j.without(key)).members()),
{
    remove_keeps_distinct(j.members(), key);
}

/// What an object with one member holds.
pub broadcast proof fn member_of_single(key: Text, v: Json, other: Text)
    ensures
        #[trigger] Json::single(key, v).member(other) == (if other == key {
            Some(v)
        } else {
            None
        }),
{
    reveal_with_fuel(json::index_from, 2);
}

/// The empty object holds nothing.
pub broadcast proof fn member_of_empty(other: Text)
    ensures
        #[trigger] Json::empty().member(other) is None,
{
}

/// What setting and dropping members does to an object.
pub broadcast group group_members {
    member_of_with,
    member_of_without,
    member_of_with_new,
    distinct_with,
    distinct_with_new,
    distinct_without,
    member_of_single,
    member_of_empty,
}

} // verus!
