//! The request body cache.
//!
//! Request bodies are found again by the 32-bit hash of their JSON text and then
//! by their content.

use vstd::prelude::*;

use crate::common::{self, hash};
use crate::json::{self, Json, Text};
use crate::serial::{self, to_json_text};
use crate::value::JsonValue;

verus! {

/// One cached request body and the document paths that reference it.
pub struct RbEntry {
    pub hash: i32,
    pub name: String,
    pub body: JsonValue,
    pub refs: Vec<String>,
}

/// The model of [`RbEntry`].
pub struct Cached {
    pub hash: i32,
    pub name: Text,
    pub body: Json,
    pub refs: Seq<Text>,
}

impl View for RbEntry {
    type V = Cached;

    open spec fn view(&self) -> Cached {
        Cached {
            hash: self.hash,
            name: self.name@,
            body: self.body@,
            refs: json::texts(self.refs@),
        }
    }
}

/// The models of a sequence of entries.
pub open spec fn entries(v: Seq<RbEntry>) -> Seq<Cached> {
    Seq::new(v.len(), |i: int| v[i]@)
}

/// The request bodies in the order in which they were first seen.
pub struct RbCache {
    pub entries: Vec<RbEntry>,
}

impl View for RbCache {
    type V = Seq<Cached>;

    open spec fn view(&self) -> Seq<Cached> {
        entries(self.entries@)
    }
}

/// The first entry at or after position `i` with this hash and an equal body, or
/// the number of entries.
pub open spec fn entry_from(c: Seq<Cached>, hash: i32, body: Json, i: nat) -> nat
    decreases c.len() - i,
{
    if i >= c.len() {
        c.len()
    } else if c[i as int].hash == hash && json::same(c[i as int].body, body) {
        i
    } else {
        entry_from(c, hash, body, i + 1)
    }
}

/// The cache after a body with this hash was seen, and the position of its entry.
pub open spec fn body_seen(c: Seq<Cached>, hash: i32, body: Json, name: Text) -> (
    Seq<Cached>,
    nat,
) {
    let i = entry_from(c, hash, body, 0);
    if i < c.len() {
        (c, i)
    } else {
        (c.push(Cached { hash, name, body, refs: Seq::empty() }), c.len())
    }
}

/// The cache after the path `pointer` was seen to hold the body at position `i`.
pub open spec fn ref_seen(c: Seq<Cached>, i: nat, pointer: Text) -> Seq<Cached> {
    c.update(i as int, Cached { refs: c[i as int].refs.push(pointer), ..c[i as int] })
}

/// The hash of a request body: that of its JSON text.
pub open spec fn body_hash(body: Json) -> int {
    common::hashed(serial::json_text(body))
}

/// The hash of a request body.
pub fn hash_body(body: &JsonValue) -> (h: i32)
    ensures
        h == body_hash(body@),
{
    hash(to_json_text(body).as_str())
}

/// The entry that a body gets has an equal body, whatever the hashes of other
/// bodies are, and the entries before it stay as they are.
pub proof fn bodies_stay_apart(c: Seq<Cached>, hash: i32, body: Json, name: Text)
    ensures
        ({
            let (c1, i) = body_seen(c, hash, body, name);
            &&& i < c1.len()
            &&& c1[i as int].hash == hash
            &&& c1[i as int].body == body || json::same(c1[i as int].body, body)
            &&& c.len() <= c1.len()
            &&& forall|k: int| 0 <= k < c.len() ==> #[trigger] c1[k] == c[k]
        }),
{
    entry_is_found(c, hash, body, 0);
}

proof fn entry_is_found(c: Seq<Cached>, hash: i32, body: Json, i: nat)
    requires
        i <= c.len(),
    ensures
        i <= entry_from(c, hash, body, i) <= c.len(),
        entry_from(c, hash, body, i) < c.len() ==> c[entry_from(c, hash, body, i) as int].hash
            == hash && json::same(c[entry_from(c, hash, body, i) as int].body, body),
    decreases c.len() - i,
{
    if i < c.len() {
        entry_is_found(c, hash, body, i + 1);
    }
}

impl RbCache {
    /// The empty cache.
    pub fn new() -> (r: RbCache)
        ensures
            r@ == Seq::<Cached>::empty(),
    {
        let r = RbCache { entries: Vec::new() };
        assert(r@ =~= Seq::<Cached>::empty());
        r
    }

    /// The position of the entry for a body, which is added when it is new.
    pub fn get_or_insert(&mut self, hash: i32, body: &JsonValue, name: &str) -> (r: usize)
        ensures
            (final(self)@, r as nat) == body_seen(old(self)@, hash, body@, name@),
            r < final(self)@.len(),
    {
        let mut i: usize = 0;
        while i < self.entries.len()
            invariant
                i <= self.entries@.len(),
                entry_from(self@, hash, body@, 0) == entry_from(self@, hash, body@, i as nat),
            decreases self.entries@.len() - i,
        {
            if self.entries[i].hash == hash && self.entries[i].body.same(body) {
                return i;
            }
            i += 1;
        }
        let refs: Vec<String> = Vec::new();
        assert(json::texts(refs@) =~= Seq::<Text>::empty());
        let ghost before = self@;
        let entry = RbEntry { hash, name: name.to_owned(), body: body.clone(), refs };
        self.entries.push(entry);
        assert(self@ =~= before.push(entry@));
        i
    }

    /// Note that the path `pointer` holds the body at position `i`.
    pub fn add_ref(&mut self, i: usize, pointer: String)
        requires
            i < old(self)@.len(),
        ensures
            final(self)@ == ref_seen(old(self)@, i as nat, pointer@),
    {
        let ghost before = self@;
        let ghost refs = json::texts(self.entries@[i as int].refs@);
        self.entries[i].refs.push(pointer);
        assert(json::texts(self.entries@[i as int].refs@) =~= refs.push(pointer@));
        assert(self@ =~= ref_seen(before, i as nat, pointer@));
    }
}

} // verus!
