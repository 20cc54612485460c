//! Laws of names and lists.

use vstd::prelude::*;

use crate::common;
use crate::json::Text;
use crate::text;

verus! {

// --- searches --------------------------------------------------------------

/// A search finds the first place where the pattern stands.
pub proof fn search_finds_first(s: Text, pat: Text, i: int, k: int)
    requires
        0 <= i <= k,
        text::stands_at(s, pat, k),
    ensures
        text::find_from(s, pat, i) matches Some(f) && i <= f <= k && text::stands_at(s, pat, f),
    decreases k - i,
{
    if i < k && !text::stands_at(s, pat, i) {
        search_finds_first(s, pat, i + 1, k);
    }
}

/// A search for a pattern whose first character does not occur finds nothing.
pub proof fn search_misses(s: Text, pat: Text, i: int)
    requires
        0 <= i,
        pat.len() > 0,
        forall|k: int| 0 <= k < s.len() ==> #[trigger] s[k] != pat[0],
    ensures
        text::find_from(s, pat, i) is None,
    decreases s.len() + 1 - i,
{
    if i <= s.len() {
        if i + pat.len() <= s.len() {
            assert(s.subrange(i, i + pat.len())[0] == s[i]);
        }
        search_misses(s, pat, i + 1);
    }
}

// --- names -----------------------------------------------------------------

/// Whether a text holds only the characters of a component name.
pub open spec fn is_name(s: Text) -> bool {
    forall|i: int| 0 <= i < s.len() ==> common::name_char(#[trigger] s[i])
}

/// What is scrubbed is a name.
pub proof fn scrubbed_is_name(s: Text, i: int, in_run: bool)
    requires
        0 <= i,
    ensures
        is_name(common::scrub_from(s, i, in_run)),
    decreases s.len() - i,
{
    if i < s.len() {
        scrubbed_is_name(s, i + 1, false);
        scrubbed_is_name(s, i + 1, true);
        let rest = common::scrub_from(s, i + 1, !common::name_char(s[i]));
        let r = common::scrub_from(s, i, in_run);
        assert forall|k: int| 0 <= k < r.len() implies common::name_char(#[trigger] r[k]) by {
            if r != rest && k > 0 {
                assert(r[k] == rest[k - 1]);
            }
        }
    }
}

proof fn name_stays(s: Text, i: int, in_run: bool)
    requires
        0 <= i <= s.len(),
        is_name(s),
    ensures
        common::scrub_from(s, i, in_run) == s.skip(i),
    decreases s.len() - i,
{
    if i < s.len() {
        name_stays(s, i + 1, false);
        assert(seq![s[i]] + s.skip(i + 1) =~= s.skip(i));
    } else {
        assert(s.skip(i) =~= Seq::empty());
    }
}

/// The part of a sanitised name before its first `/` is a name.
pub proof fn sanitised_segment_is_name(s: Text)
    ensures
        is_name(common::sanitised(s).take(common::first_segment_len(common::sanitised(s)))),
        0 <= common::first_segment_len(common::sanitised(s)) <= common::sanitised(s).len(),
{
    let t = common::first_replaced(s, "[]"@, "Array"@);
    let k = common::first_segment_len(t);
    segment_ends(t);
    let head = common::scrubbed(t.take(k));
    let r = common::sanitised(s);
    scrubbed_is_name(t.take(k), 0, false);
    segment_ends(r);
    let n = common::first_segment_len(r);
    if k < t.len() {
        assert(t.skip(k)[0] == '/');
        assert(r[head.len() as int] == '/');
        assert(r.subrange(head.len() as int, head.len() as int + 1) =~= seq!['/']);
        search_finds_first(r, seq!['/'], 0, head.len() as int);
    } else {
        assert(t.skip(k) =~= Seq::empty());
    }
    assert(n <= head.len());
    assert forall|i: int| 0 <= i < n implies common::name_char(#[trigger] r.take(n)[i]) by {
        assert(r[i] == head[i]);
    }
}

/// The first segment ends at a `/` or at the end.
proof fn segment_ends(t: Text)
    ensures
        0 <= common::first_segment_len(t) <= t.len(),
        common::first_segment_len(t) < t.len() ==> t[common::first_segment_len(t)] == '/',
{
    if let Some(i) = text::find_spec(t, seq!['/']) {
        found_stands(t, seq!['/'], 0);
        assert(t.subrange(i, i + 1)[0] == t[i]);
    }
}

proof fn found_stands(s: Text, pat: Text, i: int)
    requires
        0 <= i,
    ensures
        text::find_from(s, pat, i) matches Some(f) ==> i <= f && text::stands_at(s, pat, f),
    decreases s.len() + 1 - i,
{
    if i <= s.len() && !text::stands_at(s, pat, i) {
        found_stands(s, pat, i + 1);
    }
}

/// A name is its own sanitised form.
pub proof fn name_is_sanitised(s: Text)
    requires
        is_name(s),
    ensures
        common::sanitised(s) == s,
        common::sanitised_all(s) == s,
{
    reveal_strlit("[]");
    assert("[]"@[0] == '[');
    search_misses(s, "[]"@, 0);
    search_misses(s, seq!['/'], 0);
    name_stays(s, 0, false);
    let n = s.len() as int;
    assert(s.take(n) =~= s);
    assert(s.skip(0) =~= s);
    assert(s + s.skip(n) =~= s);
    assert(common::slashes_flattened(s) =~= s);
}

/// A name sanitised as a single component is a name, so to sanitise it again
/// changes nothing.
pub proof fn sanitised_all_is_name(s: Text)
    ensures
        is_name(common::sanitised_all(s)),
        common::sanitised_all(common::sanitised_all(s)) == common::sanitised_all(s),
        common::sanitised(common::sanitised_all(s)) == common::sanitised_all(s),
{
    let f = common::slashes_flattened(s);
    let t = common::first_replaced(f, "[]"@, "Array"@);
    reveal_strlit("[]");
    reveal_strlit("Array");
    if let Some(i) = text::find_spec(f, "[]"@) {
        found_stands(f, "[]"@, 0);
    }
    assert forall|k: int| 0 <= k < t.len() implies #[trigger] t[k] != '/' by {
        match text::find_spec(f, "[]"@) {
            Some(i) => {
                if k < i {
                    assert(t[k] == f[k]);
                } else if k < i + 5 {
                    assert(t[k] == "Array"@[k - i]);
                } else {
                    assert(t[k] == f[k - 3]);
                }
            },
            None => {},
        }
    }
    search_misses(t, seq!['/'], 0);
    let n = t.len() as int;
    assert(t.take(n) =~= t);
    scrubbed_is_name(t, 0, false);
    assert(common::scrubbed(t) + t.skip(n) =~= common::scrubbed(t));
    name_is_sanitised(common::sanitised_all(s));
}

// --- lists -----------------------------------------------------------------

/// The first occurrences hold what the list holds, and nothing twice.
pub proof fn firsts_are_unique(v: Seq<Text>)
    ensures
        common::firsts(v).no_duplicates(),
        forall|x: Text| #[trigger] common::firsts(v).contains(x) <==> v.contains(x),
    decreases v.len(),
{
    if v.len() > 0 {
        let front = v.drop_last();
        let before = common::firsts(front);
        firsts_are_unique(front);
        assert(v =~= front.push(v.last()));
        assert forall|x: Text| #[trigger] common::firsts(v).contains(x) <==> v.contains(x) by {
            if v.contains(x) && x != v.last() {
                let k = choose|k: int| 0 <= k < v.len() && v[k] == x;
                assert(front[k] == x);
                assert(before.contains(x));
                let q = choose|q: int| 0 <= q < before.len() && before[q] == x;
                assert(common::firsts(v)[q] == x);
            }
            if v.contains(x) && x == v.last() && !before.contains(x) {
                assert(common::firsts(v)[before.len() as int] == x);
            }
            if common::firsts(v).contains(x) {
                let q = choose|q: int| 0 <= q < common::firsts(v).len() && common::firsts(v)[q] == x;
                if q < before.len() {
                    assert(before[q] == x);
                    assert(before.contains(x));
                    assert(front.contains(x));
                    let k = choose|k: int| 0 <= k < front.len() && front[k] == x;
                    assert(v[k] == x);
                } else {
                    assert(v[v.len() - 1] == x);
                }
            }
        }
    }
}

} // verus!
