//! Laws of pointer reads and writes, and of the paths that a traversal reports.

use vstd::prelude::*;

use crate::common;
use crate::jptr::{self, Target};
use crate::json::{self, Json, Text};
use crate::laws;
use crate::pointer_laws;
use crate::recurse;
use crate::text;

verus! {

// --- reads after writes ----------------------------------------------------

/// Whether a write under the components from position `i` on comes to append to an
/// array.
pub open spec fn appends(j: Json, parts: Seq<Text>, i: int) -> bool
    decreases parts.len() - i,
{
    if i >= parts.len() {
        false
    } else {
        let comp = parts[i];
        let last = i + 1 == parts.len();
        match j {
            Json::Array(a) => if comp == "-"@ {
                true
            } else {
                match jptr::index_value(comp) {
                    Some(n) => n < a.len() && !last && appends(a[n], parts, i + 1),
                    None => false,
                }
            },
            Json::Object(m) => !last && match json::lookup(m, comp) {
                Some(c) => appends(c, parts, i + 1),
                None => parts.last() == "-"@,
            },
            _ => false,
        }
    }
}

/// Whether a write at a pointer comes to append to an array.
pub open spec fn write_appends(j: Json, prop: Text) -> bool {
    match jptr::target(prop) {
        Target::Path(parts) => appends(j, parts, 0),
        _ => false,
    }
}

proof fn index_is_natural(comp: Text)
    ensures
        jptr::index_value(comp) matches Some(n) ==> n >= 0,
{
    jptr::digits_grow(comp, 0, 0);
}

/// A made value of one member holds that.
proof fn single_is_read(key: Text, c: Json)
    ensures
        json::lookup(Json::single(key, c).members(), key) == Some(c),
{
    laws::index_is_first(Json::single(key, c).members(), key, 0, 0);
}

proof fn zero_is_index()
    ensures
        jptr::index_value("0"@) == Some(0int),
        "0"@ != "-"@,
        "-"@ != "0"@,
{
    reveal_strlit("0");
    reveal_strlit("-");
    assert("0"@[0] == '0' && "0"@.len() == 1 && "-"@[0] == '-');
    reveal_with_fuel(jptr::digits_from, 2);
}

proof fn made_is_read(parts: Seq<Text>, i: int, v: Json)
    requires
        0 <= i <= parts.len(),
        jptr::made(parts, i, v).1,
        i < parts.len() ==> parts.last() != "-"@,
    ensures
        jptr::resolve(jptr::made(parts, i, v).0, parts, i) == Some(v),
    decreases parts.len() - i,
{
    zero_is_index();
    if i < parts.len() {
        made_is_read(parts, i + 1, v);
        let c = jptr::made(parts, i + 1, v).0;
        single_is_read(parts[i], c);
        assert(parts[i] != "-"@);
    }
}

proof fn made_is_appended(parts: Seq<Text>, i: int, v: Json)
    requires
        0 <= i < parts.len(),
        jptr::made(parts, i, v).1,
        parts.last() == "-"@,
    ensures
        jptr::resolve(jptr::made(parts, i, v).0, parts.drop_last(), i) matches Some(
            Json::Array(a),
        ) && a.len() > 0 && a.last() == v,
    decreases parts.len() - i,
{
    zero_is_index();
    reveal_with_fuel(jptr::resolve, 2);
    reveal_with_fuel(jptr::made, 2);
    if i + 1 < parts.len() {
        made_is_appended(parts, i + 1, v);
        let c = jptr::made(parts, i + 1, v).0;
        single_is_read(parts[i], c);
        assert(parts[i] != "-"@);
        assert(parts.drop_last()[i] == parts[i]);
    }
}

proof fn assigned_is_read(j: Json, parts: Seq<Text>, i: int, v: Json)
    requires
        0 <= i,
        jptr::assign(j, parts, i, v).1,
        !appends(j, parts, i),
    ensures
        jptr::resolve(jptr::assign(j, parts, i, v).0, parts, i) == Some(v),
    decreases parts.len() - i,
{
    reveal_with_fuel(jptr::resolve, 2);
    let comp = parts[i];
    let last = i + 1 == parts.len();
    match j {
        Json::Array(a) => {
            let n = jptr::index_value(comp)->0;
            index_is_natural(comp);
            if !last {
                assigned_is_read(a[n], parts, i + 1, v);
            }
        },
        Json::Object(m) => {
            if last {
                laws::lookup_after_insert(m, comp, v);
            } else {
                match json::lookup(m, comp) {
                    Some(c) => {
                        assigned_is_read(c, parts, i + 1, v);
                        laws::lookup_after_insert(m, comp, jptr::assign(c, parts, i + 1, v).0);
                    },
                    None => {
                        made_is_read(parts, i + 1, v);
                        laws::lookup_after_insert(m, comp, jptr::made(parts, i + 1, v).0);
                    },
                }
            }
        },
        _ => {},
    }
}

proof fn assigned_is_appended(j: Json, parts: Seq<Text>, i: int, v: Json)
    requires
        0 <= i < parts.len(),
        jptr::assign(j, parts, i, v).1,
        appends(j, parts, i),
    ensures
        jptr::resolve(jptr::assign(j, parts, i, v).0, parts.drop_last(), i) matches Some(
            Json::Array(a),
        ) && a.len() > 0 && a.last() == v,
        parts.last() == "-"@,
    decreases parts.len() - i,
{
    reveal_with_fuel(jptr::resolve, 2);
    let comp = parts[i];
    let last = i + 1 == parts.len();
    match j {
        Json::Array(a) => {
            index_is_natural(comp);
            if !last {
                let n = jptr::index_value(comp)->0;
                assigned_is_appended(a[n], parts, i + 1, v);
            }
        },
        Json::Object(m) => {
            match json::lookup(m, comp) {
                Some(c) => {
                    assigned_is_appended(c, parts, i + 1, v);
                    laws::lookup_after_insert(m, comp, jptr::assign(c, parts, i + 1, v).0);
                },
                None => {
                    made_is_appended(parts, i + 1, v);
                    laws::lookup_after_insert(m, comp, jptr::made(parts, i + 1, v).0);
                },
            }
        },
        _ => {},
    }
}

/// What was written at a pointer is read there, unless the write appends.
pub proof fn read_after_write(j: Json, prop: Text, v: Json)
    requires
        jptr::write(j, prop, v).1,
        !write_appends(j, prop),
    ensures
        jptr::read(jptr::write(j, prop, v).0, prop) == Some(v),
{
    match jptr::target(prop) {
        Target::Path(parts) => {
            assigned_is_read(j, parts, 0, v);
        },
        _ => {},
    }
}

/// A write that appends has `-` for its last component and makes the value the
/// last element of the array that the components before address.
pub proof fn append_is_last(j: Json, prop: Text, v: Json)
    requires
        jptr::write(j, prop, v).1,
        write_appends(j, prop),
    ensures
        jptr::target(prop) matches Target::Path(parts) && parts.last() == "-"@ && (jptr::resolve(
            jptr::write(j, prop, v).0,
            parts.drop_last(),
            0,
        ) matches Some(Json::Array(a)) && a.len() > 0 && a.last() == v),
{
    match jptr::target(prop) {
        Target::Path(parts) => {
            assigned_is_appended(j, parts, 0, v);
        },
        _ => {},
    }
}

/// A write changes only the member that its first component names.
pub proof fn write_keeps_other_members(j: Json, parts: Seq<Text>, v: Json, key: Text)
    requires
        parts.len() > 0,
        parts[0] != key,
    ensures
        jptr::assign(j, parts, 0, v).0.member(key) == j.member(key),
        jptr::assign(j, parts, 0, v).0 is Object == j is Object,
{
    match j {
        Json::Object(m) => {
            if parts.len() == 1 {
                laws::lookup_insert_other(m, parts[0], v, key);
            } else {
                let c = match json::lookup(m, parts[0]) {
                    Some(c0) => jptr::assign(c0, parts, 1, v).0,
                    None => jptr::made(parts, 1, v).0,
                };
                laws::lookup_insert_other(m, parts[0], c, key);
            }
        },
        _ => {},
    }
}

// --- escapes ---------------------------------------------------------------

/// A replacement from a position on is a replacement of the rest.
proof fn replace_rest(s: Text, pat: Text, to: Text, i: int, k: int)
    requires
        0 <= i,
        0 <= k,
        i + k <= s.len(),
    ensures
        text::replace_from(s, pat, to, i + k) == text::replace_from(s.skip(i), pat, to, k),
    decreases s.len() - i - k,
{
    let t = s.skip(i);
    if i + k < s.len() {
        if i + k + pat.len() <= s.len() {
            assert(s.subrange(i + k, i + k + pat.len()) =~= t.subrange(k, k + pat.len()));
        }
        assert(text::stands_at(s, pat, i + k) == text::stands_at(t, pat, k));
        if pat.len() > 0 && text::stands_at(s, pat, i + k) {
            replace_rest(s, pat, to, i, k + pat.len());
        } else {
            replace_rest(s, pat, to, i, k + 1);
        }
    }
}

/// A replacement where the pattern does not stand keeps the first character.
proof fn replace_keeps(c: char, rest: Text, pat: Text, to: Text)
    requires
        pat.len() > 0,
        pat[0] != c,
    ensures
        text::replaced(seq![c] + rest, pat, to) == seq![c] + text::replaced(rest, pat, to),
{
    let s = seq![c] + rest;
    if pat.len() <= s.len() {
        assert(s.subrange(0, pat.len() as int)[0] == c);
    }
    assert(!text::stands_at(s, pat, 0));
    replace_rest(s, pat, to, 1, 0);
    assert(s.skip(1) =~= rest);
}

/// A replacement where the pattern stands replaces it.
pub proof fn replace_first(rest: Text, pat: Text, to: Text)
    requires
        pat.len() > 0,
    ensures
        text::replaced(pat + rest, pat, to) == to + text::replaced(rest, pat, to),
{
    let s = pat + rest;
    assert(s.subrange(0, pat.len() as int) =~= pat);
    replace_rest(s, pat, to, pat.len() as int, 0);
    assert(s.skip(pat.len() as int) =~= rest);
}

/// The characters from position `i` on with `~` as `~0`.
spec fn tildes_escaped(s: Text, i: int) -> Text
    decreases s.len() - i,
{
    if i >= s.len() {
        Seq::empty()
    } else if s[i] == '~' {
        seq!['~', '0'] + tildes_escaped(s, i + 1)
    } else {
        seq![s[i]] + tildes_escaped(s, i + 1)
    }
}

proof fn slashes_unescaped(s: Text, i: int)
    requires
        0 <= i <= s.len(),
    ensures
        text::replaced(jptr::escape_from(s, i), "~1"@, "/"@) == tildes_escaped(s, i),
    decreases s.len() - i,
{
    reveal_strlit("~1");
    reveal_strlit("/");
    if i < s.len() {
        slashes_unescaped(s, i + 1);
        let rest = jptr::escape_from(s, i + 1);
        if s[i] == '~' {
            let tail = seq!['0'] + rest;
            assert(seq!['~', '0'] + rest =~= seq!['~'] + tail);
            let all = seq!['~'] + tail;
            assert(all.subrange(0, 2)[1] == '0');
            assert("~1"@[1] == '1');
            assert(!text::stands_at(all, "~1"@, 0));
            replace_rest(all, "~1"@, "/"@, 1, 0);
            assert(all.skip(1) =~= tail);
            replace_keeps('0', rest, "~1"@, "/"@);
            assert(seq!['~'] + (seq!['0'] + tildes_escaped(s, i + 1)) =~= seq!['~', '0']
                + tildes_escaped(s, i + 1));
        } else if s[i] == '/' {
            assert("~1"@ =~= seq!['~', '1']);
            replace_first(rest, "~1"@, "/"@);
            assert("/"@ =~= seq!['/']);
        } else {
            replace_keeps(s[i], rest, "~1"@, "/"@);
        }
    }
}

proof fn tildes_unescaped(s: Text, i: int)
    requires
        0 <= i <= s.len(),
    ensures
        text::replaced(tildes_escaped(s, i), "~0"@, "~"@) == s.skip(i),
    decreases s.len() - i,
{
    reveal_strlit("~0");
    reveal_strlit("~");
    if i < s.len() {
        tildes_unescaped(s, i + 1);
        let rest = tildes_escaped(s, i + 1);
        assert(seq![s[i]] + s.skip(i + 1) =~= s.skip(i));
        if s[i] == '~' {
            assert("~0"@ =~= seq!['~', '0']);
            replace_first(rest, "~0"@, "~"@);
            assert("~"@ =~= seq!['~']);
        } else {
            replace_keeps(s[i], rest, "~0"@, "~"@);
        }
    } else {
        assert(s.skip(i) =~= Seq::empty());
    }
}

/// `jpunescape` undoes `jpescape`.
pub proof fn unescape_undoes_escape(s: Text)
    ensures
        jptr::unescaped(jptr::escaped(s)) == s,
{
    slashes_unescaped(s, 0);
    tildes_unescaped(s, 0);
    assert(s.skip(0) =~= s);
}

/// An escaped component holds no `/`.
pub proof fn escaped_has_no_slash(s: Text, i: int)
    requires
        0 <= i <= s.len(),
    ensures
        forall|k: int|
            0 <= k < jptr::escape_from(s, i).len() ==> #[trigger] jptr::escape_from(s, i)[k]
                != '/',
    decreases s.len() - i,
{
    if i < s.len() {
        escaped_has_no_slash(s, i + 1);
        let e = jptr::escape_char(s[i]);
        let rest = jptr::escape_from(s, i + 1);
        assert forall|k: int| 0 <= k < (e + rest).len() implies #[trigger] (e + rest)[k]
            != '/' by {
            if k < e.len() {
                assert((e + rest)[k] == e[k]);
            } else {
                assert((e + rest)[k] == rest[k - e.len()]);
            }
        }
    }
}

// --- paths -----------------------------------------------------------------

/// The path that a traversal from the root reports under nested keys.
pub open spec fn path_of(keys: Seq<Text>) -> Text
    decreases keys.len(),
{
    if keys.len() == 0 {
        "#"@
    } else {
        recurse::child_path(path_of(keys.drop_last()), keys.last())
    }
}

/// The escaped keys from position `i` on between slashes.
spec fn slashed(keys: Seq<Text>, i: int) -> Text
    decreases keys.len() - i,
{
    if i + 1 >= keys.len() {
        jptr::escaped(keys[i])
    } else {
        jptr::escaped(keys[i]) + seq!['/'] + slashed(keys, i + 1)
    }
}

/// The escaped keys from position `i` on between slashes, percent-encoded.
spec fn encoded(keys: Seq<Text>, i: int) -> Text
    decreases keys.len() - i,
{
    if i + 1 >= keys.len() {
        common::uri_encoded(jptr::escaped(keys[i]))
    } else {
        common::uri_encoded(jptr::escaped(keys[i])) + seq!['/'] + encoded(keys, i + 1)
    }
}

proof fn encoded_grows(keys: Seq<Text>, k: Text, i: int)
    requires
        0 <= i < keys.len(),
    ensures
        encoded(keys.push(k), i) == encoded(keys, i) + seq!['/'] + common::uri_encoded(
            jptr::escaped(k),
        ),
    decreases keys.len() - i,
{
    let all = keys.push(k);
    reveal_with_fuel(encoded, 2);
    assert(all[i] == keys[i]);
    if i + 1 < keys.len() {
        encoded_grows(keys, k, i + 1);
        let a = common::uri_encoded(jptr::escaped(keys[i])) + seq!['/'];
        assert(a + (encoded(keys, i + 1) + seq!['/'] + common::uri_encoded(jptr::escaped(k)))
            =~= (a + encoded(keys, i + 1)) + seq!['/'] + common::uri_encoded(jptr::escaped(k)));
    } else {
        assert(all[i + 1] == k);
    }
}

proof fn path_is_encoded(keys: Seq<Text>)
    requires
        keys.len() > 0,
    ensures
        path_of(keys) == "#"@ + seq!['/'] + encoded(keys, 0),
    decreases keys.len(),
{
    reveal_strlit("/");
    assert("/"@ =~= seq!['/']);
    reveal_with_fuel(path_of, 2);
    if keys.len() > 1 {
        let front = keys.drop_last();
        path_is_encoded(front);
        assert(front.push(keys.last()) =~= keys);
        encoded_grows(front, keys.last(), 0);
        let e = common::uri_encoded(jptr::escaped(keys.last()));
        assert(("#"@ + seq!['/'] + encoded(front, 0)) + seq!['/'] + e =~= "#"@ + seq!['/'] + (
        encoded(front, 0) + seq!['/'] + e));
    } else {
        assert(keys.drop_last().len() == 0);
        assert(keys.last() == keys[0]);
    }
}

proof fn encoded_is_ascii(keys: Seq<Text>, i: int)
    requires
        0 <= i < keys.len(),
    ensures
        vstd::utf8::is_ascii_chars(encoded(keys, i)),
    decreases keys.len() - i,
{
    let src = vstd::utf8::encode_utf8(jptr::escaped(keys[i]));
    let e = common::uri_encoded(jptr::escaped(keys[i]));
    pointer_laws::encoded_is_ascii(src, 0);
    if i + 1 < keys.len() {
        encoded_is_ascii(keys, i + 1);
        let rest = encoded(keys, i + 1);
        let all = encoded(keys, i);
        assert forall|k: int| 0 <= k < all.len() implies '\0' <= #[trigger] all[k] <= '\u{7f}' by {
            if k < e.len() {
                assert(all[k] == e[k]);
            } else if k > e.len() {
                assert(all[k] == rest[k - e.len() - 1]);
            }
        }
    }
}

/// Percent-decoding gives the escaped keys back.
proof fn encoded_decodes(keys: Seq<Text>, i: int, bytes: Seq<u8>, at: int)
    requires
        0 <= i < keys.len(),
        0 <= at,
        at + encoded(keys, i).len() == bytes.len(),
        forall|t: int|
            0 <= t < encoded(keys, i).len() ==> #[trigger] bytes[at + t] == encoded(
                keys,
                i,
            )[t] as u8,
    ensures
        common::decode_from(bytes, at) == vstd::utf8::encode_utf8(slashed(keys, i)),
    decreases keys.len() - i,
{
    let src = vstd::utf8::encode_utf8(jptr::escaped(keys[i]));
    let e = common::uri_encoded(jptr::escaped(keys[i]));
    let all = encoded(keys, i);
    assert forall|t: int| 0 <= t < e.len() implies #[trigger] bytes[at + t] == e[t] as u8 by {
        assert(all[t] == e[t]);
    }
    pointer_laws::decode_encoded(src, 0, bytes, at);
    assert(src.skip(0) =~= src);
    let mid = at + e.len();
    if i + 1 < keys.len() {
        let rest = encoded(keys, i + 1);
        assert(bytes[at + e.len()] == all[e.len() as int] as u8);
        assert(bytes[mid] == 0x2f);
        assert forall|t: int| 0 <= t < rest.len() implies #[trigger] bytes[mid + 1 + t]
            == rest[t] as u8 by {
            assert(bytes[at + (e.len() + 1 + t)] == all[e.len() + 1 + t] as u8);
        }
        encoded_decodes(keys, i + 1, bytes, mid + 1);
        let s = jptr::escaped(keys[i]);
        pointer_laws::utf8_concat(s, seq!['/']);
        pointer_laws::utf8_concat(s + seq!['/'], slashed(keys, i + 1));
        vstd::utf8::is_ascii_chars_encode_utf8(seq!['/']);
        assert(vstd::utf8::encode_utf8(seq!['/']) =~= seq![0x2fu8]);
        let tail = vstd::utf8::encode_utf8(slashed(keys, i + 1));
        assert(src + (seq![0x2fu8] + tail) =~= src + seq![0x2fu8] + tail);
    } else {
        assert(src + common::decode_from(bytes, bytes.len() as int) =~= src);
    }
}

/// The pieces of the escaped keys are the escaped keys.
proof fn slashed_splits(keys: Seq<Text>, i: int, s: Text, start: int)
    requires
        0 <= i < keys.len(),
        0 <= start <= s.len(),
        s.skip(start) == slashed(keys, i),
    ensures
        text::split_from(s, '/', start, start) == Seq::new(
            (keys.len() - i) as nat,
            |q: int| jptr::escaped(keys[i + q]),
        ),
    decreases keys.len() - i,
{
    let e = jptr::escaped(keys[i]);
    let n = e.len() as int;
    let all = slashed(keys, i);
    escaped_has_no_slash(keys[i], 0);
    assert(s.len() == start + all.len());
    assert forall|k: int| 0 <= k < n implies #[trigger] s[start + k] == e[k] by {
        assert(s.skip(start)[k] == all[k]);
        assert(all[k] == e[k]);
    }
    assert forall|k: int| start <= k < start + n implies #[trigger] s[k] != '/' by {
        assert(s[start + (k - start)] == e[k - start]);
    }
    no_separator(s, '/', start, start, start + n);
    assert(s.subrange(start, start + n) =~= e);
    let expected = Seq::new((keys.len() - i) as nat, |q: int| jptr::escaped(keys[i + q]));
    if i + 1 < keys.len() {
        assert(s.skip(start)[n] == all[n]);
        assert(s[start + n] == '/');
        let tail = slashed(keys, i + 1);
        assert forall|k: int| 0 <= k < tail.len() implies s[start + n + 1 + k]
            == #[trigger] tail[k] by {
            assert(s.skip(start)[n + 1 + k] == all[n + 1 + k]);
        }
        assert(s.skip(start + n + 1) =~= tail);
        slashed_splits(keys, i + 1, s, start + n + 1);
        let rest = Seq::new((keys.len() - i - 1) as nat, |q: int| jptr::escaped(keys[i + 1 + q]));
        assert(seq![e] + rest =~= expected);
    } else {
        assert(seq![e] =~= expected);
    }
}

/// Up to `to` there is no separator to split at.
pub proof fn no_separator(s: Text, c: char, start: int, i: int, to: int)
    requires
        0 <= start <= i <= to <= s.len(),
        forall|k: int| i <= k < to ==> #[trigger] s[k] != c,
    ensures
        text::split_from(s, c, start, i) == text::split_from(s, c, start, to),
    decreases to - i,
{
    if i < to {
        no_separator(s, c, start, i + 1, to);
    }
}

/// The path that a traversal reports addresses the keys that it went down, unless
/// the first of several is empty.
pub proof fn path_addresses_keys(keys: Seq<Text>)
    requires
        keys.len() > 0,
        keys.len() > 1 ==> keys[0].len() > 0,
    ensures
        jptr::target(path_of(keys)) == Target::Path(keys),
{
    let prop = path_of(keys);
    let body = encoded(keys, 0);
    let decoded = slashed(keys, 0);
    path_is_encoded(keys);
    reveal_strlit("#");
    assert(prop[0] == '#' && prop[1] == '/');
    assert(prop.subrange(0, 1) =~= "#"@);
    assert(text::stands_at(prop, "#"@, 0));
    assert(text::find_spec(prop, "#"@) == Some(0int));
    assert(prop != "#"@);
    assert(prop.skip(1) =~= seq!['/'] + body);
    assert(jptr::without_slash(prop.skip(1)) =~= body);
    encoded_is_ascii(keys, 0);
    vstd::utf8::is_ascii_chars_encode_utf8(body);
    encoded_decodes(keys, 0, vstd::utf8::encode_utf8(body), 0);
    vstd::utf8::encode_utf8_valid_utf8(decoded);
    vstd::utf8::encode_utf8_decode_utf8(decoded);
    assert(common::uri_decoded(body) == decoded);
    escaped_has_no_slash(keys[0], 0);
    if keys[0].len() > 0 {
        assert(jptr::escaped(keys[0]).len() > 0);
        assert(decoded[0] == jptr::escaped(keys[0])[0]);
    } else {
        assert(decoded.len() == 0);
    }
    assert(jptr::without_slash(decoded) == decoded);
    assert(decoded.skip(0) =~= decoded);
    slashed_splits(keys, 0, decoded, 0);
    let parts = jptr::path_parts(decoded);
    assert forall|q: int| 0 <= q < keys.len() implies parts[q] == keys[q] by {
        unescape_undoes_escape(keys[q]);
    }
    assert(parts =~= keys);
}

/// Another key after some goes behind a slash.
proof fn slashed_grows(keys: Seq<Text>, k: Text, i: int)
    requires
        0 <= i < keys.len(),
    ensures
        slashed(keys.push(k), i) == slashed(keys, i) + seq!['/'] + jptr::escaped(k),
    decreases keys.len() - i,
{
    let all = keys.push(k);
    reveal_with_fuel(slashed, 2);
    assert(all[i] == keys[i]);
    if i + 1 < keys.len() {
        slashed_grows(keys, k, i + 1);
        let a = jptr::escaped(keys[i]) + seq!['/'];
        assert(a + (slashed(keys, i + 1) + seq!['/'] + jptr::escaped(k)) =~= a + slashed(
            keys,
            i + 1,
        ) + seq!['/'] + jptr::escaped(k));
    }
}

/// The keys in the form in which they stand in a pointer.
pub open spec fn escaped_keys(keys: Seq<Text>) -> Seq<Text> {
    keys.map_values(|k: Text| jptr::escaped(k))
}

proof fn slashed_is_joined(keys: Seq<Text>)
    requires
        keys.len() > 0,
    ensures
        slashed(keys, 0) == text::joined(escaped_keys(keys), "/"@),
    decreases keys.len(),
{
    reveal_strlit("/");
    assert("/"@ =~= seq!['/']);
    if keys.len() > 1 {
        let front = keys.drop_last();
        slashed_is_joined(front);
        slashed_grows(front, keys.last(), 0);
        assert(front.push(keys.last()) =~= keys);
        assert(escaped_keys(keys).drop_last() =~= escaped_keys(front));
    }
}

/// Escapes bring no `#`.
proof fn escaped_has_no_hash(s: Text, i: int)
    requires
        0 <= i <= s.len(),
        forall|k: int| 0 <= k < s.len() ==> #[trigger] s[k] != '#',
    ensures
        forall|k: int|
            0 <= k < jptr::escape_from(s, i).len() ==> #[trigger] jptr::escape_from(s, i)[k]
                != '#',
    decreases s.len() - i,
{
    if i < s.len() {
        escaped_has_no_hash(s, i + 1);
        assert(s[i] != '#');
        let e = jptr::escape_char(s[i]);
        let rest = jptr::escape_from(s, i + 1);
        assert forall|k: int| 0 <= k < (e + rest).len() implies #[trigger] (e + rest)[k]
            != '#' by {
            if k < e.len() {
                assert((e + rest)[k] == e[k]);
            } else {
                assert((e + rest)[k] == rest[k - e.len()]);
            }
        }
    }
}

proof fn slashed_has_no_hash(keys: Seq<Text>, i: int)
    requires
        0 <= i < keys.len(),
        forall|q: int, k: int|
            0 <= q < keys.len() && 0 <= k < keys[q].len() ==> #[trigger] keys[q][k] != '#',
    ensures
        forall|k: int| 0 <= k < slashed(keys, i).len() ==> #[trigger] slashed(keys, i)[k] != '#',
    decreases keys.len() - i,
{
    let e = jptr::escaped(keys[i]);
    assert forall|k: int| 0 <= k < keys[i].len() implies #[trigger] keys[i][k] != '#' by {}
    escaped_has_no_hash(keys[i], 0);
    if i + 1 < keys.len() {
        slashed_has_no_hash(keys, i + 1);
        let rest = slashed(keys, i + 1);
        let all = slashed(keys, i);
        assert forall|k: int| 0 <= k < all.len() implies #[trigger] all[k] != '#' by {
            if k < e.len() {
                assert(all[k] == e[k]);
            } else if k > e.len() {
                assert(all[k] == rest[k - e.len() - 1]);
            }
        }
    }
}

/// Where a `#` is found, and where none is.
proof fn hash_found(s: Text, i: int)
    requires
        0 <= i,
    ensures
        match text::find_from(s, "#"@, i) {
            Some(k) => i <= k < s.len() && s[k] == '#' && forall|q: int|
                i <= q < k ==> #[trigger] s[q] != '#',
            None => forall|q: int| i <= q < s.len() ==> #[trigger] s[q] != '#',
        },
    decreases s.len() + 1 - i,
{
    reveal_strlit("#");
    if i < s.len() {
        if s[i] == '#' {
            assert(s.subrange(i, i + 1) =~= "#"@);
            assert(text::stands_at(s, "#"@, i));
        } else {
            assert(!text::stands_at(s, "#"@, i)) by {
                if text::stands_at(s, "#"@, i) {
                    assert(s.subrange(i, i + 1)[0] == "#"@[0]);
                }
            }
            hash_found(s, i + 1);
        }
    } else if i == s.len() {
        assert(!text::stands_at(s, "#"@, i));
        assert(text::find_from(s, "#"@, i + 1) is None);
    }
}

/// A pointer addresses the whole document exactly when it is empty or `#`, another
/// document exactly when it holds a `#` after something else, and otherwise a path of
/// at least one component.
pub proof fn pointer_outcomes(prop: Text)
    ensures
        (jptr::target(prop) is Whole) == (prop.len() == 0 || prop == "#"@),
        (jptr::target(prop) is External) == (prop.contains('#') && prop[0] != '#'),
        jptr::target(prop) matches Target::Path(parts) ==> parts.len() > 0,
{
    reveal_strlit("#");
    hash_found(prop, 0);
    if let Some(k) = text::find_spec(prop, "#"@) {
        assert(prop.contains(prop[k]));
        let u = jptr::without_slash(common::uri_decoded(jptr::without_slash(prop.skip(1))));
        text::pieces_nonempty(u, '/', 0, 0);
        if prop == "#"@ {
            assert(prop[0] == '#');
        }
    } else {
        text::pieces_nonempty(jptr::without_slash(prop), '/', 0, 0);
        if prop.contains('#') {
            let q = choose|q: int| 0 <= q < prop.len() && prop[q] == '#';
            assert(prop[q] != '#');
        }
    }
}

/// A path of escaped components without a `#` gives the components back. Nothing is
/// percent-decoded in it.
pub proof fn escaped_path_addresses_keys(keys: Seq<Text>)
    requires
        keys.len() > 0,
        forall|q: int, k: int|
            0 <= q < keys.len() && 0 <= k < keys[q].len() ==> #[trigger] keys[q][k] != '#',
    ensures
        jptr::target("/"@ + text::joined(escaped_keys(keys), "/"@)) == Target::Path(keys),
{
    reveal_strlit("/");
    reveal_strlit("#");
    assert("/"@ =~= seq!['/']);
    let body = slashed(keys, 0);
    slashed_is_joined(keys);
    slashed_has_no_hash(keys, 0);
    let prop = "/"@ + body;
    assert forall|q: int| 0 <= q < prop.len() implies #[trigger] prop[q] != '#' by {
        if q > 0 {
            assert(prop[q] == body[q - 1]);
        }
    }
    hash_found(prop, 0);
    assert(prop[0] == '/');
    assert(jptr::without_slash(prop) =~= body);
    assert(body.skip(0) =~= body);
    slashed_splits(keys, 0, body, 0);
    let parts = jptr::path_parts(prop);
    assert forall|q: int| 0 <= q < keys.len() implies parts[q] == keys[q] by {
        unescape_undoes_escape(keys[q]);
    }
    assert(parts =~= keys);
}

/// A digit after a number is the last digit of a longer number.
proof fn digits_push(s: Text, c: char, i: int, acc: int)
    requires
        0 <= i <= s.len(),
        text::ascii_digit(c),
    ensures
        jptr::digits_from(s.push(c), i, acc) == (match jptr::digits_from(s, i, acc) {
            Some(n) => Some(n * 10 + (c as int - '0' as int)),
            None => None,
        }),
    decreases s.len() - i,
{
    reveal_with_fuel(jptr::digits_from, 2);
    if i < s.len() {
        assert(s.push(c)[i] == s[i]);
        if text::ascii_digit(s[i]) {
            digits_push(s, c, i + 1, acc * 10 + (s[i] as int - '0' as int));
        }
    }
}

/// The decimal digits of a number spell it.
pub proof fn decimal_spells(n: nat)
    ensures
        text::decimal(n).len() > 0,
        text::ascii_digit(text::decimal(n)[0]),
        jptr::digits_from(text::decimal(n), 0, 0) == Some(n as int),
        recurse::key_index(text::decimal(n)) == Some(n as int),
    decreases n,
{
    let d = (n % 10) as int;
    assert(text::digit(d) as int == '0' as int + d);
    if n < 10 {
        reveal_with_fuel(jptr::digits_from, 2);
    } else {
        decimal_spells(n / 10);
        digits_push(text::decimal(n / 10), text::digit(d), 0, 0);
        assert(text::decimal(n)[0] == text::decimal(n / 10)[0]);
    }
}

/// An index below the length of an array is spelt by its decimal digits.
pub proof fn decimal_is_index(n: nat)
    requires
        n <= i64::MAX,
    ensures
        jptr::index_value(text::decimal(n)) == Some(n as int),
{
    decimal_spells(n);
    leading_digit(n);
}

/// The decimal digits of a number above nine do not start with a zero.
proof fn leading_digit(n: nat)
    ensures
        n >= 10 ==> text::decimal(n)[0] != '0',
        1 <= n < 10 ==> text::decimal(n)[0] != '0',
        n < 10 ==> text::decimal(n).len() == 1,
    decreases n,
{
    if n >= 10 {
        leading_digit(n / 10);
        decimal_spells(n / 10);
        assert(text::decimal(n)[0] == text::decimal(n / 10)[0]);
    } else {
        assert(text::digit(n as int) as int == '0' as int + n);
    }
}

} // verus!
