//! Laws of percent escapes and of pointers.

use vstd::prelude::*;

use crate::common;
use crate::jptr;
use crate::json::{self, Json, Members, Text};
use crate::laws;
use crate::suffix;
use crate::text;

verus! {

// --- percent escapes -------------------------------------------------------

/// The bytes of two texts in a row are the bytes of each in a row.
pub proof fn utf8_concat(a: Text, b: Text)
    ensures
        vstd::utf8::encode_utf8(a + b) == vstd::utf8::encode_utf8(a) + vstd::utf8::encode_utf8(b),
    decreases a.len(),
{
    if a.len() == 0 {
        assert(a + b =~= b);
        assert(vstd::utf8::encode_utf8(a) + vstd::utf8::encode_utf8(b)
            =~= vstd::utf8::encode_utf8(b));
    } else {
        utf8_concat(a.drop_first(), b);
        assert((a + b).drop_first() =~= a.drop_first() + b);
        assert(vstd::utf8::encode_utf8(a + b) =~= vstd::utf8::encode_utf8(a)
            + vstd::utf8::encode_utf8(b));
    }
}

/// Whether a text is ASCII without `%`.
pub open spec fn plain(s: Text) -> bool {
    forall|i: int| 0 <= i < s.len() ==> '\0' <= #[trigger] s[i] <= '\u{7f}' && s[i] != '%'
}

/// Bytes that hold no `%` decode to themselves.
proof fn decode_plain(bytes: Seq<u8>, i: int, j: int)
    requires
        0 <= i <= j <= bytes.len(),
        forall|k: int| i <= k < j ==> #[trigger] bytes[k] != 0x25,
    ensures
        common::decode_from(bytes, i) == bytes.subrange(i, j) + common::decode_from(bytes, j),
    decreases j - i,
{
    if i < j {
        decode_plain(bytes, i + 1, j);
        assert(bytes[i] != 0x25);
        assert(seq![bytes[i]] + (bytes.subrange(i + 1, j) + common::decode_from(bytes, j))
            =~= bytes.subrange(i, j) + common::decode_from(bytes, j));
    } else {
        assert(bytes.subrange(i, j) + common::decode_from(bytes, j) =~= common::decode_from(
            bytes,
            j,
        ));
    }
}

/// The hexadecimal digit of a number has that value.
proof fn hex_round_trip(d: int)
    requires
        0 <= d < 16,
    ensures
        common::hex_value(common::hex_digit(d) as u8) == Some(d),
        '\0' <= common::hex_digit(d) <= '\u{7f}',
{
}

/// Escaped bytes are ASCII.
pub proof fn encoded_is_ascii(src: Seq<u8>, k: int)
    requires
        0 <= k <= src.len(),
    ensures
        forall|i: int|
            0 <= i < common::encode_from(src, k).len() ==> '\0' <= #[trigger] common::encode_from(
                src,
                k,
            )[i] <= '\u{7f}',
    decreases src.len() - k,
{
    if k < src.len() {
        encoded_is_ascii(src, k + 1);
        let b = src[k];
        hex_round_trip((b / 16) as int);
        hex_round_trip((b % 16) as int);
        let e = common::encode_byte(b);
        let rest = common::encode_from(src, k + 1);
        assert forall|i: int| 0 <= i < (e + rest).len() implies '\0' <= #[trigger] (
        e + rest)[i] <= '\u{7f}' by {
            if i >= e.len() {
                assert((e + rest)[i] == rest[i - e.len()]);
            } else {
                assert((e + rest)[i] == e[i]);
            }
        }
    }
}

/// Escaped bytes decode to the bytes.
pub proof fn decode_encoded(src: Seq<u8>, k: int, bytes: Seq<u8>, i: int)
    requires
        0 <= k <= src.len(),
        0 <= i,
        i + common::encode_from(src, k).len() <= bytes.len(),
        forall|t: int|
            0 <= t < common::encode_from(src, k).len() ==> #[trigger] bytes[i + t]
                == common::encode_from(src, k)[t] as u8,
    ensures
        common::decode_from(bytes, i) == src.skip(k) + common::decode_from(
            bytes,
            i + common::encode_from(src, k).len(),
        ),
    decreases src.len() - k,
{
    let all = common::encode_from(src, k);
    if k < src.len() {
        let b = src[k];
        let e = common::encode_byte(b);
        let rest = common::encode_from(src, k + 1);
        let n = e.len() as int;
        assert(all == e + rest);
        assert forall|t: int| 0 <= t < rest.len() implies #[trigger] bytes[i + n + t]
            == rest[t] as u8 by {
            assert(bytes[i + (n + t)] == all[n + t] as u8);
        }
        decode_encoded(src, k + 1, bytes, i + n);
        assert(bytes[i + 0] == all[0] as u8);
        if common::kept(b) {
            assert(all[0] == b as char);
            assert(bytes[i] == b);
            assert(!common::escape_at(bytes, i));
        } else {
            hex_round_trip((b / 16) as int);
            hex_round_trip((b % 16) as int);
            assert(bytes[i + 1] == all[1] as u8);
            assert(bytes[i + 2] == all[2] as u8);
            assert(all[0] == '%');
            assert(common::escape_at(bytes, i));
            assert((b / 16) * 16 + b % 16 == b);
        }
        let tail = common::decode_from(bytes, i + all.len());
        assert(seq![b] + (src.skip(k + 1) + tail) =~= src.skip(k) + tail);
    } else {
        assert(src.skip(k) + common::decode_from(bytes, i + all.len()) =~= common::decode_from(
            bytes,
            i + all.len(),
        ));
    }
}

/// Decoding a text between plain texts that was escaped gives it back.
pub proof fn uri_decodes(a: Text, q: Text, b: Text)
    requires
        plain(a),
        plain(b),
    ensures
        common::uri_decoded(a + common::uri_encoded(q) + b) == a + q + b,
{
    let src = vstd::utf8::encode_utf8(q);
    let e = common::uri_encoded(q);
    let s = a + e + b;
    encoded_is_ascii(src, 0);
    assert forall|i: int| 0 <= i < s.len() implies '\0' <= #[trigger] s[i] <= '\u{7f}' by {
        if i < a.len() {
            assert(s[i] == a[i]);
        } else if i < a.len() + e.len() {
            assert(s[i] == e[i - a.len()]);
        } else {
            assert(s[i] == b[i - a.len() - e.len()]);
        }
    }
    assert(vstd::utf8::is_ascii_chars(s));
    vstd::utf8::is_ascii_chars_encode_utf8(s);
    let bytes = vstd::utf8::encode_utf8(s);
    let n = a.len() as int;
    let m = n + e.len();
    assert forall|k: int| 0 <= k < n implies #[trigger] bytes[k] != 0x25 by {
        assert(bytes[k] == s[k] as u8);
        assert(s[k] == a[k]);
    }
    decode_plain(bytes, 0, n);
    assert forall|t: int| 0 <= t < e.len() implies #[trigger] bytes[n + t] == e[t] as u8 by {
        assert(bytes[n + t] == s[n + t] as u8);
        assert(s[n + t] == e[t]);
    }
    decode_encoded(src, 0, bytes, n);
    assert forall|k: int| m <= k < bytes.len() implies #[trigger] bytes[k] != 0x25 by {
        assert(bytes[k] == s[k] as u8);
        assert(s[k] == b[k - m]);
    }
    decode_plain(bytes, m, bytes.len() as int);
    ascii_bytes(a, bytes, 0, s);
    ascii_bytes(b, bytes, m, s);
    let out = common::decode_from(bytes, 0);
    assert(out =~= vstd::utf8::encode_utf8(a) + src + vstd::utf8::encode_utf8(b));
    utf8_concat(a, q);
    utf8_concat(a + q, b);
    assert(out =~= vstd::utf8::encode_utf8(a + q + b));
    vstd::utf8::encode_utf8_valid_utf8(a + q + b);
    vstd::utf8::encode_utf8_decode_utf8(a + q + b);
}

/// The bytes of an ASCII part of an ASCII text.
proof fn ascii_bytes(part: Text, bytes: Seq<u8>, at: int, s: Text)
    requires
        plain(part),
        0 <= at,
        at + part.len() <= s.len(),
        bytes.len() == s.len(),
        forall|i: int| 0 <= i < s.len() ==> #[trigger] bytes[i] == s[i] as u8,
        forall|i: int| 0 <= i < part.len() ==> #[trigger] part[i] == s[at + i],
    ensures
        vstd::utf8::encode_utf8(part) == bytes.subrange(at, at + part.len()),
{
    assert(vstd::utf8::is_ascii_chars(part));
    vstd::utf8::is_ascii_chars_encode_utf8(part);
    assert forall|i: int| 0 <= i < part.len() implies vstd::utf8::encode_utf8(part)[i]
        == #[trigger] bytes.subrange(at, at + part.len())[i] by {
        assert(bytes[at + i] == s[at + i] as u8);
        assert(part[i] as u8 == vstd::utf8::encode_utf8(part)[i]);
    }
    assert(vstd::utf8::encode_utf8(part) =~= bytes.subrange(at, at + part.len()));
}

/// Decoding undoes `encodeURIComponent`.
pub proof fn uri_round_trip(s: Text)
    ensures
        common::uri_decoded(common::uri_encoded(s)) == s,
{
    let e = Seq::<char>::empty();
    uri_decodes(e, s, e);
    assert(e + common::uri_encoded(s) + e =~= common::uri_encoded(s));
    assert(e + s + e =~= s);
}

// --- long components address nothing ---------------------------------------

/// A bound on the length of the components that address a value in `j`.
pub open spec fn name_bound(j: Json) -> nat
    decreases j, 0nat,
{
    match j {
        Json::Array(a) => json::max(a.len(), elements_bound(a, 0)),
        Json::Object(m) => json::max(suffix::longest_name(m, 0), members_bound(m, 0)),
        _ => 0,
    }
}

/// The greatest bound of an element from position `i` on.
pub open spec fn elements_bound(a: Seq<Json>, i: nat) -> nat
    decreases a, a.len() - i,
{
    if i >= a.len() {
        0
    } else {
        json::max(name_bound(a[i as int]), elements_bound(a, i + 1))
    }
}

/// The greatest bound of a member from position `i` on.
pub open spec fn members_bound(m: Members, i: nat) -> nat
    decreases m, m.len() - i,
{
    if i >= m.len() {
        0
    } else {
        json::max(name_bound(m[i as int].1), members_bound(m, i + 1))
    }
}

proof fn element_bound(a: Seq<Json>, i: nat, k: int)
    requires
        i <= k < a.len(),
    ensures
        name_bound(a[k]) <= elements_bound(a, i),
    decreases a.len() - i,
{
    if i < k {
        element_bound(a, i + 1, k);
    }
}

proof fn member_bound(m: Members, i: nat, k: int)
    requires
        i <= k < m.len(),
    ensures
        name_bound(m[k].1) <= members_bound(m, i),
    decreases m.len() - i,
{
    if i < k {
        member_bound(m, i + 1, k);
    }
}

/// Digits after a number of at least one make it at least as great as they are
/// many.
proof fn digits_are_many(s: Text, i: int, acc: int)
    requires
        0 <= i <= s.len(),
        acc >= 1,
    ensures
        jptr::digits_from(s, i, acc) matches Some(n) ==> n >= acc + (s.len() - i),
    decreases s.len() - i,
{
    if i < s.len() && text::ascii_digit(s[i]) {
        digits_are_many(s, i + 1, acc * 10 + (s[i] as int - '0' as int));
    }
}

/// An array index is no longer than the array.
proof fn index_is_short(comp: Text, len: nat)
    requires
        jptr::index_value(comp) matches Some(n) && n < len,
    ensures
        comp.len() <= len,
{
    jptr::digits_grow(comp, 0, 0);
    if comp.len() > 1 {
        let d = comp[0] as int - '0' as int;
        assert(text::ascii_digit(comp[0]));
        assert(d >= 1);
        assert(jptr::digits_from(comp, 0, 0) == jptr::digits_from(comp, 1, d));
        digits_are_many(comp, 1, d);
    }
}

/// A component that selects a child is no longer than the bound, and neither is
/// any that selects a value below the child.
proof fn child_is_bounded(j: Json, comp: Text)
    requires
        jptr::child(j, comp) is Some,
    ensures
        comp.len() <= name_bound(j),
        name_bound(jptr::child(j, comp)->0) <= name_bound(j),
{
    match j {
        Json::Array(a) => {
            let n = jptr::index_value(comp)->0;
            jptr::digits_grow(comp, 0, 0);
            index_is_short(comp, a.len());
            element_bound(a, 0, n);
        },
        Json::Object(m) => {
            laws::index_found(m, comp, 0);
            suffix::name_is_short(m, 0, json::index_of(m, comp));
            member_bound(m, 0, json::index_of(m, comp));
        },
        _ => {},
    }
}

/// The last component of a path that addresses a value is no longer than the
/// bound.
proof fn last_is_bounded(j: Json, parts: Seq<Text>, i: int)
    requires
        0 <= i < parts.len(),
        jptr::resolve(j, parts, i) is Some,
    ensures
        parts.last().len() <= name_bound(j),
    decreases parts.len() - i,
{
    child_is_bounded(j, parts[i]);
    if i + 1 < parts.len() {
        last_is_bounded(jptr::child(j, parts[i])->0, parts, i + 1);
    }
}

/// The last piece of a text is at least as long as an end of the text without
/// the separator.
proof fn last_piece_is_long(s: Text, c: char, start: int, i: int, n: nat)
    requires
        0 <= start <= i <= s.len(),
        n <= s.len(),
        start <= s.len() - n,
        forall|k: int| s.len() - n <= k < s.len() ==> #[trigger] s[k] != c,
    ensures
        text::split_from(s, c, start, i).len() > 0,
        text::split_from(s, c, start, i).last().len() >= n,
    decreases s.len() - i,
{
    if i < s.len() {
        if s[i] == c {
            last_piece_is_long(s, c, i + 1, i + 1, n);
            let rest = text::split_from(s, c, i + 1, i + 1);
            assert((seq![s.subrange(start, i)] + rest).last() == rest.last());
        } else {
            last_piece_is_long(s, c, start, i + 1, n);
        }
    }
}

/// Replacing two characters by one at most halves a text.
proof fn replacing_halves(s: Text, pat: Text, to: Text, i: int)
    requires
        0 <= i,
        pat.len() == 2,
        to.len() == 1,
    ensures
        2 * text::replace_from(s, pat, to, i).len() >= s.len() - i,
    decreases s.len() + 1 - i,
{
    if i < s.len() {
        replacing_halves(s, pat, to, i + 2);
        replacing_halves(s, pat, to, i + 1);
    }
}

/// Unescaping keeps at least a quarter of a text.
proof fn unescaping_quarters(s: Text)
    ensures
        4 * jptr::unescaped(s).len() >= s.len(),
{
    reveal_strlit("~1");
    reveal_strlit("~0");
    reveal_strlit("/");
    reveal_strlit("~");
    let t = text::replaced(s, "~1"@, "/"@);
    replacing_halves(s, "~1"@, "/"@, 0);
    replacing_halves(t, "~0"@, "~"@, 0);
}

/// A pointer whose last component is too long addresses nothing.
pub proof fn long_pointer_misses(j: Json, a: Text, q: Text, d: Text)
    requires
        a.len() > 3,
        a[0] == '#',
        a[1] == '/',
        plain(a),
        plain(d),
        forall|i: int| 0 <= i < d.len() ==> #[trigger] d[i] != '/',
        d.len() > 4 * name_bound(j),
    ensures
        jptr::read(j, a + common::uri_encoded(q) + d) is None,
{
    let e = common::uri_encoded(q);
    let prop = a + e + d;
    reveal_strlit("#");
    assert(prop.subrange(0, 1) =~= "#"@);
    assert(text::stands_at(prop, "#"@, 0));
    assert(text::find_spec(prop, "#"@) == Some(0int));
    let a2 = a.skip(2);
    assert(prop.skip(1)[0] == '/');
    assert(jptr::without_slash(prop.skip(1)) =~= a2 + e + d);
    assert forall|i: int| 0 <= i < a2.len() implies '\0' <= #[trigger] a2[i] <= '\u{7f}' && a2[i]
        != '%' by {
        assert(a2[i] == a[i + 2]);
    }
    uri_decodes(a2, q, d);
    let t = a2 + q + d;
    let u = jptr::without_slash(t);
    let n = d.len();
    assert forall|k: int| u.len() - n <= k < u.len() implies #[trigger] u[k] != '/' by {
        assert(u[k] == d[k - (u.len() - n)]);
    }
    last_piece_is_long(u, '/', 0, 0, n);
    let ps = text::pieces(u, '/');
    let parts = jptr::path_parts(t);
    assert(parts.last() == jptr::unescaped(ps.last()));
    unescaping_quarters(ps.last());
    if jptr::resolve(j, parts, 0) is Some {
        last_is_bounded(j, parts, 0);
    }
}

/// The digits of a number are plain.
pub proof fn decimal_is_plain(n: nat)
    ensures
        plain(text::decimal(n)),
        forall|i: int| 0 <= i < text::decimal(n).len() ==> #[trigger] text::decimal(n)[i] != '/',
    decreases n,
{
    if n >= 10 {
        decimal_is_plain(n / 10);
        let h = text::decimal(n / 10);
        assert forall|i: int| 0 <= i < text::decimal(n).len() implies '\0'
            <= #[trigger] text::decimal(n)[i] <= '\u{7f}' && text::decimal(n)[i] != '%'
            && text::decimal(n)[i] != '/' by {
            if i < h.len() {
                assert(text::decimal(n)[i] == h[i]);
            }
        }
    }
}

} // verus!
